//! SCALE primitives: fixed-width little-endian integers, variable-width block numbers and
//! compact integers.
use vstd::prelude::*;

verus! {

/// Why a decoder stopped.
#[derive(Debug, Clone, Copy, PartialEq, Eq)]
pub enum ErrorKind {
    /// The input ends before the value it announces.
    Incomplete,
    /// The bytes do not form a valid value (a non-canonical or oversized compact integer).
    Malformed,
    /// The value was decoded, but bytes remain after it.
    TrailingData,
}

/// Little-endian value of a byte string.
pub open spec fn le_value(s: Seq<u8>) -> nat
    decreases s.len(),
{
    if s.len() == 0 {
        0
    } else {
        s[0] as nat + 256 * le_value(s.drop_first())
    }
}

/// `256` to the power `n`.
pub open spec fn pow256(n: nat) -> nat
    decreases n,
{
    if n == 0 {
        1
    } else {
        256 * pow256((n - 1) as nat)
    }
}

/// The `n` low bytes of `v`, least significant first.
pub open spec fn le_bytes(v: nat, n: nat) -> Seq<u8>
    decreases n,
{
    if n == 0 {
        Seq::empty()
    } else {
        seq![(v % 256) as u8] + le_bytes(v / 256, (n - 1) as nat)
    }
}

/// Number of bytes needed to write `v` (at least one).
pub open spec fn byte_len(v: nat) -> nat
    decreases v,
{
    if v < 256 {
        1
    } else {
        1 + byte_len(v / 256)
    }
}

/// SCALE compact encoding of `v`.
pub open spec fn compact_encoding(v: nat) -> Seq<u8> {
    if v < 64 {
        le_bytes(v * 4, 1)
    } else if v < 0x4000 {
        le_bytes(v * 4 + 1, 2)
    } else if v < 0x4000_0000 {
        le_bytes(v * 4 + 2, 4)
    } else {
        le_bytes(((byte_len(v) - 4) * 4 + 3) as nat, 1) + le_bytes(v, byte_len(v))
    }
}

/// Outcome of reading a compact integer at `pos`: the value and the position after it, or
/// the kind of failure and the position of the compact integer.
pub open spec fn spec_compact(b: Seq<u8>, pos: nat) -> Result<(nat, nat), (ErrorKind, nat)> {
    if pos >= b.len() {
        Err((ErrorKind::Incomplete, pos))
    } else {
        let b0 = b[pos as int];
        if b0 % 4 == 0 {
            Ok(((b0 / 4) as nat, pos + 1))
        } else if b0 % 4 == 1 {
            if pos + 2 > b.len() {
                Err((ErrorKind::Incomplete, pos))
            } else {
                let v = le_value(b.subrange(pos as int, pos + 2 as int)) / 4;
                if v < 64 {
                    Err((ErrorKind::Malformed, pos))
                } else {
                    Ok((v, pos + 2))
                }
            }
        } else if b0 % 4 == 2 {
            if pos + 4 > b.len() {
                Err((ErrorKind::Incomplete, pos))
            } else {
                let v = le_value(b.subrange(pos as int, pos + 4 as int)) / 4;
                if v < 0x4000 {
                    Err((ErrorKind::Malformed, pos))
                } else {
                    Ok((v, pos + 4))
                }
            }
        } else {
            let n = (b0 / 4) as nat + 4;
            if n > 8 {
                Err((ErrorKind::Malformed, pos))
            } else if pos + 1 + n > b.len() {
                Err((ErrorKind::Incomplete, pos))
            } else {
                let v = le_value(b.subrange(pos + 1 as int, pos + 1 + n as int));
                if b[pos + n as int] == 0 || v < 0x4000_0000 || v > usize::MAX {
                    Err((ErrorKind::Malformed, pos))
                } else {
                    Ok((v, pos + 1 + n))
                }
            }
        }
    }
}

pub proof fn lemma_pow256_mono(a: nat, b: nat)
    requires
        a <= b,
    ensures
        pow256(a) <= pow256(b),
    decreases b,
{
    if a < b {
        lemma_pow256_mono(a, (b - 1) as nat);
    }
}

pub proof fn lemma_pow256_values()
    ensures
        pow256(1) == 0x100,
        pow256(2) == 0x1_0000,
        pow256(3) == 0x100_0000,
        pow256(4) == 0x1_0000_0000,
        pow256(7) == 0x100_0000_0000_0000,
        pow256(8) == 0x1_0000_0000_0000_0000,
{
    reveal_with_fuel(pow256, 9);
}

pub proof fn lemma_le_value_bound(s: Seq<u8>)
    ensures
        le_value(s) < pow256(s.len()),
    decreases s.len(),
{
    if s.len() > 0 {
        let r = s.drop_first();
        lemma_le_value_bound(r);
        assert(le_value(r) + 1 <= pow256(r.len()));
        assert(256 * (le_value(r) + 1) <= 256 * pow256(r.len())) by (nonlinear_arith)
            requires
                le_value(r) + 1 <= pow256(r.len()),
        ;
    }
}

pub proof fn lemma_le_bytes_len(v: nat, n: nat)
    ensures
        le_bytes(v, n).len() == n,
    decreases n,
{
    if n > 0 {
        lemma_le_bytes_len(v / 256, (n - 1) as nat);
    }
}

/// Reads the `n`-byte little-endian integer that starts at `pos`.
pub fn read_le(b: &[u8], pos: usize, n: usize) -> (r: u64)
    requires
        n <= 8,
        pos + n <= b@.len(),
    ensures
        r as nat == le_value(b@.subrange(pos as int, pos + n)),
{
    let len = b.len();
    let mut acc: u64 = 0;
    let mut i: usize = n;
    while i > 0
        invariant
            len == b@.len(),
            i <= n,
            n <= 8,
            pos + n <= b@.len(),
            acc as nat == le_value(b@.subrange(pos + i, pos + n)),
        decreases i,
    {
        proof {
            lemma_le_value_bound(b@.subrange(pos + i, pos + n));
            lemma_pow256_mono((n - i) as nat, 7);
            lemma_pow256_values();
        }
        i = i - 1;
        acc = acc * 256 + b[pos + i] as u64;
        proof {
            assert(b@.subrange(pos + i, pos + n).drop_first() =~= b@.subrange(pos + i + 1, pos + n));
        }
    }
    acc
}

/// Appends the `n` low bytes of `v` to `out`, least significant first.
pub fn push_le(out: &mut Vec<u8>, v: u64, n: usize)
    ensures
        final(out)@ == old(out)@ + le_bytes(v as nat, n as nat),
{
    let mut x: u64 = v;
    let mut i: usize = 0;
    while i < n
        invariant
            i <= n,
            out@ + le_bytes(x as nat, (n - i) as nat) == old(out)@ + le_bytes(v as nat, n as nat),
        decreases n - i,
    {
        let ghost before = out@;
        out.push((x % 256) as u8);
        proof {
            let k = (n - i) as nat;
            assert(le_bytes(x as nat, k) == seq![(x % 256) as u8] + le_bytes((x / 256) as nat, (k - 1) as nat));
            assert(before + le_bytes(x as nat, k) =~= out@ + le_bytes((x / 256) as nat, (k - 1) as nat));
        }
        x = x / 256;
        i = i + 1;
    }
    proof {
        assert(out@ + le_bytes(x as nat, 0) =~= out@);
    }
}

/// Reads the compact integer that starts at `pos`.
pub fn decode_compact(b: &[u8], pos: usize) -> (r: Result<(usize, usize), (ErrorKind, usize)>)
    ensures
        match spec_compact(b@, pos as nat) {
            Ok((v, p)) => r == Ok::<(usize, usize), (ErrorKind, usize)>((v as usize, p as usize)),
            Err((k, o)) => r == Err::<(usize, usize), (ErrorKind, usize)>((k, o as usize)),
        },
        spec_compact(b@, pos as nat) matches Ok((v, p)) ==> v <= usize::MAX && p <= b@.len(),
{
    if pos >= b.len() {
        return Err((ErrorKind::Incomplete, pos));
    }
    let b0 = b[pos];
    if b0 % 4 == 0 {
        Ok(((b0 / 4) as usize, pos + 1))
    } else if b0 % 4 == 1 {
        if b.len() - pos < 2 {
            return Err((ErrorKind::Incomplete, pos));
        }
        let v = read_le(b, pos, 2) / 4;
        proof {
            lemma_le_value_bound(b@.subrange(pos as int, pos + 2));
            lemma_pow256_values();
        }
        if v < 64 {
            Err((ErrorKind::Malformed, pos))
        } else {
            Ok((v as usize, pos + 2))
        }
    } else if b0 % 4 == 2 {
        if b.len() - pos < 4 {
            return Err((ErrorKind::Incomplete, pos));
        }
        let v = read_le(b, pos, 4) / 4;
        proof {
            lemma_le_value_bound(b@.subrange(pos as int, pos + 4));
            lemma_pow256_values();
        }
        if v < 0x4000 {
            Err((ErrorKind::Malformed, pos))
        } else {
            Ok((v as usize, pos + 4))
        }
    } else {
        let n: usize = (b0 / 4) as usize + 4;
        if n > 8 {
            return Err((ErrorKind::Malformed, pos));
        }
        if b.len() - pos - 1 < n {
            return Err((ErrorKind::Incomplete, pos));
        }
        let v = read_le(b, pos + 1, n);
        if b[pos + n] == 0 || v < 0x4000_0000 || v as u128 > usize::MAX as u128 {
            Err((ErrorKind::Malformed, pos))
        } else {
            Ok((v as usize, pos + 1 + n))
        }
    }
}

/// Number of bytes needed to write `v`.
fn byte_count(v: u64) -> (r: usize)
    ensures
        r as nat == byte_len(v as nat),
        r <= 8,
{
    let mut n: usize = 1;
    let mut x: u64 = v;
    proof {
        lemma_pow256_values();
        lemma_byte_len_bound(v as nat, 8);
    }
    while x >= 256
        invariant
            n >= 1,
            n + byte_len(x as nat) - 1 == byte_len(v as nat),
            byte_len(v as nat) <= 8,
        decreases x,
    {
        x = x / 256;
        n = n + 1;
    }
    n
}

pub proof fn lemma_byte_len_bound(v: nat, k: nat)
    requires
        k >= 1,
        v < pow256(k),
    ensures
        byte_len(v) <= k,
    decreases k,
{
    if v >= 256 {
        assert(k >= 2) by {
            if k == 1 {
                reveal_with_fuel(pow256, 2);
            }
        }
        assert(v / 256 < pow256((k - 1) as nat)) by (nonlinear_arith)
            requires
                v < 256 * pow256((k - 1) as nat),
        ;
        lemma_byte_len_bound(v / 256, (k - 1) as nat);
    }
}

pub proof fn lemma_byte_len_lower(v: nat, j: nat)
    requires
        v >= pow256(j),
    ensures
        byte_len(v) > j,
    decreases j,
{
    if j > 0 {
        assert(v / 256 >= pow256((j - 1) as nat)) by (nonlinear_arith)
            requires
                v >= 256 * pow256((j - 1) as nat),
        ;
        assert(v >= 256) by {
            lemma_pow256_mono(0, (j - 1) as nat);
        }
        lemma_byte_len_lower(v / 256, (j - 1) as nat);
    }
}

/// SCALE compact encoding of `v`.
pub fn encode_compact_u64(v: u64) -> (r: Vec<u8>)
    ensures
        r@ == compact_encoding(v as nat),
{
    let mut out: Vec<u8> = Vec::new();
    if v < 64 {
        push_le(&mut out, v * 4, 1);
    } else if v < 0x4000 {
        push_le(&mut out, v * 4 + 1, 2);
    } else if v < 0x4000_0000 {
        push_le(&mut out, v * 4 + 2, 4);
    } else {
        let n = byte_count(v);
        proof {
            lemma_pow256_values();
            lemma_byte_len_lower(v as nat, 3);
        }
        push_le(&mut out, ((n - 4) * 4 + 3) as u64, 1);
        push_le(&mut out, v, n);
    }
    proof {
        assert(Seq::<u8>::empty() + compact_encoding(v as nat) =~= compact_encoding(v as nat));
    }
    out
}

/// Reading back the `n` low bytes of a number below `256^n` gives the number.
pub proof fn lemma_le_round_trip(v: nat, n: nat)
    requires
        v < pow256(n),
    ensures
        le_value(le_bytes(v, n)) == v,
    decreases n,
{
    if n == 0 {
    } else {
        let s = le_bytes(v, n);
        assert(v / 256 < pow256((n - 1) as nat)) by (nonlinear_arith)
            requires
                v < 256 * pow256((n - 1) as nat),
        ;
        lemma_le_round_trip(v / 256, (n - 1) as nat);
        assert(s.drop_first() =~= le_bytes(v / 256, (n - 1) as nat));
        assert((v % 256) as u8 as nat == v % 256);
    }
}

pub proof fn lemma_below_byte_len(v: nat)
    ensures
        v < pow256(byte_len(v)),
    decreases v,
{
    if v >= 256 {
        lemma_below_byte_len(v / 256);
        assert(v < 256 * pow256(byte_len(v / 256))) by (nonlinear_arith)
            requires
                v / 256 < pow256(byte_len(v / 256)),
        ;
    } else {
        reveal_with_fuel(pow256, 2);
    }
}

/// The last of the bytes needed to write a nonzero number is not zero.
pub proof fn lemma_top_byte(v: nat)
    requires
        v > 0,
    ensures
        le_bytes(v, byte_len(v)).last() != 0,
    decreases v,
{
    lemma_le_bytes_len(v, byte_len(v));
    if v >= 256 {
        lemma_top_byte(v / 256);
        lemma_le_bytes_len(v / 256, byte_len(v / 256));
        assert(le_bytes(v, byte_len(v)).last() == le_bytes(v / 256, byte_len(v / 256)).last());
    }
}

proof fn lemma_compact_small_round_trip(b: Seq<u8>, pos: nat, v: nat, n: nat, mode: nat)
    requires
        (n == 2 && mode == 1 && 64 <= v < 0x4000) || (n == 4 && mode == 2 && 0x4000 <= v < 0x4000_0000),
        pos + n <= b.len(),
        b.subrange(pos as int, (pos + n) as int) == le_bytes(v * 4 + mode, n),
    ensures
        spec_compact(b, pos) == Ok::<(nat, nat), (ErrorKind, nat)>((v, pos + n)),
{
    lemma_pow256_values();
    lemma_le_bytes_len(v * 4 + mode, n);
    lemma_le_round_trip(v * 4 + mode, n);
    let e = le_bytes(v * 4 + mode, n);
    assert(b[pos as int] == e[0]);
    assert(e[0] == ((v * 4 + mode) % 256) as u8);
    assert(((v * 4 + mode) % 256) % 4 == mode) by (nonlinear_arith)
        requires
            mode < 4,
    ;
    assert((v * 4 + mode) / 4 == v) by (nonlinear_arith)
        requires
            mode < 4,
    ;
}

proof fn lemma_compact_big_round_trip(b: Seq<u8>, pos: nat, v: nat)
    requires
        0x4000_0000 <= v <= usize::MAX,
        pos + 1 + byte_len(v) <= b.len(),
        b[pos as int] == ((byte_len(v) - 4) * 4 + 3) as u8,
        b.subrange(pos + 1 as int, (pos + 1 + byte_len(v)) as int) == le_bytes(v, byte_len(v)),
    ensures
        spec_compact(b, pos) == Ok::<(nat, nat), (ErrorKind, nat)>((v, pos + 1 + byte_len(v))),
{
    let n = byte_len(v);
    lemma_pow256_values();
    lemma_byte_len_lower(v, 3);
    lemma_byte_len_bound(v, 8);
    lemma_below_byte_len(v);
    lemma_le_bytes_len(v, n);
    lemma_le_round_trip(v, n);
    lemma_top_byte(v);
    let p = pos as int;
    assert(b[p + n] == le_bytes(v, n).last()) by {
        assert(b.subrange(p + 1, p + 1 + n)[n - 1] == b[p + n]);
    }
}

/// Reading a compact integer where its encoding stands gives the integer back.
pub proof fn lemma_compact_round_trip(b: Seq<u8>, pos: nat, v: nat)
    requires
        v <= usize::MAX,
        pos + compact_encoding(v).len() <= b.len(),
        b.subrange(pos as int, (pos + compact_encoding(v).len()) as int) == compact_encoding(v),
    ensures
        spec_compact(b, pos) == Ok::<(nat, nat), (ErrorKind, nat)>((v, pos + compact_encoding(v).len())),
{
    let e = compact_encoding(v);
    let p = pos as int;
    if v < 64 {
        lemma_le_bytes_len(v * 4, 1);
        assert(b[p] == e[0]) by {
            assert(b.subrange(p, p + 1)[0] == b[p]);
        }
        assert((v * 4) % 256 == v * 4 && (v * 4) % 4 == 0 && (v * 4) / 4 == v) by (nonlinear_arith)
            requires
                v < 64,
        ;
        assert(e[0] == ((v * 4) % 256) as u8);
    } else if v < 0x4000 {
        lemma_le_bytes_len(v * 4 + 1, 2);
        lemma_compact_small_round_trip(b, pos, v, 2, 1);
    } else if v < 0x4000_0000 {
        lemma_le_bytes_len(v * 4 + 2, 4);
        lemma_compact_small_round_trip(b, pos, v, 4, 2);
    } else {
        let n = byte_len(v);
        let head = le_bytes(((n - 4) * 4 + 3) as nat, 1);
        let body = le_bytes(v, n);
        lemma_le_bytes_len(((n - 4) * 4 + 3) as nat, 1);
        lemma_le_bytes_len(v, n);
        lemma_pow256_values();
        lemma_byte_len_lower(v, 3);
        lemma_byte_len_bound(v, 8);
        let whole = b.subrange(p, p + e.len());
        assert(b[p] == head[0]) by {
            assert(whole[0] == e[0]);
        }
        assert(b.subrange(p + 1, p + 1 + n) =~= body) by {
            assert forall|i: int| 0 <= i < n implies b.subrange(p + 1, p + 1 + n)[i] == body[i] by {
                assert(whole[i + 1] == e[i + 1]);
            }
        }
        lemma_compact_big_round_trip(b, pos, v);
    }
}

} // verus!
