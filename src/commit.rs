//! Decoding of SCALE-encoded GRANDPA commit messages into views that borrow from the input.
use vstd::prelude::*;
use vstd::slice::slice_subrange;

use crate::outside::array_ref;
use crate::scale::{
    compact_encoding, decode_compact, le_bytes, le_value, lemma_compact_round_trip,
    lemma_le_bytes_len, lemma_le_round_trip, pow256, read_le, spec_compact, ErrorKind,
};

verus! {

/// A commit message: the round and set it belongs to, and the compact commit.
#[derive(Debug, Clone, PartialEq, Eq)]
pub struct CommitMessageRef<'a> {
    pub round_number: u64,
    pub set_id: u64,
    pub message: CompactCommitRef<'a>,
}

/// The target of a commit, its precommits, and the signatures attesting them.
#[derive(Debug, Clone, PartialEq, Eq)]
pub struct CompactCommitRef<'a> {
    pub target_hash: &'a [u8; 32],
    pub target_number: u64,
    pub precommits: Vec<UnsignedPrecommitRef<'a>>,
    /// List of Ed25519 signatures and public keys; entry `i` attests `precommits[i]`.
    pub auth_data: Vec<(&'a [u8; 64], &'a [u8; 32])>,
}

/// A precommit vote without its signature.
#[derive(Debug, Clone, PartialEq, Eq)]
pub struct UnsignedPrecommitRef<'a> {
    pub target_hash: &'a [u8; 32],
    pub target_number: u64,
}

/// Error returned when a commit cannot be decoded: what went wrong, and the offset in the
/// input of the item that could not be read.
#[derive(Debug, Clone, Copy, PartialEq, Eq)]
pub struct Error {
    pub kind: ErrorKind,
    pub offset: usize,
}

/// A decoded commit, as plain values.
pub struct CommitView {
    pub round_number: u64,
    pub set_id: u64,
    pub target_hash: Seq<u8>,
    pub target_number: u64,
    pub precommits: Seq<(Seq<u8>, u64)>,
    pub auth_data: Seq<(Seq<u8>, Seq<u8>)>,
}

pub open spec fn precommit_view(p: UnsignedPrecommitRef) -> (Seq<u8>, u64) {
    (p.target_hash@, p.target_number)
}

pub open spec fn auth_view(a: (&[u8; 64], &[u8; 32])) -> (Seq<u8>, Seq<u8>) {
    (a.0@, a.1@)
}

impl<'a> View for CommitMessageRef<'a> {
    type V = CommitView;

    open spec fn view(&self) -> CommitView {
        CommitView {
            round_number: self.round_number,
            set_id: self.set_id,
            target_hash: self.message.target_hash@,
            target_number: self.message.target_number,
            precommits: self.message.precommits@.map_values(|p| precommit_view(p)),
            auth_data: self.message.auth_data@.map_values(|a| auth_view(a)),
        }
    }
}

/// Reading `n` bytes at `pos`.
pub open spec fn spec_take(b: Seq<u8>, pos: nat, n: nat) -> Result<(Seq<u8>, nat), (ErrorKind, nat)> {
    if pos + n > b.len() {
        Err((ErrorKind::Incomplete, pos))
    } else {
        Ok((b.subrange(pos as int, pos + n as int), pos + n))
    }
}

/// Reading an `n`-byte little-endian number at `pos`.
pub open spec fn spec_number(b: Seq<u8>, pos: nat, n: nat) -> Result<(u64, nat), (ErrorKind, nat)> {
    if pos + n > b.len() {
        Err((ErrorKind::Incomplete, pos))
    } else {
        Ok((le_value(b.subrange(pos as int, pos + n as int)) as u64, pos + n))
    }
}

/// Reading one unsigned precommit at `pos`.
pub open spec fn spec_precommit(b: Seq<u8>, pos: nat, nb: nat) -> Result<((Seq<u8>, u64), nat), (ErrorKind, nat)> {
    match spec_take(b, pos, 32) {
        Err(e) => Err(e),
        Ok((hash, p)) => match spec_number(b, p, nb) {
            Err(e) => Err(e),
            Ok((number, q)) => Ok(((hash, number), q)),
        },
    }
}

/// Reading `count` unsigned precommits in a row, starting at `pos`.
pub open spec fn spec_precommits(b: Seq<u8>, pos: nat, nb: nat, count: nat) -> Result<(Seq<(Seq<u8>, u64)>, nat), (ErrorKind, nat)>
    decreases count,
{
    if count == 0 {
        Ok((Seq::empty(), pos))
    } else {
        match spec_precommits(b, pos, nb, (count - 1) as nat) {
            Err(e) => Err(e),
            Ok((s, p)) => match spec_precommit(b, p, nb) {
                Err(e) => Err(e),
                Ok((x, q)) => Ok((s.push(x), q)),
            },
        }
    }
}

/// Reading one signature and public key at `pos`.
pub open spec fn spec_auth(b: Seq<u8>, pos: nat) -> Result<((Seq<u8>, Seq<u8>), nat), (ErrorKind, nat)> {
    match spec_take(b, pos, 64) {
        Err(e) => Err(e),
        Ok((sig, p)) => match spec_take(b, p, 32) {
            Err(e) => Err(e),
            Ok((key, q)) => Ok(((sig, key), q)),
        },
    }
}

/// Reading `count` signature and public key pairs in a row, starting at `pos`.
pub open spec fn spec_auths(b: Seq<u8>, pos: nat, count: nat) -> Result<(Seq<(Seq<u8>, Seq<u8>)>, nat), (ErrorKind, nat)>
    decreases count,
{
    if count == 0 {
        Ok((Seq::empty(), pos))
    } else {
        match spec_auths(b, pos, (count - 1) as nat) {
            Err(e) => Err(e),
            Ok((s, p)) => match spec_auth(b, p) {
                Err(e) => Err(e),
                Ok((x, q)) => Ok((s.push(x), q)),
            },
        }
    }
}

/// Reading a commit at the start of `b`, with block numbers of `nb` bytes: the commit and the
/// position where it ends.
pub open spec fn spec_commit(b: Seq<u8>, nb: nat) -> Result<(CommitView, nat), (ErrorKind, nat)> {
    match spec_number(b, 0, 8) {
        Err(e) => Err(e),
        Ok((round_number, p0)) => match spec_number(b, p0, 8) {
            Err(e) => Err(e),
            Ok((set_id, p1)) => match spec_take(b, p1, 32) {
                Err(e) => Err(e),
                Ok((target_hash, p2)) => match spec_number(b, p2, nb) {
                    Err(e) => Err(e),
                    Ok((target_number, p3)) => match spec_compact(b, p3) {
                        Err(e) => Err(e),
                        Ok((n, p4)) => match spec_precommits(b, p4, nb, n) {
                            Err(e) => Err(e),
                            Ok((precommits, p5)) => match spec_compact(b, p5) {
                                Err(e) => Err(e),
                                Ok((m, p6)) => match spec_auths(b, p6, m) {
                                    Err(e) => Err(e),
                                    Ok((auth_data, p7)) => Ok(
                                        (
                                            CommitView {
                                                round_number,
                                                set_id,
                                                target_hash,
                                                target_number,
                                                precommits,
                                                auth_data,
                                            },
                                            p7,
                                        ),
                                    ),
                                },
                            },
                        },
                    },
                },
            },
        },
    }
}

/// Reading a commit that must span all of `b`.
pub open spec fn spec_commit_exact(b: Seq<u8>, nb: nat) -> Result<CommitView, (ErrorKind, nat)> {
    match spec_commit(b, nb) {
        Err(e) => Err(e),
        Ok((c, p)) => if p == b.len() {
            Ok(c)
        } else {
            Err((ErrorKind::TrailingData, p))
        },
    }
}

proof fn lemma_precommits_err_stays(b: Seq<u8>, pos: nat, nb: nat, k: nat, n: nat)
    requires
        k <= n,
        spec_precommits(b, pos, nb, k) is Err,
    ensures
        spec_precommits(b, pos, nb, n) == spec_precommits(b, pos, nb, k),
    decreases n,
{
    if k < n {
        lemma_precommits_err_stays(b, pos, nb, k, (n - 1) as nat);
    }
}

proof fn lemma_auths_err_stays(b: Seq<u8>, pos: nat, k: nat, n: nat)
    requires
        k <= n,
        spec_auths(b, pos, k) is Err,
    ensures
        spec_auths(b, pos, n) == spec_auths(b, pos, k),
    decreases n,
{
    if k < n {
        lemma_auths_err_stays(b, pos, k, (n - 1) as nat);
    }
}

fn take_array<'a, const N: usize>(b: &'a [u8], pos: usize) -> (r: Result<&'a [u8; N], Error>)
    ensures
        match spec_take(b@, pos as nat, N as nat) {
            Ok((s, _)) => r matches Ok(a) && a@ == s,
            Err((k, o)) => r == Err::<&[u8; N], Error>((Error { kind: k, offset: o as usize })),
        },
{
    if b.len() < N || b.len() - N < pos {
        return Err(Error { kind: ErrorKind::Incomplete, offset: pos });
    }
    Ok(array_ref(slice_subrange(b, pos, pos + N)))
}

fn take_number(b: &[u8], pos: usize, n: usize) -> (r: Result<u64, Error>)
    requires
        n <= 8,
    ensures
        match spec_number(b@, pos as nat, n as nat) {
            Ok((v, _)) => r == Ok::<u64, Error>(v),
            Err((k, o)) => r == Err::<u64, Error>((Error { kind: k, offset: o as usize })),
        },
{
    if b.len() < n || b.len() - n < pos {
        return Err(Error { kind: ErrorKind::Incomplete, offset: pos });
    }
    Ok(read_le(b, pos, n))
}

fn compact_at(b: &[u8], pos: usize) -> (r: Result<(usize, usize), Error>)
    ensures
        match spec_compact(b@, pos as nat) {
            Ok((v, p)) => r == Ok::<(usize, usize), Error>((v as usize, p as usize)),
            Err((k, o)) => r == Err::<(usize, usize), Error>((Error { kind: k, offset: o as usize })),
        },
        spec_compact(b@, pos as nat) matches Ok((v, p)) ==> v <= usize::MAX && p <= b@.len(),
{
    match decode_compact(b, pos) {
        Ok(vp) => Ok(vp),
        Err((kind, offset)) => Err(Error { kind, offset }),
    }
}

fn precommit_list<'a>(b: &'a [u8], start: usize, nb: usize, count: usize) -> (r: Result<(Vec<UnsignedPrecommitRef<'a>>, usize), Error>)
    requires
        1 <= nb <= 8,
    ensures
        match spec_precommits(b@, start as nat, nb as nat, count as nat) {
            Ok((s, p)) => r matches Ok((v, q)) && v@.map_values(|x| precommit_view(x)) == s && q == p,
            Err((k, o)) => r == Err::<(Vec<UnsignedPrecommitRef<'a>>, usize), Error>((Error { kind: k, offset: o as usize })),
        },
{
    let len = b.len();
    let mut list: Vec<UnsignedPrecommitRef<'a>> = Vec::new();
    let mut pos = start;
    let mut i: usize = 0;
    while i < count
        invariant
            len == b@.len(),
            list@.len() == i,
            i <= count,
            1 <= nb <= 8,
            spec_precommits(b@, start as nat, nb as nat, i as nat) matches Ok((s, p)) && list@.map_values(|x| precommit_view(x)) == s && pos == p,
        decreases count - i,
    {
        let ghost prev = list@;
        proof {
            reveal_with_fuel(spec_precommits, 1);
        }
        let target_hash = match take_array::<32>(b, pos) {
            Ok(h) => h,
            Err(e) => {
                proof {
                    lemma_precommits_err_stays(b@, start as nat, nb as nat, (i + 1) as nat, count as nat);
                }
                return Err(e);
            },
        };
        let target_number = match take_number(b, pos + 32, nb) {
            Ok(n) => n,
            Err(e) => {
                proof {
                    lemma_precommits_err_stays(b@, start as nat, nb as nat, (i + 1) as nat, count as nat);
                }
                return Err(e);
            },
        };
        list.push(UnsignedPrecommitRef { target_hash, target_number });
        proof {
            assert(list@.map_values(|x| precommit_view(x)) =~= prev.map_values(|x| precommit_view(x)).push(precommit_view(list@[i as int])));
        }
        pos = pos + 32 + nb;
        i = i + 1;
    }
    Ok((list, pos))
}

fn auth_list<'a>(b: &'a [u8], start: usize, count: usize) -> (r: Result<(Vec<(&'a [u8; 64], &'a [u8; 32])>, usize), Error>)
    ensures
        match spec_auths(b@, start as nat, count as nat) {
            Ok((s, p)) => r matches Ok((v, q)) && v@.map_values(|x| auth_view(x)) == s && q == p,
            Err((k, o)) => r == Err::<(Vec<(&'a [u8; 64], &'a [u8; 32])>, usize), Error>((Error { kind: k, offset: o as usize })),
        },
{
    let len = b.len();
    let mut list: Vec<(&'a [u8; 64], &'a [u8; 32])> = Vec::new();
    let mut pos = start;
    let mut i: usize = 0;
    while i < count
        invariant
            len == b@.len(),
            list@.len() == i,
            i <= count,
            spec_auths(b@, start as nat, i as nat) matches Ok((s, p)) && list@.map_values(|x| auth_view(x)) == s && pos == p,
        decreases count - i,
    {
        let ghost prev = list@;
        proof {
            reveal_with_fuel(spec_auths, 1);
        }
        let signature = match take_array::<64>(b, pos) {
            Ok(s) => s,
            Err(e) => {
                proof {
                    lemma_auths_err_stays(b@, start as nat, (i + 1) as nat, count as nat);
                }
                return Err(e);
            },
        };
        let public_key = match take_array::<32>(b, pos + 64) {
            Ok(k) => k,
            Err(e) => {
                proof {
                    lemma_auths_err_stays(b@, start as nat, (i + 1) as nat, count as nat);
                }
                return Err(e);
            },
        };
        list.push((signature, public_key));
        proof {
            assert(list@.map_values(|x| auth_view(x)) =~= prev.map_values(|x| auth_view(x)).push(auth_view(list@[i as int])));
        }
        pos = pos + 96;
        i = i + 1;
    }
    Ok((list, pos))
}

fn commit_message<'a>(b: &'a [u8], nb: usize) -> (r: Result<(CommitMessageRef<'a>, usize), Error>)
    requires
        1 <= nb <= 8,
    ensures
        match spec_commit(b@, nb as nat) {
            Ok((c, p)) => r matches Ok((v, q)) && v@ == c && q == p,
            Err((k, o)) => r == Err::<(CommitMessageRef<'a>, usize), Error>((Error { kind: k, offset: o as usize })),
        },
{
    proof {
        assert(vstd::slice::spec_slice_len(b) == b@.len());
    }
    let round_number = take_number(b, 0, 8)?;
    let set_id = take_number(b, 8, 8)?;
    let target_hash = take_array::<32>(b, 16)?;
    let target_number = take_number(b, 48, nb)?;
    let (num_precommits, pos) = compact_at(b, 48 + nb)?;
    let (precommits, pos) = match precommit_list(b, pos, nb, num_precommits) {
        Ok(r) => r,
        Err(e) => return Err(e),
    };
    let (num_auths, pos) = compact_at(b, pos)?;
    let (auth_data, pos) = match auth_list(b, pos, num_auths) {
        Ok(r) => r,
        Err(e) => return Err(e),
    };
    let commit = CommitMessageRef {
        round_number,
        set_id,
        message: CompactCommitRef { target_hash, target_number, precommits, auth_data },
    };
    Ok((commit, pos))
}

/// Attempt to decode the given SCALE-encoded Grandpa commit, which must span the whole input.
pub fn decode_grandpa_commit<'a>(scale_encoded: &'a [u8], block_number_bytes: usize) -> (r: Result<CommitMessageRef<'a>, Error>)
    requires
        1 <= block_number_bytes <= 8,
    ensures
        match spec_commit_exact(scale_encoded@, block_number_bytes as nat) {
            Ok(c) => r matches Ok(v) && v@ == c,
            Err((k, o)) => r == Err::<CommitMessageRef<'a>, Error>((Error { kind: k, offset: o as usize })),
        },
{
    let (commit, end) = commit_message(scale_encoded, block_number_bytes)?;
    if end != scale_encoded.len() {
        return Err(Error { kind: ErrorKind::TrailingData, offset: end });
    }
    Ok(commit)
}

/// Attempt to decode the given SCALE-encoded commit.
///
/// Contrary to [`decode_grandpa_commit`], doesn't return an error if the slice is too long but
/// returns the remainder.
pub fn decode_partial_grandpa_commit<'a>(scale_encoded: &'a [u8], block_number_bytes: usize) -> (r: Result<(CommitMessageRef<'a>, &'a [u8]), Error>)
    requires
        1 <= block_number_bytes <= 8,
    ensures
        match spec_commit(scale_encoded@, block_number_bytes as nat) {
            Ok((c, p)) => r matches Ok((v, rest)) && v@ == c && rest@ == scale_encoded@.subrange(p as int, scale_encoded@.len() as int),
            Err((k, o)) => r == Err::<(CommitMessageRef<'a>, &'a [u8]), Error>((Error { kind: k, offset: o as usize })),
        },
{
    let (commit, end) = commit_message(scale_encoded, block_number_bytes)?;
    Ok((commit, slice_subrange(scale_encoded, end, scale_encoded.len())))
}

/// The SCALE encoding of a list of precommits, block numbers on `nb` bytes.
pub open spec fn encode_precommits(ps: Seq<(Seq<u8>, u64)>, nb: nat) -> Seq<u8>
    decreases ps.len(),
{
    if ps.len() == 0 {
        Seq::empty()
    } else {
        encode_precommits(ps.drop_last(), nb) + ps.last().0 + le_bytes(ps.last().1 as nat, nb)
    }
}

/// The SCALE encoding of a list of signatures and public keys.
pub open spec fn encode_auths(a: Seq<(Seq<u8>, Seq<u8>)>) -> Seq<u8>
    decreases a.len(),
{
    if a.len() == 0 {
        Seq::empty()
    } else {
        encode_auths(a.drop_last()) + a.last().0 + a.last().1
    }
}

/// The SCALE encoding of a commit, block numbers on `nb` bytes.
pub open spec fn encode_commit(c: CommitView, nb: nat) -> Seq<u8> {
    le_bytes(c.round_number as nat, 8) + le_bytes(c.set_id as nat, 8) + c.target_hash + le_bytes(
        c.target_number as nat,
        nb,
    ) + compact_encoding(c.precommits.len()) + encode_precommits(c.precommits, nb) + compact_encoding(
        c.auth_data.len(),
    ) + encode_auths(c.auth_data)
}

/// Whether the precommits have 32-byte hashes and numbers that fit in `nb` bytes.
pub open spec fn precommits_fit(ps: Seq<(Seq<u8>, u64)>, nb: nat) -> bool {
    forall|i: int| 0 <= i < ps.len() ==> (#[trigger] ps[i]).0.len() == 32 && ps[i].1 < pow256(nb)
}

/// Whether the signatures have 64 bytes and the keys 32.
pub open spec fn auths_fit(a: Seq<(Seq<u8>, Seq<u8>)>) -> bool {
    forall|i: int| 0 <= i < a.len() ==> (#[trigger] a[i]).0.len() == 64 && a[i].1.len() == 32
}

/// Whether a commit can be written with block numbers on `nb` bytes.
pub open spec fn encodable(c: CommitView, nb: nat) -> bool {
    &&& 1 <= nb <= 8
    &&& c.target_hash.len() == 32
    &&& c.target_number < pow256(nb)
    &&& c.precommits.len() <= usize::MAX
    &&& c.auth_data.len() <= usize::MAX
    &&& precommits_fit(c.precommits, nb)
    &&& auths_fit(c.auth_data)
}

proof fn lemma_window(b: Seq<u8>, pos: int, whole: Seq<u8>, off: int, part: Seq<u8>)
    requires
        0 <= pos,
        0 <= off,
        off + part.len() <= whole.len(),
        pos + whole.len() <= b.len(),
        b.subrange(pos, pos + whole.len()) == whole,
        whole.subrange(off, off + part.len()) == part,
    ensures
        b.subrange(pos + off, pos + off + part.len()) == part,
{
    assert forall|i: int| 0 <= i < part.len() implies b.subrange(pos + off, pos + off + part.len())[i] == part[i] by {
        assert(b.subrange(pos, pos + whole.len())[off + i] == whole[off + i]);
        assert(whole.subrange(off, off + part.len())[i] == whole[off + i]);
    }
    assert(b.subrange(pos + off, pos + off + part.len()) =~= part);
}

proof fn lemma_number_round_trip(b: Seq<u8>, pos: nat, v: u64, n: nat)
    requires
        v < pow256(n),
        pos + n <= b.len(),
        b.subrange(pos as int, (pos + n) as int) == le_bytes(v as nat, n),
    ensures
        spec_number(b, pos, n) == Ok::<(u64, nat), (ErrorKind, nat)>((v, pos + n)),
{
    lemma_le_round_trip(v as nat, n);
}

proof fn lemma_precommits_round_trip(b: Seq<u8>, pos: nat, nb: nat, ps: Seq<(Seq<u8>, u64)>)
    requires
        precommits_fit(ps, nb),
        pos + encode_precommits(ps, nb).len() <= b.len(),
        b.subrange(pos as int, (pos + encode_precommits(ps, nb).len()) as int) == encode_precommits(ps, nb),
    ensures
        spec_precommits(b, pos, nb, ps.len()) == Ok::<(Seq<(Seq<u8>, u64)>, nat), (ErrorKind, nat)>(
            (ps, pos + encode_precommits(ps, nb).len()),
        ),
    decreases ps.len(),
{
    if ps.len() == 0 {
        assert(ps =~= Seq::<(Seq<u8>, u64)>::empty());
    } else {
        let init = ps.drop_last();
        let last = ps.last();
        let e0 = encode_precommits(init, nb);
        let whole = encode_precommits(ps, nb);
        let num = le_bytes(last.1 as nat, nb);
        lemma_le_bytes_len(last.1 as nat, nb);
        assert(precommits_fit(init, nb)) by {
            assert forall|i: int| 0 <= i < init.len() implies (#[trigger] init[i]).0.len() == 32 && init[i].1 < pow256(nb) by {
                assert(init[i] == ps[i]);
            }
        }
        assert(last == ps[ps.len() - 1]);
        assert(whole == e0 + last.0 + num);
        assert(whole.subrange(0, e0.len() as int) =~= e0);
        lemma_window(b, pos as int, whole, 0, e0);
        lemma_precommits_round_trip(b, pos, nb, init);
        let p = pos + e0.len();
        let k = e0.len() as int;
        assert(whole.subrange(k, k + 32) =~= last.0);
        lemma_window(b, pos as int, whole, k, last.0);
        assert(whole.subrange(k + 32, k + 32 + nb) =~= num);
        lemma_window(b, pos as int, whole, k + 32, num);
        lemma_number_round_trip(b, (p + 32) as nat, last.1, nb);
        assert(init.push(last) =~= ps);
    }
}

proof fn lemma_auths_round_trip(b: Seq<u8>, pos: nat, a: Seq<(Seq<u8>, Seq<u8>)>)
    requires
        auths_fit(a),
        pos + encode_auths(a).len() <= b.len(),
        b.subrange(pos as int, (pos + encode_auths(a).len()) as int) == encode_auths(a),
    ensures
        spec_auths(b, pos, a.len()) == Ok::<(Seq<(Seq<u8>, Seq<u8>)>, nat), (ErrorKind, nat)>(
            (a, pos + encode_auths(a).len()),
        ),
    decreases a.len(),
{
    if a.len() == 0 {
        assert(a =~= Seq::<(Seq<u8>, Seq<u8>)>::empty());
    } else {
        let init = a.drop_last();
        let last = a.last();
        let e0 = encode_auths(init);
        let whole = encode_auths(a);
        assert(auths_fit(init)) by {
            assert forall|i: int| 0 <= i < init.len() implies (#[trigger] init[i]).0.len() == 64 && init[i].1.len() == 32 by {
                assert(init[i] == a[i]);
            }
        }
        assert(last == a[a.len() - 1]);
        assert(whole == e0 + last.0 + last.1);
        assert(whole.subrange(0, e0.len() as int) =~= e0);
        lemma_window(b, pos as int, whole, 0, e0);
        lemma_auths_round_trip(b, pos, init);
        let k = e0.len() as int;
        assert(whole.subrange(k, k + 64) =~= last.0);
        lemma_window(b, pos as int, whole, k, last.0);
        assert(whole.subrange(k + 64, k + 96) =~= last.1);
        lemma_window(b, pos as int, whole, k + 64, last.1);
        assert(init.push(last) =~= a);
    }
}

/// A commit written with any number `N` of precommits and any number `M` of signatures, equal
/// or not, is read back whole from the start of any input; the decoder that must consume all
/// of its input accepts it exactly when the input is the encoding, neither longer nor cut short.
#[verifier::rlimit(40)]
pub proof fn lemma_commit_round_trip(c: CommitView, nb: nat, rest: Seq<u8>, cut: nat)
    requires
        encodable(c, nb),
    ensures
        cut < encode_commit(c, nb).len() ==> spec_commit_exact(encode_commit(c, nb).subrange(0, cut as int), nb) is Err,
        spec_commit(encode_commit(c, nb) + rest, nb) == Ok::<(CommitView, nat), (ErrorKind, nat)>(
            (c, encode_commit(c, nb).len()),
        ),
        spec_commit_exact(encode_commit(c, nb), nb) == Ok::<CommitView, (ErrorKind, nat)>(c),
        rest.len() > 0 ==> spec_commit_exact(encode_commit(c, nb) + rest, nb) == Err::<
            CommitView,
            (ErrorKind, nat),
        >((ErrorKind::TrailingData, encode_commit(c, nb).len())),
{
    let whole = encode_commit(c, nb);
    lemma_commit_round_trip_at(c, nb, rest);
    lemma_commit_round_trip_at(c, nb, Seq::empty());
    assert(whole + Seq::<u8>::empty() =~= whole);
    if cut < whole.len() {
        lemma_commit_cut_refused(c, nb, cut);
    }
}

#[verifier::rlimit(40)]
proof fn lemma_commit_cut_refused(c: CommitView, nb: nat, cut: nat)
    requires
        encodable(c, nb),
        cut < encode_commit(c, nb).len(),
    ensures
        spec_commit_exact(encode_commit(c, nb).subrange(0, cut as int), nb) is Err,
{
    let whole = encode_commit(c, nb);
    let head = whole.subrange(0, cut as int);
    let tail = whole.subrange(cut as int, whole.len() as int);
    assert(head + tail =~= whole);
    lemma_commit_round_trip_at(c, nb, Seq::empty());
    assert(whole + Seq::<u8>::empty() =~= whole);
    if spec_commit_exact(head, nb) is Ok {
        lemma_commit_extends(head, tail, nb);
    }
}

proof fn lemma_split_tail(x: Seq<u8>, y: Seq<u8>, rest: Seq<u8>)
    ensures
        (x + y + rest).subrange(x.len() as int, (x.len() + y.len()) as int) == y,
        (x + y + rest) == x + (y + rest),
{
    assert((x + y + rest).subrange(x.len() as int, (x.len() + y.len()) as int) =~= y);
    assert((x + y + rest) =~= x + (y + rest));
}

/// Positions at which each part of an encoded commit stands in `b`.
#[verifier::rlimit(40)]
proof fn lemma_commit_parts(c: CommitView, nb: nat, rest: Seq<u8>)
    requires
        encodable(c, nb),
    ensures
        ({
            let b = encode_commit(c, nb) + rest;
            let cp = compact_encoding(c.precommits.len());
            let ep = encode_precommits(c.precommits, nb);
            let ca = compact_encoding(c.auth_data.len());
            let ea = encode_auths(c.auth_data);
            let o4: int = 48 + nb as int;
            let o5: int = o4 + cp.len();
            let o6: int = o5 + ep.len();
            let o7: int = o6 + ca.len();
            &&& b.subrange(0, 8) == le_bytes(c.round_number as nat, 8)
            &&& b.subrange(8, 16) == le_bytes(c.set_id as nat, 8)
            &&& b.subrange(16, 48) == c.target_hash
            &&& b.subrange(48, o4) == le_bytes(c.target_number as nat, nb)
            &&& b.subrange(o4, o5) == cp
            &&& b.subrange(o5, o6) == ep
            &&& b.subrange(o6, o7) == ca
            &&& b.subrange(o7, o7 + ea.len()) == ea
            &&& o7 + ea.len() == encode_commit(c, nb).len()
            &&& encode_commit(c, nb).len() <= b.len()
        }),
{
    let r = le_bytes(c.round_number as nat, 8);
    let s = le_bytes(c.set_id as nat, 8);
    let n = le_bytes(c.target_number as nat, nb);
    let cp = compact_encoding(c.precommits.len());
    let ep = encode_precommits(c.precommits, nb);
    let ca = compact_encoding(c.auth_data.len());
    let ea = encode_auths(c.auth_data);
    lemma_le_bytes_len(c.round_number as nat, 8);
    lemma_le_bytes_len(c.set_id as nat, 8);
    lemma_le_bytes_len(c.target_number as nat, nb);
    let p1 = r;
    let p2 = p1 + s;
    let p3 = p2 + c.target_hash;
    let p4 = p3 + n;
    let p5 = p4 + cp;
    let p6 = p5 + ep;
    let p7 = p6 + ca;
    assert(encode_commit(c, nb) == p7 + ea);
    let b = p7 + ea + rest;
    lemma_split_tail(p7, ea, rest);
    lemma_split_tail(p6, ca, ea + rest);
    lemma_split_tail(p5, ep, ca + (ea + rest));
    lemma_split_tail(p4, cp, ep + (ca + (ea + rest)));
    lemma_split_tail(p3, n, cp + (ep + (ca + (ea + rest))));
    lemma_split_tail(p2, c.target_hash, n + (cp + (ep + (ca + (ea + rest)))));
    lemma_split_tail(p1, s, c.target_hash + (n + (cp + (ep + (ca + (ea + rest))))));
    assert(b.subrange(0, 8) =~= r);
}

#[verifier::rlimit(40)]
proof fn lemma_commit_round_trip_at(c: CommitView, nb: nat, rest: Seq<u8>)
    requires
        encodable(c, nb),
    ensures
        spec_commit(encode_commit(c, nb) + rest, nb) == Ok::<(CommitView, nat), (ErrorKind, nat)>(
            (c, encode_commit(c, nb).len()),
        ),
{
    let b = encode_commit(c, nb) + rest;
    let cp = compact_encoding(c.precommits.len());
    let ep = encode_precommits(c.precommits, nb);
    let ca = compact_encoding(c.auth_data.len());
    let o4: int = 48 + nb as int;
    let o5: int = o4 + cp.len();
    let o6: int = o5 + ep.len();
    let o7: int = o6 + ca.len();
    lemma_commit_parts(c, nb, rest);
    crate::scale::lemma_pow256_values();
    lemma_number_round_trip(b, 0, c.round_number, 8);
    lemma_number_round_trip(b, 8, c.set_id, 8);
    lemma_number_round_trip(b, 48, c.target_number, nb);
    lemma_compact_round_trip(b, o4 as nat, c.precommits.len());
    lemma_precommits_round_trip(b, o5 as nat, nb, c.precommits);
    lemma_compact_round_trip(b, o6 as nat, c.auth_data.len());
    lemma_auths_round_trip(b, o7 as nat, c.auth_data);
}

proof fn lemma_compact_extends(b: Seq<u8>, ext: Seq<u8>, pos: nat)
    requires
        spec_compact(b, pos) is Ok,
    ensures
        spec_compact(b + ext, pos) == spec_compact(b, pos),
{
    let b2 = b + ext;
    let p = pos as int;
    assert(b2[p] == b[p]);
    if p + 2 <= b.len() {
        assert(b2.subrange(p, p + 2) =~= b.subrange(p, p + 2));
    }
    if p + 4 <= b.len() {
        assert(b2.subrange(p, p + 4) =~= b.subrange(p, p + 4));
    }
    let n = (b[p] / 4) as int + 4;
    if p + 1 + n <= b.len() {
        assert(b2.subrange(p + 1, p + 1 + n) =~= b.subrange(p + 1, p + 1 + n));
        assert(b2[p + n] == b[p + n]);
    }
}

proof fn lemma_number_extends(b: Seq<u8>, ext: Seq<u8>, pos: nat, n: nat)
    requires
        spec_number(b, pos, n) is Ok,
    ensures
        spec_number(b + ext, pos, n) == spec_number(b, pos, n),
{
    assert((b + ext).subrange(pos as int, pos + n as int) =~= b.subrange(pos as int, pos + n as int));
}

proof fn lemma_take_extends(b: Seq<u8>, ext: Seq<u8>, pos: nat, n: nat)
    requires
        spec_take(b, pos, n) is Ok,
    ensures
        spec_take(b + ext, pos, n) == spec_take(b, pos, n),
{
    assert((b + ext).subrange(pos as int, pos + n as int) =~= b.subrange(pos as int, pos + n as int));
}

proof fn lemma_precommits_extend(b: Seq<u8>, ext: Seq<u8>, pos: nat, nb: nat, count: nat)
    requires
        spec_precommits(b, pos, nb, count) is Ok,
    ensures
        spec_precommits(b + ext, pos, nb, count) == spec_precommits(b, pos, nb, count),
    decreases count,
{
    if count > 0 {
        lemma_precommits_extend(b, ext, pos, nb, (count - 1) as nat);
        let p = spec_precommits(b, pos, nb, (count - 1) as nat)->Ok_0.1;
        lemma_take_extends(b, ext, p, 32);
        lemma_number_extends(b, ext, p + 32, nb);
    }
}

proof fn lemma_auths_extend(b: Seq<u8>, ext: Seq<u8>, pos: nat, count: nat)
    requires
        spec_auths(b, pos, count) is Ok,
    ensures
        spec_auths(b + ext, pos, count) == spec_auths(b, pos, count),
    decreases count,
{
    if count > 0 {
        lemma_auths_extend(b, ext, pos, (count - 1) as nat);
        let p = spec_auths(b, pos, (count - 1) as nat)->Ok_0.1;
        lemma_take_extends(b, ext, p, 64);
        lemma_take_extends(b, ext, p + 64, 32);
    }
}

/// What a commit decodes to does not change when bytes are appended after it.
#[verifier::rlimit(40)]
proof fn lemma_commit_extends(b: Seq<u8>, ext: Seq<u8>, nb: nat)
    requires
        spec_commit(b, nb) is Ok,
    ensures
        spec_commit(b + ext, nb) == spec_commit(b, nb),
{
    lemma_number_extends(b, ext, 0, 8);
    lemma_number_extends(b, ext, 8, 8);
    lemma_take_extends(b, ext, 16, 32);
    lemma_number_extends(b, ext, 48, nb);
    lemma_compact_extends(b, ext, 48 + nb);
    let (n, p4) = spec_compact(b, 48 + nb)->Ok_0;
    lemma_precommits_extend(b, ext, p4, nb, n);
    let p5 = spec_precommits(b, p4, nb, n)->Ok_0.1;
    lemma_compact_extends(b, ext, p5);
    let (m, p6) = spec_compact(b, p5)->Ok_0;
    lemma_auths_extend(b, ext, p6, m);
}

proof fn lemma_auths_positions(b: Seq<u8>, pos: nat, m: nat)
    requires
        spec_auths(b, pos, m) is Ok,
    ensures
        ({
            let (a, q) = spec_auths(b, pos, m)->Ok_0;
            &&& q == pos + 96 * m
            &&& a.len() == m
            &&& forall|i: int|
                0 <= i < m ==> (#[trigger] a[i]).0 == b.subrange(pos + 96 * i, pos + 96 * i + 64)
                    && a[i].1 == b.subrange(pos + 96 * i + 64, pos + 96 * i + 96)
        }),
    decreases m,
{
    if m > 0 {
        lemma_auths_positions(b, pos, (m - 1) as nat);
        let (prev, q) = spec_auths(b, pos, (m - 1) as nat)->Ok_0;
        let (a, _) = spec_auths(b, pos, m)->Ok_0;
        assert forall|i: int| 0 <= i < m implies (#[trigger] a[i]).0 == b.subrange(pos + 96 * i, pos + 96 * i + 64)
            && a[i].1 == b.subrange(pos + 96 * i + 64, pos + 96 * i + 96) by {
            if i < m - 1 {
                assert(a[i] == prev[i]);
            }
        }
    }
}

/// The target hash of a decoded commit is the input's bytes 16 to 48, and the signature and
/// public key of entry `i` of its authentication data are the input's bytes where that entry
/// was read: the entries fill, in order, the last `96 * M` bytes of the commit.
pub proof fn lemma_commit_slices_are_input_bytes(b: Seq<u8>, nb: nat)
    requires
        spec_commit(b, nb) is Ok,
    ensures
        ({
            let (c, end) = spec_commit(b, nb)->Ok_0;
            let m = c.auth_data.len() as int;
            &&& c.target_hash == b.subrange(16, 48)
            &&& 96 * m <= end
            &&& forall|i: int|
                0 <= i < m ==> (#[trigger] c.auth_data[i]).0 == b.subrange(
                    end - 96 * (m - i),
                    end - 96 * (m - i) + 64,
                ) && c.auth_data[i].1 == b.subrange(end - 96 * (m - i) + 64, end - 96 * (m - i) + 96)
        }),
{
    let (n, p4) = spec_compact(b, 48 + nb)->Ok_0;
    let p5 = spec_precommits(b, p4, nb, n)->Ok_0.1;
    let (m, p6) = spec_compact(b, p5)->Ok_0;
    lemma_auths_positions(b, p6, m);
    let (c, end) = spec_commit(b, nb)->Ok_0;
    assert(c.auth_data == spec_auths(b, p6, m)->Ok_0.0);
    assert(end == p6 + 96 * m);
}

} // verus!
