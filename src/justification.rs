//! Verification of a GRANDPA justification against a known authority set.
use vstd::prelude::*;

use crate::outside::{
    authority_entries, chacha_from_seed, draw_16_bytes, keyed_hasher, new_batch, queue_signature,
    run_batch, AuthorityTable,
};
use crate::scale::{le_bytes, lemma_le_bytes_len, push_le, read_le};

verus! {

/// A justification whose precommits carry their signatures.
#[derive(Debug, Clone, PartialEq, Eq)]
pub struct GrandpaJustificationRef<'a> {
    pub round: u64,
    pub target_hash: &'a [u8; 32],
    pub target_number: u64,
    pub precommits: Vec<PrecommitRef<'a>>,
    /// SCALE-encoded headers of the ancestors that the votes refer to; not checked.
    pub votes_ancestries: Vec<&'a [u8]>,
}

/// A signed precommit vote.
#[derive(Debug, Clone, PartialEq, Eq)]
pub struct PrecommitRef<'a> {
    pub target_hash: &'a [u8; 32],
    pub target_number: u64,
    pub signature: &'a [u8; 64],
    pub authority_public_key: &'a [u8; 32],
}

/// Configuration for a justification verification process.
#[derive(Debug)]
pub struct Config<'a> {
    /// Justification to verify.
    pub justification: GrandpaJustificationRef<'a>,
    /// Number of bytes of a block number.
    pub block_number_bytes: usize,
    /// Identifier of the authority set that signed the precommits.
    pub authorities_set_id: u64,
    /// Public keys of the authorities that may emit precommits for the block.
    pub authorities_list: Vec<[u8; 32]>,
    /// Seed of the generator that keys the authority table and drives batch verification.
    ///
    /// > **Note**: The verification is nonetheless deterministic.
    pub randomness_seed: [u8; 32],
}

/// Error that can happen while verifying a justification.
#[derive(Debug, Clone, Copy, PartialEq, Eq)]
pub enum Error {
    /// One of the public keys is invalid.
    BadPublicKey,
    /// One of the signatures can't be verified.
    BadSignature,
    /// One authority has produced two signatures.
    DuplicateSignature([u8; 32]),
    /// One of the public keys isn't in the list of authorities.
    NotAuthority([u8; 32]),
    /// Justification doesn't contain enough authorities signatures to be valid.
    NotEnoughSignatures,
}

/// The distinct authority keys of a list.
pub open spec fn authority_set(list: Seq<[u8; 32]>) -> Set<Seq<u8>> {
    list.map_values(|k: [u8; 32]| k@).to_set()
}

/// Number of precommits needed out of `a` authorities: more than two thirds.
pub open spec fn required_signatures(a: nat) -> nat {
    2 * a / 3 + 1
}

/// The signers of a list of precommits, in order.
pub open spec fn signers(precommits: Seq<PrecommitRef>) -> Seq<[u8; 32]> {
    precommits.map_values(|p: PrecommitRef| *p.authority_public_key)
}

/// The first of the `n` first signers that is not an authority or that signed before, as the
/// error it causes.
pub open spec fn first_rejected_signer(keys: Seq<[u8; 32]>, authorities: Set<Seq<u8>>, n: nat) -> Option<Error>
    decreases n,
{
    if n == 0 {
        None
    } else {
        match first_rejected_signer(keys, authorities, (n - 1) as nat) {
            Some(e) => Some(e),
            None => {
                let k = keys[n - 1];
                if !authorities.contains(k@) {
                    Some(Error::NotAuthority(k))
                } else if exists|j: int| 0 <= j < n - 1 && keys[j]@ == k@ {
                    Some(Error::DuplicateSignature(k))
                } else {
                    None
                }
            },
        }
    }
}

/// The error that the justification has whatever its signatures are worth, if any.
pub open spec fn precheck(config: Config) -> Option<Error> {
    let authorities = authority_set(config.authorities_list@);
    let precommits = config.justification.precommits@;
    if precommits.len() < required_signatures(authorities.len()) {
        Some(Error::NotEnoughSignatures)
    } else {
        first_rejected_signer(signers(precommits), authorities, precommits.len())
    }
}

/// The message an authority signs for a precommit.
pub open spec fn signing_message(
    target_hash: Seq<u8>,
    target_number: u64,
    block_number_bytes: nat,
    round: u64,
    set_id: u64,
) -> Seq<u8> {
    let shown = if block_number_bytes < 8 { block_number_bytes } else { 8 };
    seq![1u8] + target_hash + le_bytes(target_number as nat, shown) + Seq::new(
        (block_number_bytes - shown) as nat,
        |i: int| 0u8,
    ) + le_bytes(round as nat, 8) + le_bytes(set_id as nat, 8)
}

/// Number of precommits needed out of `a` authorities.
fn required_signature_count(a: usize) -> (r: usize)
    ensures
        r == required_signatures(a as nat),
{
    proof {
        assert(2 * a / 3 == 2 * (a / 3) + (2 * (a % 3)) / 3) by (nonlinear_arith);
    }
    2 * (a / 3) + (2 * (a % 3)) / 3 + 1
}

/// Builds the message an authority signs for a precommit: the byte `1`, the target hash, the
/// target number on `block_number_bytes` bytes, the round and the set id.
pub fn precommit_signing_message(
    target_hash: &[u8; 32],
    target_number: u64,
    block_number_bytes: usize,
    round: u64,
    set_id: u64,
) -> (r: Vec<u8>)
    ensures
        r@ == signing_message(target_hash@, target_number, block_number_bytes as nat, round, set_id),
        r@.len() == 1 + 32 + block_number_bytes + 8 + 8,
{
    let mut msg: Vec<u8> = Vec::new();
    msg.push(1u8);
    let mut i: usize = 0;
    while i < 32
        invariant
            i <= 32,
            msg@ == seq![1u8] + target_hash@.subrange(0, i as int),
        decreases 32 - i,
    {
        msg.push(target_hash[i]);
        proof {
            assert(target_hash@.subrange(0, i + 1) =~= target_hash@.subrange(0, i as int).push(target_hash@[i as int]));
        }
        i = i + 1;
    }
    proof {
        assert(target_hash@.subrange(0, 32) =~= target_hash@);
    }
    let shown: usize = if block_number_bytes < 8 { block_number_bytes } else { 8 };
    push_le(&mut msg, target_number, shown);
    let ghost with_number = msg@;
    let mut pad: usize = shown;
    while pad < block_number_bytes
        invariant
            shown <= pad <= block_number_bytes,
            msg@ == with_number + Seq::new((pad - shown) as nat, |i: int| 0u8),
        decreases block_number_bytes - pad,
    {
        msg.push(0u8);
        proof {
            assert(with_number + Seq::new((pad + 1 - shown) as nat, |i: int| 0u8) =~= (with_number + Seq::new((pad - shown) as nat, |i: int| 0u8)).push(0u8));
        }
        pad = pad + 1;
    }
    push_le(&mut msg, round, 8);
    push_le(&mut msg, set_id, 8);
    proof {
        lemma_le_bytes_len(target_number as nat, shown as nat);
        lemma_le_bytes_len(round as nat, 8);
        lemma_le_bytes_len(set_id as nat, 8);
        assert(msg@ =~= signing_message(target_hash@, target_number, block_number_bytes as nat, round, set_id));
    }
    msg
}

/// Whether `k` is the key of one of the `n` first entries of `list`.
pub open spec fn listed(list: Seq<[u8; 32]>, n: int, k: Seq<u8>) -> bool {
    exists|j: int| 0 <= j < n && #[trigger] list[j]@ == k
}

proof fn lemma_rejection_stays(keys: Seq<[u8; 32]>, authorities: Set<Seq<u8>>, k: nat, n: nat)
    requires
        k <= n,
        first_rejected_signer(keys, authorities, k) is Some,
    ensures
        first_rejected_signer(keys, authorities, n) == first_rejected_signer(keys, authorities, k),
    decreases n,
{
    if k < n {
        lemma_rejection_stays(keys, authorities, k, (n - 1) as nat);
    }
}

proof fn lemma_rejection_kinds(keys: Seq<[u8; 32]>, authorities: Set<Seq<u8>>, n: nat)
    ensures
        first_rejected_signer(keys, authorities, n) matches Some(e) ==> (e is NotAuthority
            || e is DuplicateSignature),
    decreases n,
{
    if n > 0 {
        lemma_rejection_kinds(keys, authorities, (n - 1) as nat);
    }
}

/// Fills a table with the authorities, none of them marked as having signed.
fn authority_table(list: &Vec<[u8; 32]>, hash_key: &[u8; 16]) -> (r: AuthorityTable)
    ensures
        authority_entries(r).dom() == authority_set(list@),
        forall|k: Seq<u8>| #[trigger] authority_entries(r).contains_key(k) ==> !authority_entries(r)[k],
{
    // The 16 bytes key the table's hasher as two 64-bit seeds; the hasher takes four and
    // accepts zeros for the ones it is not given.
    let k0 = read_le(hash_key.as_slice(), 0, 8);
    let k1 = read_le(hash_key.as_slice(), 8, 8);
    let mut table = AuthorityTable::with_hasher(keyed_hasher(k0, k1, 0, 0));
    let mut i: usize = 0;
    while i < list.len()
        invariant
            i <= list@.len(),
            forall|k: Seq<u8>| #[trigger] authority_entries(table).contains_key(k) <==> listed(list@, i as int, k),
            forall|k: Seq<u8>| #[trigger] authority_entries(table).contains_key(k) ==> !authority_entries(table)[k],
        decreases list@.len() - i,
    {
        table.insert(list[i], false);
        proof {
            assert forall|k: Seq<u8>| #[trigger] authority_entries(table).contains_key(k) <==> listed(list@, i + 1, k) by {
                if listed(list@, i + 1, k) && k != list@[i as int]@ {
                    let j = choose|j: int| 0 <= j < i + 1 && #[trigger] list@[j]@ == k;
                    assert(listed(list@, i as int, k));
                }
                if listed(list@, i as int, k) {
                    let j = choose|j: int| 0 <= j < i && #[trigger] list@[j]@ == k;
                    assert(listed(list@, i + 1, k));
                }
                if k == list@[i as int]@ {
                    assert(listed(list@, i + 1, k));
                }
            }
        }
        i = i + 1;
    }
    proof {
        let views = list@.map_values(|x: [u8; 32]| x@);
        assert forall|k: Seq<u8>| authority_entries(table).dom().contains(k) <==> #[trigger] authority_set(list@).contains(k) by {
            if listed(list@, list@.len() as int, k) {
                let j = choose|j: int| 0 <= j < list@.len() && #[trigger] list@[j]@ == k;
                assert(views[j] == k);
            }
            if authority_set(list@).contains(k) {
                let j = choose|j: int| 0 <= j < views.len() && #[trigger] views[j] == k;
                assert(list@[j]@ == k);
            }
        }
        assert(authority_entries(table).dom() =~= authority_set(list@));
    }
    table
}

/// Verifies that a justification is valid.
///
/// The justification is rejected without looking at signatures when it has fewer precommits
/// than [`required_signatures`] of the distinct authorities, or when a precommit is signed by
/// a key that is not an authority or that signed an earlier precommit; otherwise the
/// signatures are checked together, driven by a ChaCha20 generator seeded with the
/// configuration's seed.
pub fn verify(config: Config) -> (r: Result<(), Error>)
    ensures
        match precheck(config) {
            Some(e) => r == Err::<(), Error>(e),
            None => r == Ok::<(), Error>(()) || r == Err::<(), Error>(Error::BadSignature),
        },
        r == Err::<(), Error>(Error::NotEnoughSignatures) <==> config.justification.precommits@.len()
            < required_signatures(authority_set(config.authorities_list@).len()),
{
    let num_precommits = config.justification.precommits.len();
    let mut randomness = chacha_from_seed(config.randomness_seed);
    let hash_key = draw_16_bytes(&mut randomness);
    let mut table = authority_table(&config.authorities_list, &hash_key);
    let ghost authorities = authority_set(config.authorities_list@);
    let ghost keys = signers(config.justification.precommits@);
    proof {
        lemma_rejection_kinds(keys, authorities, num_precommits as nat);
    }
    if num_precommits < required_signature_count(table.len()) {
        return Err(Error::NotEnoughSignatures);
    }
    let mut batch = new_batch();
    let mut i: usize = 0;
    while i < num_precommits
        invariant
            i <= num_precommits,
            num_precommits == config.justification.precommits@.len(),
            keys == signers(config.justification.precommits@),
            authorities == authority_set(config.authorities_list@),
            authority_entries(table).dom() == authorities,
            forall|k: Seq<u8>| #[trigger] authority_entries(table).contains_key(k) ==> (authority_entries(table)[k] <==> listed(keys, i as int, k)),
            first_rejected_signer(keys, authorities, i as nat) is None,
            precheck(config) == first_rejected_signer(keys, authorities, num_precommits as nat),
        decreases num_precommits - i,
    {
        let precommit = &config.justification.precommits[i];
        let key = precommit.authority_public_key;
        proof {
            assert(keys[i as int] == *key);
        }
        match table.get(key) {
            None => {
                proof {
                    assert(first_rejected_signer(keys, authorities, (i + 1) as nat) == Some(Error::NotAuthority(*key)));
                    lemma_rejection_stays(keys, authorities, (i + 1) as nat, num_precommits as nat);
                }
                return Err(Error::NotAuthority(*key));
            },
            Some(true) => {
                proof {
                    let j = choose|j: int| 0 <= j < i && #[trigger] keys[j]@ == key@;
                    assert(exists|j: int| 0 <= j < i && keys[j]@ == keys[i as int]@);
                    assert(first_rejected_signer(keys, authorities, (i + 1) as nat) == Some(Error::DuplicateSignature(*key)));
                    lemma_rejection_stays(keys, authorities, (i + 1) as nat, num_precommits as nat);
                }
                return Err(Error::DuplicateSignature(*key));
            },
            Some(false) => {
                table.insert(*key, true);
                proof {
                    assert(!(exists|j: int| 0 <= j < i && keys[j]@ == keys[i as int]@)) by {
                        if exists|j: int| 0 <= j < i && keys[j]@ == keys[i as int]@ {
                            let j = choose|j: int| 0 <= j < i && keys[j]@ == keys[i as int]@;
                            assert(listed(keys, i as int, key@));
                        }
                    }
                    assert(first_rejected_signer(keys, authorities, (i + 1) as nat) is None);
                    assert forall|k: Seq<u8>| #[trigger] authority_entries(table).contains_key(k) implies (authority_entries(table)[k] <==> listed(keys, i + 1, k)) by {
                        if listed(keys, i + 1, k) && k != key@ {
                            let j = choose|j: int| 0 <= j < i + 1 && #[trigger] keys[j]@ == k;
                            assert(listed(keys, i as int, k));
                        }
                        if listed(keys, i as int, k) {
                            let j = choose|j: int| 0 <= j < i && #[trigger] keys[j]@ == k;
                            assert(listed(keys, i + 1, k));
                        }
                        if k == key@ {
                            assert(listed(keys, i + 1, k));
                        }
                    }
                }
            },
        }
        let msg = precommit_signing_message(
            precommit.target_hash,
            precommit.target_number,
            config.block_number_bytes,
            config.justification.round,
            config.authorities_set_id,
        );
        queue_signature(&mut batch, *key, *precommit.signature, msg.as_slice());
        i = i + 1;
    }
    if run_batch(batch, &mut randomness) {
        Ok(())
    } else {
        Err(Error::BadSignature)
    }
}

/// Two verifications with the same signers in the same order and the same authority list
/// reach the same verdict before any signature is checked: the same error, or both go on to
/// the batch check. What the batch check decides depends on the signatures and on the
/// generator seeded with the configuration's seed.
pub proof fn lemma_precheck_deterministic(first: Config, second: Config)
    requires
        signers(first.justification.precommits@) == signers(second.justification.precommits@),
        first.authorities_list@ == second.authorities_list@,
    ensures
        precheck(first) == precheck(second),
{
    assert(first.justification.precommits@.len() == signers(first.justification.precommits@).len());
    assert(second.justification.precommits@.len() == signers(second.justification.precommits@).len());
}

} // verus!
