use light_client_core::justification::{
    precommit_signing_message, verify, Config, Error, GrandpaJustificationRef, PrecommitRef,
};

const ROUND: u64 = 3669;
const SET_ID: u64 = 3490;
const NUMBER: u64 = 5_105_457;
const HASH: [u8; 32] = [7u8; 32];

fn signing_key(i: u8) -> ed25519_zebra::SigningKey {
    ed25519_zebra::SigningKey::from([i.wrapping_add(1); 32])
}

fn public_key(i: u8) -> [u8; 32] {
    <[u8; 32]>::from(ed25519_zebra::VerificationKeyBytes::from(&signing_key(i)))
}

/// Keys and signatures of the precommits signed by the given authorities.
fn signed(signers: &[u8], block_number_bytes: usize) -> Vec<([u8; 32], [u8; 64])> {
    signers
        .iter()
        .map(|&i| {
            let msg = precommit_signing_message(&HASH, NUMBER, block_number_bytes, ROUND, SET_ID);
            (public_key(i), signing_key(i).sign(&msg).to_bytes())
        })
        .collect()
}

fn run(authorities: &[u8], votes: &[([u8; 32], [u8; 64])], block_number_bytes: usize, seed: u8) -> Result<(), Error> {
    let precommits = votes
        .iter()
        .map(|(key, sig)| PrecommitRef {
            target_hash: &HASH,
            target_number: NUMBER,
            signature: sig,
            authority_public_key: key,
        })
        .collect();
    verify(Config {
        justification: GrandpaJustificationRef {
            round: ROUND,
            target_hash: &HASH,
            target_number: NUMBER,
            precommits,
            votes_ancestries: vec![],
        },
        block_number_bytes,
        authorities_set_id: SET_ID,
        authorities_list: authorities.iter().map(|&i| public_key(i)).collect(),
        randomness_seed: [seed; 32],
    })
}

#[test]
fn valid_justification_is_accepted() {
    let votes = signed(&[0, 1, 2], 4);
    assert_eq!(run(&[0, 1, 2, 3], &votes, 4, 9), Ok(()));
}

#[test]
fn wide_block_numbers_are_padded_in_the_signed_message() {
    let votes = signed(&[0, 1, 2], 12);
    assert_eq!(run(&[0, 1, 2], &votes, 12, 1), Ok(()));
    assert_eq!(run(&[0, 1, 2], &votes, 4, 1), Err(Error::BadSignature));
}

#[test]
fn quorum_failure() {
    let authorities: Vec<u8> = (0..10).collect();
    let votes = signed(&[0, 1, 2, 3, 4, 5], 4);
    assert_eq!(run(&authorities, &votes, 4, 0), Err(Error::NotEnoughSignatures));
    let votes = signed(&[0, 1, 2, 3, 4, 5, 6], 4);
    assert_eq!(run(&authorities, &votes, 4, 0), Ok(()));
}

#[test]
fn quorum_threshold_over_small_sets() {
    for a in 1u8..=12 {
        let authorities: Vec<u8> = (0..a).collect();
        for p in 0..=a {
            let votes = signed(&authorities[..p as usize], 4);
            let r = run(&authorities, &votes, 4, 3);
            let needed = 2 * (a as usize) / 3 + 1;
            assert_eq!(r == Err(Error::NotEnoughSignatures), (p as usize) < needed, "a={a} p={p}");
            if (p as usize) >= needed {
                assert_eq!(r, Ok(()));
            }
        }
    }
}

#[test]
fn repeated_authorities_count_once() {
    let votes = signed(&[0, 1], 4);
    assert_eq!(run(&[0, 1, 0, 1, 1], &votes, 4, 0), Ok(()));
}

#[test]
fn duplicate_signer() {
    let votes = signed(&[0, 0, 1], 4);
    assert_eq!(run(&[0, 1, 2], &votes, 4, 0), Err(Error::DuplicateSignature(public_key(0))));
}

#[test]
fn duplicate_is_reported_even_with_bad_signatures() {
    let mut votes = signed(&[2, 1, 2], 4);
    votes[0].1 = [0u8; 64];
    assert_eq!(run(&[0, 1, 2], &votes, 4, 0), Err(Error::DuplicateSignature(public_key(2))));
}

#[test]
fn unknown_signer() {
    let votes = signed(&[0, 1, 3], 4);
    assert_eq!(run(&[0, 1, 2], &votes, 4, 0), Err(Error::NotAuthority(public_key(3))));
}

#[test]
fn bad_signature() {
    let mut votes = signed(&[0, 1, 2], 4);
    votes[1].1[5] ^= 1;
    assert_eq!(run(&[0, 1, 2], &votes, 4, 0), Err(Error::BadSignature));
}

#[test]
fn signature_over_another_round_is_rejected() {
    let votes: Vec<([u8; 32], [u8; 64])> = [0u8, 1, 2]
        .iter()
        .map(|&i| {
            let msg = precommit_signing_message(&HASH, NUMBER, 4, ROUND + 1, SET_ID);
            (public_key(i), signing_key(i).sign(&msg).to_bytes())
        })
        .collect();
    assert_eq!(run(&[0, 1, 2], &votes, 4, 0), Err(Error::BadSignature));
}

#[test]
fn same_inputs_give_same_outcome() {
    let good = signed(&[0, 1, 2], 4);
    let mut bad = good.clone();
    bad[2].1[40] ^= 0x10;
    for seed in [0u8, 1, 200] {
        assert_eq!(run(&[0, 1, 2], &good, 4, seed), run(&[0, 1, 2], &good, 4, seed));
        assert_eq!(run(&[0, 1, 2], &bad, 4, seed), run(&[0, 1, 2], &bad, 4, seed));
        assert_eq!(run(&[0, 1, 2], &bad, 4, seed), Err(Error::BadSignature));
    }
}

#[test]
fn signing_message_layout() {
    let msg = precommit_signing_message(&HASH, 5_105_457, 4, 3669, 3490);
    assert_eq!(msg.len(), 1 + 32 + 4 + 8 + 8);
    assert_eq!(msg[0], 1);
    assert_eq!(&msg[1..33], &HASH[..]);
    assert_eq!(&msg[33..37], &[0x31, 0xE7, 0x4D, 0x00]);
    assert_eq!(&msg[37..45], &3669u64.to_le_bytes());
    assert_eq!(&msg[45..53], &3490u64.to_le_bytes());
}

#[test]
fn signing_message_with_wide_and_narrow_numbers() {
    let wide = precommit_signing_message(&HASH, 0x0102_0304_0506_0708, 10, 1, 2);
    assert_eq!(wide.len(), 1 + 32 + 10 + 16);
    assert_eq!(&wide[33..43], &[8, 7, 6, 5, 4, 3, 2, 1, 0, 0]);
    let narrow = precommit_signing_message(&HASH, 0x0102_0304_0506_0708, 2, 1, 2);
    assert_eq!(narrow.len(), 1 + 32 + 2 + 16);
    assert_eq!(&narrow[33..35], &[8, 7]);
}
