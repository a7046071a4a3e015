//! Calls into std and outside crates that Verus cannot read, each with the contract the
//! library relies on.
use vstd::prelude::*;

verus! {

/// Relies on `<&[u8; N]>::try_from(&[u8])`: on a slice of exactly `N` bytes it succeeds and
/// borrows those same bytes as an array.
#[verifier::external_body]
pub(crate) fn array_ref<'a, const N: usize>(s: &'a [u8]) -> (r: &'a [u8; N])
    requires
        s@.len() == N,
    ensures
        r@ == s@,
{
    <&[u8; N]>::try_from(s).unwrap()
}

#[verifier::external_type_specification]
#[verifier::external_body]
pub struct ExChaCha20Rng(rand_chacha::ChaCha20Rng);

#[verifier::external_type_specification]
#[verifier::external_body]
pub struct ExBatchVerifier(ed25519_zebra::batch::Verifier);

#[verifier::external_type_specification]
#[verifier::external_body]
pub struct ExRandomState(ahash::RandomState);

/// Relies on `rand_chacha::ChaCha20Rng::from_seed` (rand_core's `SeedableRng`): a ChaCha20
/// generator whose output is fixed by `seed`.
#[verifier::external_body]
pub(crate) fn chacha_from_seed(seed: [u8; 32]) -> rand_chacha::ChaCha20Rng {
    <rand_chacha::ChaCha20Rng as rand_chacha::rand_core::SeedableRng>::from_seed(seed)
}

/// Relies on `RngCore::fill_bytes` of `rand_chacha::ChaCha20Rng`: draws the next 16 bytes of
/// the generator's output.
#[verifier::external_body]
pub(crate) fn draw_16_bytes(rng: &mut rand_chacha::ChaCha20Rng) -> [u8; 16] {
    let mut bytes = [0u8; 16];
    rand_chacha::rand_core::RngCore::fill_bytes(rng, &mut bytes);
    bytes
}

/// Relies on `ahash::RandomState::with_seeds`: a hash builder keyed by the four seeds.
#[verifier::external_body]
pub(crate) fn keyed_hasher(k0: u64, k1: u64, k2: u64, k3: u64) -> ahash::RandomState {
    ahash::RandomState::with_seeds(k0, k1, k2, k3)
}

/// Relies on `ed25519_zebra::batch::Verifier::new`: an empty batch.
#[verifier::external_body]
pub(crate) fn new_batch() -> ed25519_zebra::batch::Verifier {
    ed25519_zebra::batch::Verifier::new()
}

/// Relies on `ed25519_zebra::batch::Verifier::queue`: adds the signature of `message` by
/// `public_key` to the batch.
#[verifier::external_body]
pub(crate) fn queue_signature(
    batch: &mut ed25519_zebra::batch::Verifier,
    public_key: [u8; 32],
    signature: [u8; 64],
    message: &[u8],
) {
    batch.queue((
        ed25519_zebra::VerificationKeyBytes::from(public_key),
        ed25519_zebra::Signature::from(signature),
        message,
    ))
}

/// Relies on `ed25519_zebra::batch::Verifier::verify`, which draws its coefficients from
/// `rng`: `true` when the batch was accepted.
#[verifier::external_body]
pub(crate) fn run_batch(
    batch: ed25519_zebra::batch::Verifier,
    rng: &mut rand_chacha::ChaCha20Rng,
) -> bool {
    batch.verify(rng).is_ok()
}

/// Set of authority public keys, each with a flag telling whether it has signed already.
#[verifier::external_body]
pub struct AuthorityTable {
    map: hashbrown::HashMap<[u8; 32], bool, ahash::RandomState>,
}

/// What an authority table holds: each key with its flag.
pub uninterp spec fn authority_entries(t: AuthorityTable) -> Map<Seq<u8>, bool>;

impl AuthorityTable {
    /// Relies on `hashbrown::HashMap::with_hasher`: an empty map.
    #[verifier::external_body]
    pub(crate) fn with_hasher(hasher: ahash::RandomState) -> (r: AuthorityTable)
        ensures
            authority_entries(r) =~= Map::empty(),
    {
        AuthorityTable { map: hashbrown::HashMap::with_hasher(hasher) }
    }

    /// Relies on `hashbrown::HashMap::insert`: the key is mapped to the value, whether or not
    /// it was there before.
    #[verifier::external_body]
    pub(crate) fn insert(&mut self, key: [u8; 32], value: bool)
        ensures
            authority_entries(*final(self)) == authority_entries(*old(self)).insert(key@, value),
    {
        self.map.insert(key, value);
    }

    /// Relies on `hashbrown::HashMap::get`: the value of the key, if the key is there.
    #[verifier::external_body]
    pub(crate) fn get(&self, key: &[u8; 32]) -> (r: Option<bool>)
        ensures
            r == (if authority_entries(*self).contains_key(key@) {
                Some(authority_entries(*self)[key@])
            } else {
                None::<bool>
            }),
    {
        self.map.get(key).copied()
    }

    /// Relies on `hashbrown::HashMap::len`: the number of keys.
    #[verifier::external_body]
    pub(crate) fn len(&self) -> (r: usize)
        ensures
            r == authority_entries(*self).dom().len(),
    {
        self.map.len()
    }
}

} // verus!
