//! Transaction validation through the runtime's `TaggedTransactionQueue_validate_transaction`
//! entry point: the encoding of its parameters, the decoding of its return value, and the
//! decisions taken at each point where the runtime host yields.
use vstd::prelude::*;
use vstd::slice::{slice_subrange, slice_to_vec};

use crate::scale::{
    compact_encoding, decode_compact, encode_compact_u64, le_value, read_le, spec_compact,
};

verus! {

/// Source of the transaction.
#[derive(Debug, Copy, Clone, PartialEq, Eq)]
pub enum TransactionSource {
    /// Transaction is already included in a block.
    InBlock,
    /// Transaction is coming from a local source.
    Local,
    /// Transaction has been received externally.
    External,
}

/// Information concerning a valid transaction.
#[derive(Debug, Clone, PartialEq, Eq)]
pub struct ValidTransaction {
    /// Priority of the transaction.
    pub priority: u64,
    /// Tags that must be provided by other transactions before this one can be included.
    pub requires: Vec<Vec<u8>>,
    /// Tags provided by the transaction. Never empty in a validation result.
    pub provides: Vec<Vec<u8>>,
    /// Number of blocks during which the transaction can be assumed valid. Never zero.
    pub longevity: u64,
    /// Whether the transaction should be propagated to other peers.
    pub propagate: bool,
}

/// An invalid transaction validity.
#[derive(Debug, Clone, Copy, PartialEq, Eq)]
pub enum InvalidTransaction {
    /// The call of the transaction is not expected.
    Call,
    /// General error to do with the inability to pay some fees.
    Payment,
    /// General error to do with the transaction not yet being valid.
    Future,
    /// General error to do with the transaction being outdated.
    Stale,
    /// General error to do with the transaction's proofs (e.g. signature).
    BadProof,
    /// The transaction birth block is ancient.
    AncientBirthBlock,
    /// The transaction would exhaust the resources of current block.
    ExhaustsResources,
    /// Any other custom invalid validity that is not covered by this enum.
    Custom(u8),
    /// An extrinsic with a Mandatory dispatch resulted in Error.
    BadMandatory,
    /// A transaction with a mandatory dispatch.
    MandatoryDispatch,
}

/// An unknown transaction validity.
#[derive(Debug, Clone, Copy, PartialEq, Eq)]
pub enum UnknownTransaction {
    /// Could not lookup some information that is required to validate the transaction.
    CannotLookup,
    /// No validator found for the given unsigned transaction.
    NoUnsignedValidator,
    /// Any other custom unknown validity that is not covered by this enum.
    Custom(u8),
}

/// Errors that can occur while checking the validity of a transaction.
#[derive(Debug, Clone, Copy, PartialEq, Eq)]
pub enum TransactionValidityError {
    /// The transaction is invalid.
    Invalid(InvalidTransaction),
    /// Transaction validity can't be determined.
    Unknown(UnknownTransaction),
}

/// Error that can happen during the decoding.
#[derive(Debug, Clone, Copy, PartialEq, Eq)]
pub struct DecodeError();

/// A valid transaction, as plain values.
pub struct ValidTransactionView {
    pub priority: u64,
    pub requires: Seq<Seq<u8>>,
    pub provides: Seq<Seq<u8>>,
    pub longevity: u64,
    pub propagate: bool,
}

pub open spec fn bytes_views(v: Seq<Vec<u8>>) -> Seq<Seq<u8>> {
    v.map_values(|t: Vec<u8>| t@)
}

impl View for ValidTransaction {
    type V = ValidTransactionView;

    open spec fn view(&self) -> ValidTransactionView {
        ValidTransactionView {
            priority: self.priority,
            requires: bytes_views(self.requires@),
            provides: bytes_views(self.provides@),
            longevity: self.longevity,
            propagate: self.propagate,
        }
    }
}

pub open spec fn validity_view(r: Result<ValidTransaction, TransactionValidityError>) -> Result<ValidTransactionView, TransactionValidityError> {
    match r {
        Ok(v) => Ok(v@),
        Err(e) => Err(e),
    }
}

/// Reading an 8-byte little-endian number at `pos`.
pub open spec fn spec_u64_at(b: Seq<u8>, pos: nat) -> Option<(u64, nat)> {
    if pos + 8 > b.len() {
        None
    } else {
        Some((le_value(b.subrange(pos as int, pos + 8 as int)) as u64, pos + 8))
    }
}

/// Reading a compact integer at `pos`.
pub open spec fn spec_compact_at(b: Seq<u8>, pos: nat) -> Option<(nat, nat)> {
    match spec_compact(b, pos) {
        Ok(r) => Some(r),
        Err(_) => None,
    }
}

/// Reading one tag (a length-prefixed byte string) at `pos`.
pub open spec fn spec_tag(b: Seq<u8>, pos: nat) -> Option<(Seq<u8>, nat)> {
    match spec_compact_at(b, pos) {
        None => None,
        Some((len, p)) => if p + len > b.len() {
            None
        } else {
            Some((b.subrange(p as int, p + len as int), p + len))
        },
    }
}

/// Reading `count` tags in a row at `pos`.
pub open spec fn spec_tag_list(b: Seq<u8>, pos: nat, count: nat) -> Option<(Seq<Seq<u8>>, nat)>
    decreases count,
{
    if count == 0 {
        Some((Seq::empty(), pos))
    } else {
        match spec_tag_list(b, pos, (count - 1) as nat) {
            None => None,
            Some((s, p)) => match spec_tag(b, p) {
                None => None,
                Some((t, q)) => Some((s.push(t), q)),
            },
        }
    }
}

/// Reading a list of tags (a compact count, then the tags) at `pos`.
pub open spec fn spec_tags(b: Seq<u8>, pos: nat) -> Option<(Seq<Seq<u8>>, nat)> {
    match spec_compact_at(b, pos) {
        None => None,
        Some((n, p)) => spec_tag_list(b, p, n),
    }
}

/// Reading a valid transaction at `pos`.
pub open spec fn spec_valid_transaction(b: Seq<u8>, pos: nat) -> Option<(ValidTransactionView, nat)> {
    match spec_u64_at(b, pos) {
        None => None,
        Some((priority, p0)) => match spec_tags(b, p0) {
            None => None,
            Some((required_tags, p1)) => match spec_tags(b, p1) {
                None => None,
                Some((provides, p2)) => match spec_u64_at(b, p2) {
                    None => None,
                    Some((longevity, p3)) => if longevity == 0 || p3 >= b.len() || b[p3 as int] > 1 {
                        None
                    } else {
                        Some(
                            (
                                ValidTransactionView {
                                    priority,
                                    requires: required_tags,
                                    provides,
                                    longevity,
                                    propagate: b[p3 as int] == 1,
                                },
                                p3 + 1,
                            ),
                        )
                    },
                },
            },
        },
    }
}

/// Reading an invalid-transaction reason at `pos`.
pub open spec fn spec_invalid_transaction(b: Seq<u8>, pos: nat) -> Option<(InvalidTransaction, nat)> {
    if pos >= b.len() {
        None
    } else {
        let t = b[pos as int];
        if t == 0 {
            Some((InvalidTransaction::Call, pos + 1))
        } else if t == 1 {
            Some((InvalidTransaction::Payment, pos + 1))
        } else if t == 2 {
            Some((InvalidTransaction::Future, pos + 1))
        } else if t == 3 {
            Some((InvalidTransaction::Stale, pos + 1))
        } else if t == 4 {
            Some((InvalidTransaction::BadProof, pos + 1))
        } else if t == 5 {
            Some((InvalidTransaction::AncientBirthBlock, pos + 1))
        } else if t == 6 {
            Some((InvalidTransaction::ExhaustsResources, pos + 1))
        } else if t == 7 {
            if pos + 1 >= b.len() {
                None
            } else {
                Some((InvalidTransaction::Custom(b[pos + 1 as int]), pos + 2))
            }
        } else if t == 8 {
            Some((InvalidTransaction::BadMandatory, pos + 1))
        } else if t == 9 {
            Some((InvalidTransaction::MandatoryDispatch, pos + 1))
        } else {
            None
        }
    }
}

/// Reading an unknown-validity reason at `pos`.
pub open spec fn spec_unknown_transaction(b: Seq<u8>, pos: nat) -> Option<(UnknownTransaction, nat)> {
    if pos >= b.len() {
        None
    } else {
        let t = b[pos as int];
        if t == 0 {
            Some((UnknownTransaction::CannotLookup, pos + 1))
        } else if t == 1 {
            Some((UnknownTransaction::NoUnsignedValidator, pos + 1))
        } else if t == 2 {
            if pos + 1 >= b.len() {
                None
            } else {
                Some((UnknownTransaction::Custom(b[pos + 1 as int]), pos + 2))
            }
        } else {
            None
        }
    }
}

/// Reading a validity error at `pos`.
pub open spec fn spec_validity_error(b: Seq<u8>, pos: nat) -> Option<(TransactionValidityError, nat)> {
    if pos >= b.len() {
        None
    } else if b[pos as int] == 0 {
        match spec_invalid_transaction(b, pos + 1) {
            None => None,
            Some((e, p)) => Some((TransactionValidityError::Invalid(e), p)),
        }
    } else if b[pos as int] == 1 {
        match spec_unknown_transaction(b, pos + 1) {
            None => None,
            Some((e, p)) => Some((TransactionValidityError::Unknown(e), p)),
        }
    } else {
        None
    }
}

/// Reading a transaction validity at `pos`.
pub open spec fn spec_transaction_validity(b: Seq<u8>, pos: nat) -> Option<(Result<ValidTransactionView, TransactionValidityError>, nat)> {
    if pos >= b.len() {
        None
    } else if b[pos as int] == 0 {
        match spec_valid_transaction(b, pos + 1) {
            None => None,
            Some((v, p)) => Some((Ok(v), p)),
        }
    } else if b[pos as int] == 1 {
        match spec_validity_error(b, pos + 1) {
            None => None,
            Some((e, p)) => Some((Err(e), p)),
        }
    } else {
        None
    }
}

/// The transaction validity that spans all of `b`, if `b` holds one.
pub open spec fn spec_validate_return_value(b: Seq<u8>) -> Option<Result<ValidTransactionView, TransactionValidityError>> {
    match spec_transaction_validity(b, 0) {
        Some((v, p)) => if p == b.len() {
            Some(v)
        } else {
            None
        },
        None => None,
    }
}

proof fn lemma_tag_list_none_stays(b: Seq<u8>, pos: nat, k: nat, n: nat)
    requires
        k <= n,
        spec_tag_list(b, pos, k) is None,
    ensures
        spec_tag_list(b, pos, n) is None,
    decreases n,
{
    if k < n {
        lemma_tag_list_none_stays(b, pos, k, (n - 1) as nat);
    }
}

fn compact_at(b: &[u8], pos: usize) -> (r: Option<(usize, usize)>)
    ensures
        match spec_compact_at(b@, pos as nat) {
            Some((v, p)) => r == Some((v as usize, p as usize)) && p <= b@.len() && v <= usize::MAX,
            None => r is None,
        },
{
    match decode_compact(b, pos) {
        Ok(vp) => Some(vp),
        Err(_) => None,
    }
}

fn u64_at(b: &[u8], pos: usize) -> (r: Option<u64>)
    ensures
        match spec_u64_at(b@, pos as nat) {
            Some((v, _)) => r == Some(v) && pos + 8 <= b@.len() <= usize::MAX,
            None => r is None,
        },
{
    if b.len() < 8 || b.len() - 8 < pos {
        return None;
    }
    Some(read_le(b, pos, 8))
}

fn tags(b: &[u8], pos: usize) -> (r: Option<(Vec<Vec<u8>>, usize)>)
    ensures
        match spec_tags(b@, pos as nat) {
            Some((s, p)) => r matches Some((v, q)) && bytes_views(v@) == s && q == p && p <= b@.len(),
            None => r is None,
        },
{
    let (count, start) = match compact_at(b, pos) {
        Some(x) => x,
        None => return None,
    };
    let len = b.len();
    let mut list: Vec<Vec<u8>> = Vec::new();
    let mut p = start;
    let mut i: usize = 0;
    while i < count
        invariant
            len == b@.len(),
            i <= count,
            list@.len() == i,
            spec_compact_at(b@, pos as nat) == Some((count as nat, start as nat)),
            spec_tag_list(b@, start as nat, i as nat) == Some((bytes_views(list@), p as nat)),
            p <= len,
        decreases count - i,
    {
        let ghost prev = list@;
        proof {
            reveal_with_fuel(spec_tag_list, 1);
        }
        let (tag_len, data) = match compact_at(b, p) {
            Some(x) => x,
            None => {
                proof {
                    lemma_tag_list_none_stays(b@, start as nat, (i + 1) as nat, count as nat);
                }
                return None;
            },
        };
        if len - data < tag_len {
            proof {
                lemma_tag_list_none_stays(b@, start as nat, (i + 1) as nat, count as nat);
            }
            return None;
        }
        let tag = slice_to_vec(slice_subrange(b, data, data + tag_len));
        list.push(tag);
        proof {
            assert(bytes_views(list@) =~= bytes_views(prev).push(list@[i as int]@));
        }
        p = data + tag_len;
        i = i + 1;
    }
    Some((list, p))
}

fn valid_transaction(b: &[u8], pos: usize) -> (r: Option<(ValidTransaction, usize)>)
    ensures
        match spec_valid_transaction(b@, pos as nat) {
            Some((v, p)) => r matches Some((t, q)) && t@ == v && q == p,
            None => r is None,
        },
{
    let priority = match u64_at(b, pos) {
        Some(v) => v,
        None => return None,
    };
    let (required_tags, p1) = match tags(b, pos + 8) {
        Some(x) => x,
        None => return None,
    };
    let (provides, p2) = match tags(b, p1) {
        Some(x) => x,
        None => return None,
    };
    let longevity = match u64_at(b, p2) {
        Some(v) => v,
        None => return None,
    };
    let p3 = p2 + 8;
    if longevity == 0 || p3 >= b.len() || b[p3] > 1 {
        return None;
    }
    let propagate = b[p3] == 1;
    Some((ValidTransaction { priority, requires: required_tags, provides, longevity, propagate }, p3 + 1))
}

fn invalid_transaction(b: &[u8], pos: usize) -> (r: Option<(InvalidTransaction, usize)>)
    ensures
        match spec_invalid_transaction(b@, pos as nat) {
            Some((v, p)) => r == Some((v, p as usize)),
            None => r is None,
        },
{
    if pos >= b.len() {
        return None;
    }
    let t = b[pos];
    if t == 0 {
        Some((InvalidTransaction::Call, pos + 1))
    } else if t == 1 {
        Some((InvalidTransaction::Payment, pos + 1))
    } else if t == 2 {
        Some((InvalidTransaction::Future, pos + 1))
    } else if t == 3 {
        Some((InvalidTransaction::Stale, pos + 1))
    } else if t == 4 {
        Some((InvalidTransaction::BadProof, pos + 1))
    } else if t == 5 {
        Some((InvalidTransaction::AncientBirthBlock, pos + 1))
    } else if t == 6 {
        Some((InvalidTransaction::ExhaustsResources, pos + 1))
    } else if t == 7 {
        if pos + 1 >= b.len() {
            None
        } else {
            Some((InvalidTransaction::Custom(b[pos + 1]), pos + 2))
        }
    } else if t == 8 {
        Some((InvalidTransaction::BadMandatory, pos + 1))
    } else if t == 9 {
        Some((InvalidTransaction::MandatoryDispatch, pos + 1))
    } else {
        None
    }
}

fn unknown_transaction(b: &[u8], pos: usize) -> (r: Option<(UnknownTransaction, usize)>)
    ensures
        match spec_unknown_transaction(b@, pos as nat) {
            Some((v, p)) => r == Some((v, p as usize)),
            None => r is None,
        },
{
    if pos >= b.len() {
        return None;
    }
    let t = b[pos];
    if t == 0 {
        Some((UnknownTransaction::CannotLookup, pos + 1))
    } else if t == 1 {
        Some((UnknownTransaction::NoUnsignedValidator, pos + 1))
    } else if t == 2 {
        if pos + 1 >= b.len() {
            None
        } else {
            Some((UnknownTransaction::Custom(b[pos + 1]), pos + 2))
        }
    } else {
        None
    }
}

fn transaction_validity_error(b: &[u8], pos: usize) -> (r: Option<(TransactionValidityError, usize)>)
    ensures
        match spec_validity_error(b@, pos as nat) {
            Some((v, p)) => r == Some((v, p as usize)),
            None => r is None,
        },
{
    if pos >= b.len() {
        return None;
    }
    if b[pos] == 0 {
        match invalid_transaction(b, pos + 1) {
            Some((e, p)) => Some((TransactionValidityError::Invalid(e), p)),
            None => None,
        }
    } else if b[pos] == 1 {
        match unknown_transaction(b, pos + 1) {
            Some((e, p)) => Some((TransactionValidityError::Unknown(e), p)),
            None => None,
        }
    } else {
        None
    }
}

fn transaction_validity(b: &[u8]) -> (r: Option<(Result<ValidTransaction, TransactionValidityError>, usize)>)
    ensures
        match spec_transaction_validity(b@, 0) {
            Some((v, p)) => r matches Some((t, q)) && validity_view(t) == v && q == p,
            None => r is None,
        },
{
    if b.len() == 0 {
        return None;
    }
    if b[0] == 0 {
        match valid_transaction(b, 1) {
            Some((v, p)) => Some((Ok(v), p)),
            None => None,
        }
    } else if b[0] == 1 {
        match transaction_validity_error(b, 1) {
            Some((e, p)) => Some((Err(e), p)),
            None => None,
        }
    } else {
        None
    }
}

/// Attempt to decode the return value of the `TaggedTransactionQueue_validate_transaction`
/// runtime call, which must span the whole input.
pub fn decode_validate_transaction_return_value(scale_encoded: &[u8]) -> (r: Result<Result<ValidTransaction, TransactionValidityError>, DecodeError>)
    ensures
        match spec_validate_return_value(scale_encoded@) {
            Some(v) => r matches Ok(t) && validity_view(t) == v,
            None => r == Err::<Result<ValidTransaction, TransactionValidityError>, DecodeError>(DecodeError()),
        },
{
    match transaction_validity(scale_encoded) {
        Some((v, p)) => if p == scale_encoded.len() {
            Ok(v)
        } else {
            Err(DecodeError())
        },
        None => Err(DecodeError()),
    }
}

/// The byte that encodes a transaction source.
pub open spec fn source_tag(source: TransactionSource) -> u8 {
    match source {
        TransactionSource::InBlock => 0,
        TransactionSource::Local => 1,
        TransactionSource::External => 2,
    }
}

/// The segments of the validation call's parameter: the source, the transaction's segments,
/// then the block hash (empty for version 2).
pub open spec fn validation_parameter(
    transaction: Seq<Seq<u8>>,
    source: TransactionSource,
    block_hash: Seq<u8>,
) -> Seq<Seq<u8>> {
    seq![seq![source_tag(source)]] + transaction + seq![block_hash]
}

fn validate_transaction_runtime_parameters_inner(
    scale_encoded_transaction: Vec<Vec<u8>>,
    source: TransactionSource,
    block_hash: &[u8],
) -> (r: Vec<Vec<u8>>)
    ensures
        bytes_views(r@) == validation_parameter(bytes_views(scale_encoded_transaction@), source, block_hash@),
{
    let tag: u8 = match source {
        TransactionSource::InBlock => 0,
        TransactionSource::Local => 1,
        TransactionSource::External => 2,
    };
    let mut first: Vec<u8> = Vec::new();
    first.push(tag);
    let mut out: Vec<Vec<u8>> = Vec::new();
    out.push(first);
    let ghost orig = scale_encoded_transaction@;
    let mut segments = scale_encoded_transaction;
    out.append(&mut segments);
    out.push(slice_to_vec(block_hash));
    proof {
        let want = validation_parameter(bytes_views(orig), source, block_hash@);
        assert(out@.len() == orig.len() + 2);
        assert forall|i: int| 0 <= i < out@.len() implies #[trigger] bytes_views(out@)[i] == want[i] by {
            if i == 0 {
                assert(out@[0]@ =~= seq![source_tag(source)]);
            } else if i <= orig.len() {
                assert(out@[i] == orig[i - 1]);
            }
        }
        assert(bytes_views(out@) =~= want);
    }
    out
}

/// Produces the input to pass to the `TaggedTransactionQueue_validate_transaction` runtime
/// call, version 2: the source byte, then the transaction's segments.
pub fn validate_transaction_runtime_parameters_v2(
    scale_encoded_transaction: Vec<Vec<u8>>,
    source: TransactionSource,
) -> (r: Vec<Vec<u8>>)
    ensures
        bytes_views(r@) == validation_parameter(bytes_views(scale_encoded_transaction@), source, Seq::empty()),
{
    let empty: Vec<u8> = Vec::new();
    validate_transaction_runtime_parameters_inner(scale_encoded_transaction, source, empty.as_slice())
}

/// Produces the input to pass to the `TaggedTransactionQueue_validate_transaction` runtime
/// call, version 3: the source byte, the transaction's segments, then the block hash.
pub fn validate_transaction_runtime_parameters_v3(
    scale_encoded_transaction: Vec<Vec<u8>>,
    source: TransactionSource,
    block_hash: &[u8; 32],
) -> (r: Vec<Vec<u8>>)
    ensures
        bytes_views(r@) == validation_parameter(bytes_views(scale_encoded_transaction@), source, block_hash@),
{
    validate_transaction_runtime_parameters_inner(scale_encoded_transaction, source, block_hash.as_slice())
}

/// The header passed to `Core_initialize_block`: the given parent hash and number, zero
/// state and extrinsics roots, and an empty digest.
pub open spec fn initialize_block_header(parent_hash: Seq<u8>, number: u64) -> Seq<u8> {
    parent_hash + compact_encoding(number as nat) + Seq::new(32, |i: int| 0u8) + Seq::new(
        32,
        |i: int| 0u8,
    ) + seq![0u8]
}

fn push_zeros(out: &mut Vec<u8>, n: usize)
    ensures
        final(out)@ == old(out)@ + Seq::new(n as nat, |i: int| 0u8),
{
    let mut i: usize = 0;
    while i < n
        invariant
            i <= n,
            out@ == old(out)@ + Seq::new(i as nat, |j: int| 0u8),
        decreases n - i,
    {
        out.push(0u8);
        proof {
            assert(old(out)@ + Seq::new((i + 1) as nat, |j: int| 0u8) =~= (old(out)@ + Seq::new(i as nat, |j: int| 0u8)).push(0u8));
        }
        i = i + 1;
    }
}

/// Encodes the header passed to `Core_initialize_block`.
fn initialize_block_parameter(parent_hash: &[u8; 32], number: u64) -> (r: Vec<u8>)
    ensures
        r@ == initialize_block_header(parent_hash@, number),
{
    let mut out = slice_to_vec(parent_hash.as_slice());
    let number_bytes = encode_compact_u64(number);
    let mut i: usize = 0;
    while i < number_bytes.len()
        invariant
            i <= number_bytes@.len(),
            out@ == parent_hash@ + number_bytes@.subrange(0, i as int),
        decreases number_bytes@.len() - i,
    {
        out.push(number_bytes[i]);
        proof {
            assert(number_bytes@.subrange(0, i + 1) =~= number_bytes@.subrange(0, i as int).push(number_bytes@[i as int]));
        }
        i = i + 1;
    }
    proof {
        assert(number_bytes@.subrange(0, number_bytes@.len() as int) =~= number_bytes@);
    }
    push_zeros(&mut out, 32);
    push_zeros(&mut out, 32);
    out.push(0u8);
    proof {
        assert(out@ =~= initialize_block_header(parent_hash@, number));
    }
    out
}

/// Runtime entry points that a validation calls.
#[derive(Debug, Clone, Copy, PartialEq, Eq)]
pub enum EntryPoint {
    /// `Core_initialize_block`, called first by version 2 of the validation API.
    CoreInitializeBlock,
    /// `TaggedTransactionQueue_validate_transaction`.
    ValidateTransaction,
}

impl EntryPoint {
    /// Name of the runtime function.
    pub fn name(&self) -> (r: &'static str)
        ensures
            *self == EntryPoint::CoreInitializeBlock ==> r@ == "Core_initialize_block"@,
            *self == EntryPoint::ValidateTransaction ==> r@ == "TaggedTransactionQueue_validate_transaction"@,
    {
        match self {
            EntryPoint::CoreInitializeBlock => "Core_initialize_block",
            EntryPoint::ValidateTransaction => "TaggedTransactionQueue_validate_transaction",
        }
    }
}

/// Version of a storage entry handed back to the runtime.
#[derive(Debug, Clone, Copy, PartialEq, Eq)]
pub enum TrieEntryVersion {
    V0,
    V1,
}

/// What the runtime host reports when it stops or needs something from outside.
#[derive(Debug, Clone, PartialEq, Eq)]
pub enum HostEvent {
    /// The call returned this output.
    Finished(Vec<u8>),
    /// The call failed, for this reason.
    Failed(String),
    /// The value of a storage key is needed.
    StorageGet { key: Vec<u8>, child_trie: Option<Vec<u8>> },
    /// The Merkle value of the closest descendant of a trie node (a nibble path) is needed.
    ClosestDescendantMerkleValue { key: Vec<u8>, child_trie: Option<Vec<u8>> },
    /// The key that follows a given one (a nibble path) is needed.
    NextKey {
        key: Vec<u8>,
        child_trie: Option<Vec<u8>>,
        or_equal: bool,
        branch_nodes: bool,
        prefix: Vec<u8>,
    },
    /// The runtime asks for a signature to be verified.
    SignatureVerification,
    /// The runtime writes to the offchain storage.
    OffchainStorageSet,
    /// The runtime makes any other offchain request.
    Offchain,
}

/// How the runtime host must be resumed.
#[derive(Debug, Clone, PartialEq, Eq)]
pub enum Resumption {
    /// Verify the signature the runtime asked about, then resume.
    VerifySignature,
    /// Resume without performing the offchain storage write.
    SkipOffchainStorageSet,
    /// Resume with this storage value.
    StorageValue(Option<(Vec<u8>, TrieEntryVersion)>),
    /// Resume with this Merkle value.
    MerkleValue(Option<Vec<u8>>),
    /// Resume and let the runtime host compute the Merkle value itself.
    MerkleValueUnknown,
    /// Resume with this next key (a nibble path).
    NextKey(Option<Vec<u8>>),
}

/// A runtime call to start on the virtual machine.
#[derive(Debug, Clone, PartialEq, Eq)]
pub struct RuntimeCall {
    pub function: EntryPoint,
    /// The parameter, as segments to be concatenated.
    pub parameter: Vec<Vec<u8>>,
    /// Whether the storage changes of the call that just finished are carried into this one.
    pub storage_changes_carried: bool,
    pub max_log_level: u32,
}

/// Information kept while `Core_initialize_block` runs, for the validation call after it.
#[derive(Debug, Clone, PartialEq, Eq)]
pub struct Stage1 {
    pub transaction_source: TransactionSource,
    pub scale_encoded_transaction: Vec<u8>,
    pub max_log_level: u32,
}

/// Which runtime call is running.
#[derive(Debug, Clone, PartialEq, Eq)]
pub enum Stage {
    /// `Core_initialize_block`, to be followed by the validation call.
    Stage1(Stage1),
    /// The validation call.
    Stage2,
}

/// Problem encountered during a call to [`validate_transaction`].
#[derive(Debug, Clone, PartialEq, Eq)]
pub enum Error {
    /// The block header against which to make the call could not be used.
    InvalidHeader,
    /// Transaction validation API version unrecognized.
    UnknownApiVersion,
    /// Error while starting the Wasm virtual machine.
    WasmStart(String),
    /// Error while running `Core_initialize_block`.
    WasmVmReadWrite(String),
    /// Error while running the validation call.
    WasmVmReadOnly(String),
    /// Error while decoding the output of the runtime.
    OutputDecodeError(DecodeError),
    /// The list of provided tags is empty, which the runtime must never return.
    EmptyProvidedTags,
    /// Runtime called a forbidden host function.
    ForbiddenHostCall,
}

/// What to do next.
pub enum Step<V> {
    /// Hand this to the caller.
    Query(Query<V>),
    /// Start this call on the virtual machine; hand its first event, or its start error, to
    /// the stage.
    Call { virtual_machine: V, call: RuntimeCall, stage: Stage },
    /// Resume the virtual machine as said; hand its next event to the stage.
    Resume { virtual_machine: V, resumption: Resumption, stage: Stage },
}

/// Current state of the operation, as seen by the caller.
pub enum Query<V> {
    /// Validating the transaction is over.
    Finished {
        /// The outer `Result` contains an error if the runtime call has failed, while the
        /// inner `Result` contains an error if the transaction is invalid.
        result: Result<Result<ValidTransaction, TransactionValidityError>, Error>,
        /// Virtual machine initially passed through the configuration.
        virtual_machine: V,
    },
    /// Loading a storage value is required in order to continue.
    StorageGet(StorageGet<V>),
    /// Obtaining the Merkle value of the closest descendant of a trie node is required in
    /// order to continue.
    ClosestDescendantMerkleValue(ClosestDescendantMerkleValue<V>),
    /// Fetching the key that follows a given one is required in order to continue.
    NextKey(NextKey<V>),
}

/// Loading a storage value is required in order to continue.
pub struct StorageGet<V> {
    virtual_machine: V,
    key: Vec<u8>,
    child_trie: Option<Vec<u8>>,
    stage: Stage,
}

/// Obtaining the Merkle value of the closest descendant of a trie node is required in order
/// to continue.
pub struct ClosestDescendantMerkleValue<V> {
    virtual_machine: V,
    key: Vec<u8>,
    child_trie: Option<Vec<u8>>,
    stage: Stage,
}

/// Fetching the key that follows a given one is required in order to continue.
pub struct NextKey<V> {
    virtual_machine: V,
    key: Vec<u8>,
    child_trie: Option<Vec<u8>>,
    or_equal: bool,
    branch_nodes: bool,
    prefix: Vec<u8>,
    stage: Stage,
}

pub open spec fn option_bytes(o: Option<Vec<u8>>) -> Option<Seq<u8>> {
    match o {
        Some(v) => Some(v@),
        None => None,
    }
}

pub open spec fn option_slice(o: Option<&[u8]>) -> Option<Seq<u8>> {
    match o {
        Some(v) => Some(v@),
        None => None,
    }
}

fn child_trie_slice(c: &Option<Vec<u8>>) -> (r: Option<&[u8]>)
    ensures
        option_slice(r) == option_bytes(*c),
{
    match c {
        Some(v) => Some(v.as_slice()),
        None => None,
    }
}

impl<V> StorageGet<V> {
    pub closed spec fn spec_vm(self) -> V {
        self.virtual_machine
    }

    pub closed spec fn spec_key(self) -> Seq<u8> {
        self.key@
    }

    pub closed spec fn spec_child_trie(self) -> Option<Seq<u8>> {
        option_bytes(self.child_trie)
    }

    pub closed spec fn spec_stage(self) -> Stage {
        self.stage
    }

    /// Returns the key whose value must be passed to [`StorageGet::inject_value`].
    pub fn key(&self) -> (r: &[u8])
        ensures
            r@ == self.spec_key(),
    {
        self.key.as_slice()
    }

    /// If `Some`, read from the given child trie. If `None`, read from the main trie.
    pub fn child_trie(&self) -> (r: Option<&[u8]>)
        ensures
            option_slice(r) == self.spec_child_trie(),
    {
        child_trie_slice(&self.child_trie)
    }

    /// Injects the corresponding storage value.
    pub fn inject_value(self, value: Option<(Vec<u8>, TrieEntryVersion)>) -> (r: Step<V>)
        ensures
            r == (Step::Resume {
                virtual_machine: self.spec_vm(),
                resumption: Resumption::StorageValue(value),
                stage: self.spec_stage(),
            }),
    {
        Step::Resume {
            virtual_machine: self.virtual_machine,
            resumption: Resumption::StorageValue(value),
            stage: self.stage,
        }
    }
}

impl<V> ClosestDescendantMerkleValue<V> {
    pub closed spec fn spec_vm(self) -> V {
        self.virtual_machine
    }

    pub closed spec fn spec_key(self) -> Seq<u8> {
        self.key@
    }

    pub closed spec fn spec_child_trie(self) -> Option<Seq<u8>> {
        option_bytes(self.child_trie)
    }

    pub closed spec fn spec_stage(self) -> Stage {
        self.stage
    }

    /// Returns the key (a nibble path) whose closest descendant Merkle value must be passed
    /// to [`ClosestDescendantMerkleValue::inject_merkle_value`].
    pub fn key(&self) -> (r: &[u8])
        ensures
            r@ == self.spec_key(),
    {
        self.key.as_slice()
    }

    /// If `Some`, read from the given child trie. If `None`, read from the main trie.
    pub fn child_trie(&self) -> (r: Option<&[u8]>)
        ensures
            option_slice(r) == self.spec_child_trie(),
    {
        child_trie_slice(&self.child_trie)
    }

    /// Indicate that the value is unknown and resume the calculation.
    pub fn resume_unknown(self) -> (r: Step<V>)
        ensures
            r == (Step::Resume {
                virtual_machine: self.spec_vm(),
                resumption: Resumption::MerkleValueUnknown,
                stage: self.spec_stage(),
            }),
    {
        Step::Resume {
            virtual_machine: self.virtual_machine,
            resumption: Resumption::MerkleValueUnknown,
            stage: self.stage,
        }
    }

    /// Injects the corresponding Merkle value; `None` if there is no descendant or the child
    /// trie does not exist.
    pub fn inject_merkle_value(self, merkle_value: Option<Vec<u8>>) -> (r: Step<V>)
        ensures
            r == (Step::Resume {
                virtual_machine: self.spec_vm(),
                resumption: Resumption::MerkleValue(merkle_value),
                stage: self.spec_stage(),
            }),
    {
        Step::Resume {
            virtual_machine: self.virtual_machine,
            resumption: Resumption::MerkleValue(merkle_value),
            stage: self.stage,
        }
    }
}

impl<V> NextKey<V> {
    pub closed spec fn spec_vm(self) -> V {
        self.virtual_machine
    }

    pub closed spec fn spec_key(self) -> Seq<u8> {
        self.key@
    }

    pub closed spec fn spec_child_trie(self) -> Option<Seq<u8>> {
        option_bytes(self.child_trie)
    }

    pub closed spec fn spec_or_equal(self) -> bool {
        self.or_equal
    }

    pub closed spec fn spec_branch_nodes(self) -> bool {
        self.branch_nodes
    }

    pub closed spec fn spec_prefix(self) -> Seq<u8> {
        self.prefix@
    }

    pub closed spec fn spec_stage(self) -> Stage {
        self.stage
    }

    /// Returns the key (a nibble path) whose next key must be passed back.
    pub fn key(&self) -> (r: &[u8])
        ensures
            r@ == self.spec_key(),
    {
        self.key.as_slice()
    }

    /// If `Some`, read from the given child trie. If `None`, read from the main trie.
    pub fn child_trie(&self) -> (r: Option<&[u8]>)
        ensures
            option_slice(r) == self.spec_child_trie(),
    {
        child_trie_slice(&self.child_trie)
    }

    /// If `true`, then the provided value must the one superior or equal to the requested
    /// key. If `false`, then the provided value must be strictly superior to the requested key.
    pub fn or_equal(&self) -> (r: bool)
        ensures
            r == self.spec_or_equal(),
    {
        self.or_equal
    }

    /// If `true`, then the search must include both branch nodes and storage nodes. If
    /// `false`, the search only covers storage nodes.
    pub fn branch_nodes(&self) -> (r: bool)
        ensures
            r == self.spec_branch_nodes(),
    {
        self.branch_nodes
    }

    /// Returns the prefix (a nibble path) the next key must start with. If the next key
    /// doesn't start with the given prefix, then `None` should be provided.
    pub fn prefix(&self) -> (r: &[u8])
        ensures
            r@ == self.spec_prefix(),
    {
        self.prefix.as_slice()
    }

    /// Injects the key (a nibble path), or `None` if there is none.
    pub fn inject_key(self, key: Option<Vec<u8>>) -> (r: Step<V>)
        ensures
            r == (Step::Resume {
                virtual_machine: self.spec_vm(),
                resumption: Resumption::NextKey(key),
                stage: self.spec_stage(),
            }),
    {
        Step::Resume {
            virtual_machine: self.virtual_machine,
            resumption: Resumption::NextKey(key),
            stage: self.stage,
        }
    }
}

/// The virtual machine a query holds.
pub open spec fn query_vm<V>(q: Query<V>) -> V {
    match q {
        Query::Finished { virtual_machine, .. } => virtual_machine,
        Query::StorageGet(g) => g.spec_vm(),
        Query::ClosestDescendantMerkleValue(m) => m.spec_vm(),
        Query::NextKey(k) => k.spec_vm(),
    }
}

/// The virtual machine a step holds.
pub open spec fn step_vm<V>(s: Step<V>) -> V {
    match s {
        Step::Query(q) => query_vm(q),
        Step::Call { virtual_machine, .. } => virtual_machine,
        Step::Resume { virtual_machine, .. } => virtual_machine,
    }
}

/// Whether the step finishes the validation with this error.
pub open spec fn finished_with<V>(s: Step<V>, e: Error) -> bool {
    s matches Step::Query(Query::Finished { result: Err(x), .. }) && x == e
}

/// Whether the step finishes the validation with this decoded validity.
pub open spec fn finished_ok<V>(s: Step<V>, v: Result<ValidTransactionView, TransactionValidityError>) -> bool {
    s matches Step::Query(Query::Finished { result: Ok(x), .. }) && validity_view(x) == v
}

impl<V> Query<V> {
    /// Cancels execution of the virtual machine and returns back the prototype.
    pub fn into_prototype(self) -> (r: V)
        ensures
            r == query_vm(self),
    {
        match self {
            Query::Finished { virtual_machine, .. } => virtual_machine,
            Query::StorageGet(g) => g.virtual_machine,
            Query::ClosestDescendantMerkleValue(m) => m.virtual_machine,
            Query::NextKey(k) => k.virtual_machine,
        }
    }
}

fn finish<V>(virtual_machine: V, result: Result<Result<ValidTransaction, TransactionValidityError>, Error>) -> (r: Step<V>)
    ensures
        r == Step::Query(Query::Finished { result, virtual_machine }),
{
    Step::Query(Query::Finished { result, virtual_machine })
}

impl Stage {
    /// Decides what follows an event of the runtime host during this stage.
    pub fn on_event<V>(self, virtual_machine: V, event: HostEvent) -> (r: Step<V>)
        ensures
            step_vm(r) == virtual_machine,
            match event {
                HostEvent::Finished(output) => match self {
                    Stage::Stage1(info) => if output@.len() == 0 {
                        r matches Step::Call { call, stage, .. }
                            && call.function == EntryPoint::ValidateTransaction
                            && bytes_views(call.parameter@) == validation_parameter(
                                seq![info.scale_encoded_transaction@],
                                info.transaction_source,
                                Seq::empty(),
                            ) && call.storage_changes_carried && call.max_log_level == info.max_log_level
                            && stage == Stage::Stage2
                    } else {
                        finished_with(r, Error::OutputDecodeError(DecodeError()))
                    },
                    Stage::Stage2 => match spec_validate_return_value(output@) {
                        None => finished_with(r, Error::OutputDecodeError(DecodeError())),
                        Some(v) => if v is Ok && v->Ok_0.provides.len() == 0 {
                            finished_with(r, Error::EmptyProvidedTags)
                        } else {
                            finished_ok(r, v)
                        },
                    },
                },
                HostEvent::Failed(detail) => finished_with(
                    r,
                    if self is Stage1 {
                        Error::WasmVmReadWrite(detail)
                    } else {
                        Error::WasmVmReadOnly(detail)
                    },
                ),
                HostEvent::StorageGet { key, child_trie } => r matches Step::Query(Query::StorageGet(q))
                    && q.spec_key() == key@ && q.spec_child_trie() == option_bytes(child_trie)
                    && q.spec_stage() == self,
                HostEvent::ClosestDescendantMerkleValue { key, child_trie } => r matches Step::Query(
                    Query::ClosestDescendantMerkleValue(q),
                ) && q.spec_key() == key@ && q.spec_child_trie() == option_bytes(child_trie)
                    && q.spec_stage() == self,
                HostEvent::NextKey { key, child_trie, or_equal, branch_nodes, prefix } => r matches Step::Query(
                    Query::NextKey(q),
                ) && q.spec_key() == key@ && q.spec_child_trie() == option_bytes(child_trie)
                    && q.spec_or_equal() == or_equal && q.spec_branch_nodes() == branch_nodes
                    && q.spec_prefix() == prefix@ && q.spec_stage() == self,
                HostEvent::SignatureVerification => r matches Step::Resume {
                    resumption: Resumption::VerifySignature,
                    stage,
                    ..
                } && stage == self,
                HostEvent::OffchainStorageSet => r matches Step::Resume {
                    resumption: Resumption::SkipOffchainStorageSet,
                    stage,
                    ..
                } && stage == self,
                HostEvent::Offchain => finished_with(r, Error::ForbiddenHostCall),
            },
    {
        match event {
            HostEvent::Finished(output) => match self {
                Stage::Stage1(info) => {
                    if output.len() != 0 {
                        return finish(virtual_machine, Err(Error::OutputDecodeError(DecodeError())));
                    }
                    let mut segments: Vec<Vec<u8>> = Vec::new();
                    segments.push(info.scale_encoded_transaction);
                    proof {
                        assert(bytes_views(segments@) =~= seq![segments@[0]@]);
                    }
                    let parameter = validate_transaction_runtime_parameters_v2(segments, info.transaction_source);
                    let call = RuntimeCall {
                        function: EntryPoint::ValidateTransaction,
                        parameter,
                        storage_changes_carried: true,
                        max_log_level: info.max_log_level,
                    };
                    Step::Call { virtual_machine, call, stage: Stage::Stage2 }
                },
                Stage::Stage2 => match decode_validate_transaction_return_value(output.as_slice()) {
                    Err(e) => finish(virtual_machine, Err(Error::OutputDecodeError(e))),
                    Ok(res) => {
                        let no_tags = match &res {
                            Ok(t) => t.provides.len() == 0,
                            Err(_) => false,
                        };
                        if no_tags {
                            finish(virtual_machine, Err(Error::EmptyProvidedTags))
                        } else {
                            finish(virtual_machine, Ok(res))
                        }
                    },
                },
            },
            HostEvent::Failed(detail) => match self {
                Stage::Stage1(_) => finish(virtual_machine, Err(Error::WasmVmReadWrite(detail))),
                Stage::Stage2 => finish(virtual_machine, Err(Error::WasmVmReadOnly(detail))),
            },
            HostEvent::StorageGet { key, child_trie } => Step::Query(
                Query::StorageGet(StorageGet { virtual_machine, key, child_trie, stage: self }),
            ),
            HostEvent::ClosestDescendantMerkleValue { key, child_trie } => Step::Query(
                Query::ClosestDescendantMerkleValue(
                    ClosestDescendantMerkleValue { virtual_machine, key, child_trie, stage: self },
                ),
            ),
            HostEvent::NextKey { key, child_trie, or_equal, branch_nodes, prefix } => Step::Query(
                Query::NextKey(
                    NextKey {
                        virtual_machine,
                        key,
                        child_trie,
                        or_equal,
                        branch_nodes,
                        prefix,
                        stage: self,
                    },
                ),
            ),
            HostEvent::SignatureVerification => Step::Resume {
                virtual_machine,
                resumption: Resumption::VerifySignature,
                stage: self,
            },
            HostEvent::OffchainStorageSet => Step::Resume {
                virtual_machine,
                resumption: Resumption::SkipOffchainStorageSet,
                stage: self,
            },
            HostEvent::Offchain => finish(virtual_machine, Err(Error::ForbiddenHostCall)),
        }
    }

    /// Finishes the validation after the virtual machine failed to start a call.
    pub fn on_start_error<V>(self, virtual_machine: V, error: String) -> (r: Query<V>)
        ensures
            r == (Query::Finished { result: Err(Error::WasmStart(error)), virtual_machine }),
    {
        Query::Finished { result: Err(Error::WasmStart(error)), virtual_machine }
    }
}

/// Configuration for a transaction validation process.
pub struct Config<V> {
    /// Runtime used to validate the transaction, as the caller's virtual machine.
    pub runtime: V,
    /// Version of the `TaggedTransactionQueue` API that the runtime declares, if any.
    pub api_version: Option<u32>,
    /// Hash of the header of the block to validate the transaction against.
    pub header_hash: [u8; 32],
    /// Number of that block, or `None` if its header could not be decoded.
    pub header_number: Option<u64>,
    /// SCALE-encoded transaction, as segments to be concatenated.
    pub scale_encoded_transaction: Vec<Vec<u8>>,
    /// Source of the transaction.
    pub source: TransactionSource,
    /// Maximum log level of the runtime.
    pub max_log_level: u32,
}

fn concat_segments(segments: Vec<Vec<u8>>) -> (r: Vec<u8>)
    ensures
        r@ == bytes_views(segments@).flatten(),
{
    let ghost all = bytes_views(segments@);
    let mut rest = segments;
    let mut out: Vec<u8> = Vec::new();
    while rest.len() > 0
        invariant
            out@ + bytes_views(rest@).flatten() == all.flatten(),
        decreases rest@.len(),
    {
        let ghost before = rest@;
        let mut segment = rest.remove(0);
        proof {
            assert(bytes_views(before).drop_first() =~= bytes_views(rest@));
            assert(bytes_views(before).first() == segment@);
            assert(bytes_views(before).flatten() == segment@ + bytes_views(rest@).flatten());
        }
        let ghost out_before = out@;
        let ghost taken = segment@;
        out.append(&mut segment);
        proof {
            assert(out_before + (taken + bytes_views(rest@).flatten()) =~= out@ + bytes_views(rest@).flatten());
        }
    }
    proof {
        assert(bytes_views(rest@).flatten() =~= Seq::<u8>::empty());
        assert(out@ + Seq::<u8>::empty() =~= out@);
    }
    out
}

/// Starts the validation of a transaction.
///
/// A runtime that declares version 2 of the API first runs `Core_initialize_block` on a
/// header built from the given block (whose number must decode and have a successor); one
/// that declares version 3 is called directly; any other version is refused.
pub fn validate_transaction<V>(config: Config<V>) -> (r: Step<V>)
    ensures
        step_vm(r) == config.runtime,
        config.api_version == Some(2u32) ==> if config.header_number is Some
            && config.header_number->Some_0 < u64::MAX {
            r matches Step::Call { call, stage: Stage::Stage1(info), .. }
                && call.function == EntryPoint::CoreInitializeBlock
                && bytes_views(call.parameter@) == seq![
                initialize_block_header(config.header_hash@, (config.header_number->Some_0 + 1) as u64),
            ] && !call.storage_changes_carried && call.max_log_level == config.max_log_level
                && info.transaction_source == config.source
                && info.scale_encoded_transaction@ == bytes_views(config.scale_encoded_transaction@).flatten()
                && info.max_log_level == config.max_log_level
        } else {
            finished_with(r, Error::InvalidHeader)
        },
        config.api_version == Some(3u32) ==> (r matches Step::Call { call, stage, .. }
            && call.function == EntryPoint::ValidateTransaction
            && bytes_views(call.parameter@) == validation_parameter(
            bytes_views(config.scale_encoded_transaction@),
            config.source,
            config.header_hash@,
        ) && !call.storage_changes_carried && call.max_log_level == config.max_log_level
            && stage == Stage::Stage2),
        config.api_version != Some(2u32) && config.api_version != Some(3u32) ==> finished_with(
            r,
            Error::UnknownApiVersion,
        ),
{
    match config.api_version {
        Some(2) => {
            let number = match config.header_number {
                Some(n) => n,
                None => return finish(config.runtime, Err(Error::InvalidHeader)),
            };
            if number == u64::MAX {
                return finish(config.runtime, Err(Error::InvalidHeader));
            }
            let header = initialize_block_parameter(&config.header_hash, number + 1);
            let mut parameter: Vec<Vec<u8>> = Vec::new();
            parameter.push(header);
            proof {
                assert(bytes_views(parameter@) =~= seq![parameter@[0]@]);
            }
            let stage = Stage::Stage1(
                Stage1 {
                    transaction_source: config.source,
                    scale_encoded_transaction: concat_segments(config.scale_encoded_transaction),
                    max_log_level: config.max_log_level,
                },
            );
            let call = RuntimeCall {
                function: EntryPoint::CoreInitializeBlock,
                parameter,
                storage_changes_carried: false,
                max_log_level: config.max_log_level,
            };
            Step::Call { virtual_machine: config.runtime, call, stage }
        },
        Some(3) => {
            let parameter = validate_transaction_runtime_parameters_v3(
                config.scale_encoded_transaction,
                config.source,
                &config.header_hash,
            );
            let call = RuntimeCall {
                function: EntryPoint::ValidateTransaction,
                parameter,
                storage_changes_carried: false,
                max_log_level: config.max_log_level,
            };
            Step::Call { virtual_machine: config.runtime, call, stage: Stage::Stage2 }
        },
        _ => finish(config.runtime, Err(Error::UnknownApiVersion)),
    }
}

} // verus!
