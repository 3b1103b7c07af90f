use vstd::prelude::*;
use crate::coin::Nullifier;
use midnight_base_crypto::hash::HashOutput;
use midnight_base_crypto::signatures::Signature;
use midnight_coin_structure::coin as ledger_coin;
use midnight_ledger::structure::{ProofMarker, Transaction, INITIAL_PARAMETERS};
use midnight_serialize::{tagged_deserialize, tagged_serialize};
use midnight_storage::db::InMemoryDB;
use midnight_transient_crypto::commitment::PedersenRandomness;

verus! {

type ProvenTransaction = Transaction<Signature, ProofMarker, PedersenRandomness, InMemoryDB>;

/// Why the ledger does not read `bytes` as a transaction, in the ledger's
/// words; `None` where it reads them as one.
pub uninterp spec fn decode_failure(bytes: Seq<u8>) -> Option<Seq<char>>;

/// The fees that the ledger asks for the transaction encoded in `tx`, under
/// its initial parameters; or why it gives none, in the ledger's words.
pub uninterp spec fn ledger_fees(tx: Seq<u8>) -> Result<u128, Seq<char>>;

/// The encoding of the transaction that the ledger merges from the
/// transactions encoded in `first` and `second`; or why it merges none, in
/// the ledger's words.
pub uninterp spec fn ledger_merge(first: Seq<u8>, second: Seq<u8>) -> Result<Seq<u8>, Seq<char>>;

/// The hash under which the ledger knows the transaction encoded in `tx`;
/// or why it has none, in the ledger's words.
pub uninterp spec fn ledger_hash(tx: Seq<u8>) -> Result<Seq<u8>, Seq<char>>;

/// The encodings of the identifiers of the transaction encoded in `tx`, in
/// the ledger's order; or why it has none, in the ledger's words.
pub uninterp spec fn ledger_identifiers(tx: Seq<u8>) -> Result<Seq<Seq<u8>>, Seq<char>>;

/// An optional text, as mathematics.
pub open spec fn text_of(t: Option<String>) -> Option<Seq<char>> {
    match t {
        Some(s) => Some(s@),
        None => None,
    }
}

/// An amount or the text of an error, as mathematics.
pub open spec fn amount_of(r: Result<u128, String>) -> Result<u128, Seq<char>> {
    match r {
        Ok(v) => Ok(v),
        Err(e) => Err(e@),
    }
}

/// Bytes or the text of an error, as mathematics.
pub open spec fn bytes_of(r: Result<Vec<u8>, String>) -> Result<Seq<u8>, Seq<char>> {
    match r {
        Ok(v) => Ok(v@),
        Err(e) => Err(e@),
    }
}

/// A list of byte strings or the text of an error, as mathematics.
pub open spec fn list_of(r: Result<Vec<Vec<u8>>, String>) -> Result<Seq<Seq<u8>>, Seq<char>> {
    match r {
        Ok(v) => Ok(views(v@)),
        Err(e) => Err(e@),
    }
}

/// The encoding of a nullifier, as the ledger writes it; or why it has
/// none, in the ledger's words.
pub uninterp spec fn nullifier_encoding(n: Nullifier) -> Result<Seq<u8>, Seq<char>>;

/// The views of a list of byte strings.
pub open spec fn views(items: Seq<Vec<u8>>) -> Seq<Seq<u8>> {
    Seq::new(items.len(), |i: int| items[i]@)
}

/// `midnight_serialize::tagged_deserialize`, for a proven transaction of
/// the ledger. The result is the text of the error with which the ledger
/// refuses `bytes`, or `None` where it reads a transaction from them. What
/// the ledger accepts is the ledger's matter: the contract only gives the
/// outcome a name.
#[verifier::external_body]
pub(crate) fn read_transaction(bytes: &[u8]) -> (r: Option<String>)
    ensures
        text_of(r) == decode_failure(bytes@),
{
    match tagged_deserialize::<ProvenTransaction>(bytes) {
        Ok(_) => None,
        Err(e) => Some(e.to_string()),
    }
}

/// `Transaction::fees` of the ledger, on the transaction that
/// `midnight_serialize::tagged_deserialize` reads from `tx`, under the
/// ledger's `INITIAL_PARAMETERS` and without the bound on the time to
/// dismiss. The contract only gives the outcome a name.
#[verifier::external_body]
pub(crate) fn transaction_fees(tx: &[u8]) -> (r: Result<u128, String>)
    ensures
        amount_of(r) == ledger_fees(tx@),
{
    match tagged_deserialize::<ProvenTransaction>(tx) {
        Ok(t) => match t.fees(&INITIAL_PARAMETERS, false) {
            Ok(fees) => Ok(fees),
            Err(e) => Err(e.to_string()),
        },
        Err(e) => Err(e.to_string()),
    }
}

/// `Transaction::merge` of the ledger, on the transactions that
/// `midnight_serialize::tagged_deserialize` reads from `first` and
/// `second`; the result is written by `midnight_serialize::tagged_serialize`.
/// The contract only gives the outcome a name.
#[verifier::external_body]
pub(crate) fn merge_transactions(first: &[u8], second: &[u8]) -> (r: Result<Vec<u8>, String>)
    ensures
        bytes_of(r) == ledger_merge(first@, second@),
{
    let a = tagged_deserialize::<ProvenTransaction>(first).map_err(|e| e.to_string())?;
    let b = tagged_deserialize::<ProvenTransaction>(second).map_err(|e| e.to_string())?;
    let merged = a.merge(&b).map_err(|e| e.to_string())?;
    let mut out = Vec::new();
    tagged_serialize(&merged, &mut out).map_err(|e| e.to_string())?;
    Ok(out)
}

/// `Transaction::transaction_hash` of the ledger, on the transaction that
/// `midnight_serialize::tagged_deserialize` reads from `tx`: the 32 bytes
/// of the hash. The contract only gives the outcome a name.
#[verifier::external_body]
pub(crate) fn transaction_hash(tx: &[u8]) -> (r: Result<Vec<u8>, String>)
    ensures
        bytes_of(r) == ledger_hash(tx@),
{
    match tagged_deserialize::<ProvenTransaction>(tx) {
        Ok(t) => Ok(t.transaction_hash().0.0.to_vec()),
        Err(e) => Err(e.to_string()),
    }
}

/// `Transaction::identifiers` of the ledger, on the transaction that
/// `midnight_serialize::tagged_deserialize` reads from `tx`; each identifier
/// is written by `midnight_serialize::tagged_serialize`. The contract only
/// gives the outcome a name.
#[verifier::external_body]
pub(crate) fn transaction_identifiers(tx: &[u8]) -> (r: Result<Vec<Vec<u8>>, String>)
    ensures
        list_of(r) == ledger_identifiers(tx@),
{
    let t = tagged_deserialize::<ProvenTransaction>(tx).map_err(|e| e.to_string())?;
    let mut out = Vec::new();
    for id in t.identifiers() {
        let mut buf = Vec::new();
        tagged_serialize(&id, &mut buf).map_err(|e| e.to_string())?;
        out.push(buf);
    }
    Ok(out)
}

/// `midnight_serialize::tagged_serialize`, for the nullifier of the ledger
/// that holds the 32 bytes of `n`. The contract only gives the outcome a
/// name.
#[verifier::external_body]
pub(crate) fn encode_nullifier(n: &Nullifier) -> (r: Result<Vec<u8>, String>)
    ensures
        bytes_of(r) == nullifier_encoding(*n),
{
    let mut out = Vec::new();
    let key = ledger_coin::Nullifier(HashOutput(n.to_bytes().try_into().unwrap()));
    match tagged_serialize(&key, &mut out) {
        Ok(()) => Ok(out),
        Err(e) => Err(e.to_string()),
    }
}

} // verus!
