use vstd::prelude::*;
use crate::coin::{coin_map, distinct, distinct_nullifiers, Coin, Nonce, Nullifier, OwnedCoin, TokenType};
use midnight_base_crypto::hash::HashOutput;
use midnight_base_crypto::signatures::Signature;
use midnight_coin_structure::coin as ledger_coin;
use midnight_ledger::structure::{ProofMarker, ProofPreimageMarker, Transaction};
use midnight_serialize::{tagged_deserialize, tagged_serialize};
use midnight_storage::db::InMemoryDB;
use midnight_storage::storage::{Array, HashMap};
use midnight_transient_crypto::commitment::PedersenRandomness;
use midnight_transient_crypto::proofs::{Proof, ProofPreimage};
use midnight_zswap::keys::{SecretKeys, Seed};
use midnight_zswap::local::State;
use midnight_zswap::{Delta, Input, Offer, Output};
use rand::rngs::OsRng;

verus! {

type ProvenTransaction = Transaction<Signature, ProofMarker, PedersenRandomness, InMemoryDB>;

type UnprovenTransaction = Transaction<Signature, ProofPreimageMarker, PedersenRandomness, InMemoryDB>;

/// The wallet state that the ledger's zswap library keeps: the coins of the
/// wallet, the spends that are under way, and the tree of commitments from
/// which spends are proven. The library reads and changes it only through
/// the calls below.
#[verifier::external_body]
pub struct LocalState {
    inner: State<InMemoryDB>,
}

/// The coins that a wallet state holds, by nullifier.
pub uninterp spec fn coins_of(state: LocalState) -> Map<Nullifier, Coin>;

/// The nullifiers of the coins whose spend is under way in a wallet state.
pub uninterp spec fn pending_of(state: LocalState) -> Set<Nullifier>;

/// The wallet state that `bytes` encode; or why they encode none, in the
/// ledger's words.
pub uninterp spec fn decoded_state(bytes: Seq<u8>) -> Result<LocalState, Seq<char>>;

/// The encoding of a wallet state; or why it has none, in the ledger's
/// words.
pub uninterp spec fn encoded_state(state: LocalState) -> Result<Seq<u8>, Seq<char>>;

/// Whether `input` is the encoding of a zswap input as `State::spend` of the
/// zswap library makes it and `midnight_serialize::tagged_serialize` writes
/// it: an input around which the ledger builds a transaction.
pub uninterp spec fn spend_made(input: Seq<u8>) -> bool;

/// Whether `output` is the encoding of a zswap output as `Output::new` of
/// the zswap library makes it and `midnight_serialize::tagged_serialize`
/// writes it: an output around which the ledger builds a transaction.
pub uninterp spec fn output_made(output: Seq<u8>) -> bool;

/// The nullifier that the zswap input encoded in `input` publishes; `None`
/// where the bytes encode no input.
pub uninterp spec fn input_nullifier(input: Seq<u8>) -> Option<Nullifier>;

/// The wallet state after the zswap offer encoded in `offer` was applied
/// with the keys derived from `seed`; or why it cannot be applied, in the
/// ledger's words.
pub uninterp spec fn applied(state: LocalState, seed: Seq<u8>, offer: Seq<u8>) -> Result<
    LocalState,
    Seq<char>,
>;

/// The encoding of the zswap offer that the transaction encoded in `tx`
/// guarantees, if it has one; or why there is none, in the ledger's words.
pub uninterp spec fn guaranteed_of(tx: Seq<u8>) -> Result<Option<Seq<u8>>, Seq<char>>;

/// The fallible segments of the transaction encoded in `tx` that hold a
/// zswap offer, each with the encoding of its offer, in the order in which
/// the transaction holds them; or why there are none, in the ledger's
/// words.
pub uninterp spec fn fallible_of(tx: Seq<u8>) -> Result<Seq<(u16, Seq<u8>)>, Seq<char>>;

/// The encoding of the unproven transaction that spends the zswap input
/// encoded in `input` on the network `network`, and does nothing else; or
/// why there is none, in the ledger's words.
pub uninterp spec fn fragment_of(input: Seq<u8>, network: Seq<char>) -> Result<Seq<u8>, Seq<char>>;

/// The encoding of the unproven transaction that holds the zswap output
/// encoded in `output` and is out of balance by `fee_delta` in the token
/// `token`, on the network `network`; or why there is none, in the ledger's
/// words.
pub uninterp spec fn payment_of(
    output: Seq<u8>,
    token: TokenType,
    fee_delta: i128,
    network: Seq<char>,
) -> Result<Seq<u8>, Seq<char>>;

/// The coin that the first output of the guaranteed offer of the unproven
/// transaction encoded in `fragment` pays to the keys derived from `seed`;
/// `None` where there is no such output, or the keys do not open it.
pub uninterp spec fn change_paid(seed: Seq<u8>, fragment: Seq<u8>) -> Option<Coin>;

/// What a spend gives: the wallet state in which the spend is under way,
/// the nullifier that the spend publishes, and the encoding of the zswap
/// input that is to be proven.
pub struct Spent {
    pub state: LocalState,
    pub nullifier: Nullifier,
    pub input: Vec<u8>,
}

/// A wallet state or the text of an error, as mathematics.
pub open spec fn state_of(r: Result<LocalState, String>) -> Result<LocalState, Seq<char>> {
    match r {
        Ok(s) => Ok(s),
        Err(e) => Err(e@),
    }
}

/// Optional bytes or the text of an error, as mathematics.
pub open spec fn maybe_bytes_of(r: Result<Option<Vec<u8>>, String>) -> Result<
    Option<Seq<u8>>,
    Seq<char>,
> {
    match r {
        Ok(Some(b)) => Ok(Some(b@)),
        Ok(None) => Ok(None),
        Err(e) => Err(e@),
    }
}

/// Segments with their offers, as mathematics.
pub open spec fn segments(items: Seq<(u16, Vec<u8>)>) -> Seq<(u16, Seq<u8>)> {
    Seq::new(items.len(), |i: int| (items[i].0, items[i].1@))
}

/// Segments with their offers or the text of an error, as mathematics.
pub open spec fn segments_of(r: Result<Vec<(u16, Vec<u8>)>, String>) -> Result<
    Seq<(u16, Seq<u8>)>,
    Seq<char>,
> {
    match r {
        Ok(v) => Ok(segments(v@)),
        Err(e) => Err(e@),
    }
}

/// The nullifiers that the inputs encoded in `inputs` publish.
pub open spec fn published(inputs: Seq<Vec<u8>>) -> Set<Nullifier> {
    Set::new(
        |n: Nullifier|
            exists|i: int| 0 <= i < inputs.len() && input_nullifier(#[trigger] inputs[i]@) == Some(n),
    )
}

/// No coins.
pub open spec fn no_coins() -> Map<Nullifier, Coin> {
    Map::empty()
}

/// No spends under way.
pub open spec fn no_spends() -> Set<Nullifier> {
    Set::empty()
}

/// `State::new` of the zswap library: a wallet state without coins and
/// without spends under way.
#[verifier::external_body]
pub(crate) fn new_state() -> (r: LocalState)
    ensures
        coins_of(r) == no_coins(),
        pending_of(r) == no_spends(),
{
    LocalState { inner: State::new() }
}

/// `midnight_serialize::tagged_deserialize`, for a wallet state of the
/// zswap library: the state that it reads from `bytes`, or the text of the
/// error with which it refuses them. The contract only gives the outcome a
/// name.
#[verifier::external_body]
pub(crate) fn read_state(bytes: &[u8]) -> (r: Result<LocalState, String>)
    ensures
        state_of(r) == decoded_state(bytes@),
{
    match tagged_deserialize(bytes) {
        Ok(inner) => Ok(LocalState { inner }),
        Err(e) => Err(e.to_string()),
    }
}

/// `midnight_serialize::tagged_serialize`, for a wallet state of the zswap
/// library: the bytes that it writes for `state`, or the text of the error
/// with which it fails. The contract only gives the outcome a name.
#[verifier::external_body]
pub(crate) fn write_state(state: &LocalState) -> (r: Result<Vec<u8>, String>)
    ensures
        crate::ledger::bytes_of(r) == encoded_state(*state),
{
    let mut out = Vec::new();
    match tagged_serialize(&state.inner, &mut out) {
        Ok(()) => Ok(out),
        Err(e) => Err(e.to_string()),
    }
}

/// `Clone::clone` of the wallet state: the same state once more.
#[verifier::external_body]
pub(crate) fn copy_state(state: &LocalState) -> (r: LocalState)
    ensures
        r == *state,
{
    LocalState { inner: state.inner.clone() }
}

/// The field `coins` of the wallet state, walked with `Map::iter` of the
/// ledger's storage library: each coin once, under its nullifier, with its
/// value, token type and nonce.
#[verifier::external_body]
pub(crate) fn list_coins(state: &LocalState) -> (r: Vec<OwnedCoin>)
    ensures
        distinct_nullifiers(r@),
        coin_map(r@) == coins_of(*state),
{
    state.inner.coins.iter().map(|(k, v)| OwnedCoin {
        nullifier: Nullifier::from_bytes(&k.0.0).unwrap(),
        coin: Coin {
            value: v.value,
            token: TokenType::from_bytes(&v.type_.0.0).unwrap(),
            nonce: Nonce::from_bytes(&v.nonce.0.0).unwrap(),
        },
    }).collect()
}

/// The field `pending_spends` of the wallet state, walked with `Map::keys`
/// of the ledger's storage library: each nullifier once.
#[verifier::external_body]
pub(crate) fn list_pending(state: &LocalState) -> (r: Vec<Nullifier>)
    ensures
        distinct(r@),
        r@.to_set() == pending_of(*state),
{
    state.inner.pending_spends.keys().map(|k| Nullifier::from_bytes(&k.0.0).unwrap()).collect()
}

/// `State::spend` of the zswap library, with the keys that `SecretKeys`
/// derives from `seed`, on the coin that the state holds under `n`, with
/// randomness of the operating system; the new input is written by
/// `midnight_serialize::tagged_serialize`. Where it succeeds, the coins are
/// those of `state`, the spends under way are those of `state` and the
/// nullifier that is handed back, which is that of the new input, and the
/// bytes handed back are an input as this call makes it. When it succeeds
/// is the ledger's matter.
#[verifier::external_body]
pub(crate) fn spend(state: &LocalState, seed: &[u8; 32], n: &Nullifier) -> (r: Result<Spent, String>)
    ensures
        r matches Ok(s) ==> coins_of(s.state) == coins_of(*state) && pending_of(s.state)
            == pending_of(*state).insert(s.nullifier) && spend_made(s.input@),
{
    let key = ledger_coin::Nullifier(HashOutput(n.to_bytes().try_into().unwrap()));
    let coin = state.inner.coins.get(&key).ok_or("coin is not in the wallet".to_string())?;
    let keys = SecretKeys::from(Seed::from(*seed));
    let (inner, input) = state.inner.spend(&mut OsRng, &keys, &coin, None).map_err(|e| e.to_string())?;
    let mut out = Vec::new();
    tagged_serialize(&input, &mut out).map_err(|e| e.to_string())?;
    let nullifier = Nullifier::from_bytes(&input.nullifier.0.0).unwrap();
    Ok(Spent { state: LocalState { inner }, nullifier, input: out })
}

/// The field `nullifier` of the zswap input that
/// `midnight_serialize::tagged_deserialize` reads from `input`; `None` where
/// it reads none. The contract only gives the outcome a name.
#[verifier::external_body]
pub(crate) fn read_nullifier(input: &[u8]) -> (r: Option<Nullifier>)
    ensures
        r == input_nullifier(input@),
{
    match tagged_deserialize::<Input<ProofPreimage, InMemoryDB>>(input) {
        Ok(read) => Nullifier::from_bytes(&read.nullifier.0.0),
        Err(_) => None,
    }
}

/// `State::apply_failed` of the zswap library, on the offer that holds the
/// zswap inputs that `midnight_serialize::tagged_deserialize` reads from
/// `inputs`, and nothing else. It fails only where the bytes encode no
/// input. Where it succeeds, the coins are those of `state`, and the spends
/// under way are those of `state` without the nullifiers that the inputs
/// publish.
#[verifier::external_body]
pub(crate) fn unspend(state: &LocalState, inputs: &Vec<Vec<u8>>) -> (r: Result<LocalState, String>)
    ensures
        r is Ok <==> forall|i: int|
            0 <= i < inputs.len() ==> input_nullifier(#[trigger] inputs[i]@) is Some,
        r matches Ok(s) ==> coins_of(s) == coins_of(*state) && pending_of(s) == pending_of(*state).difference(published(inputs@)),
{
    let mut read: Vec<Input<ProofPreimage, InMemoryDB>> = Vec::new();
    for bytes in inputs {
        read.push(tagged_deserialize(bytes.as_slice()).map_err(|e| e.to_string())?);
    }
    let offer = Offer {
        inputs: read.into_iter().collect(),
        outputs: Array::new(),
        transient: Array::new(),
        deltas: Array::new(),
    };
    Ok(LocalState { inner: state.inner.apply_failed(&offer) })
}

/// `State::apply` of the zswap library, with the keys that `SecretKeys`
/// derives from `seed`, on the proven offer that
/// `midnight_serialize::tagged_deserialize` reads from `offer`. The
/// contract only gives the outcome a name.
#[verifier::external_body]
pub(crate) fn apply_offer(state: &LocalState, seed: &[u8; 32], offer: &[u8]) -> (r: Result<
    LocalState,
    String,
>)
    ensures
        state_of(r) == applied(*state, seed@, offer@),
{
    let read: Offer<Proof, InMemoryDB> = tagged_deserialize(offer).map_err(|e| e.to_string())?;
    match state.inner.apply(&SecretKeys::from(Seed::from(*seed)), &read) {
        Ok(inner) => Ok(LocalState { inner }),
        Err(e) => Err(e.to_string()),
    }
}

/// The field `guaranteed_coins` of the standard transaction that
/// `midnight_serialize::tagged_deserialize` reads from `tx`, written by
/// `midnight_serialize::tagged_serialize`; a transaction of another kind
/// has none. The contract only gives the outcome a name.
#[verifier::external_body]
pub(crate) fn guaranteed_offer(tx: &[u8]) -> (r: Result<Option<Vec<u8>>, String>)
    ensures
        maybe_bytes_of(r) == guaranteed_of(tx@),
{
    let read: ProvenTransaction = tagged_deserialize(tx).map_err(|e| e.to_string())?;
    let mut out = Vec::new();
    match read {
        Transaction::Standard(stx) => match stx.guaranteed_coins {
            Some(offer) => match tagged_serialize(&*offer, &mut out) {
                Ok(()) => Ok(Some(out)),
                Err(e) => Err(e.to_string()),
            },
            None => Ok(None),
        },
        Transaction::ClaimRewards(_) => Ok(None),
    }
}

/// The field `fallible_coins` of the standard transaction that
/// `midnight_serialize::tagged_deserialize` reads from `tx`, walked with
/// `HashMap::iter` of the ledger's storage library: each segment with its
/// offer, written by `midnight_serialize::tagged_serialize`; a transaction
/// of another kind has none. The contract only gives the outcome a name.
#[verifier::external_body]
pub(crate) fn fallible_offers(tx: &[u8]) -> (r: Result<Vec<(u16, Vec<u8>)>, String>)
    ensures
        segments_of(r) == fallible_of(tx@),
{
    let read: ProvenTransaction = tagged_deserialize(tx).map_err(|e| e.to_string())?;
    let mut offers = Vec::new();
    if let Transaction::Standard(stx) = read {
        for entry in stx.fallible_coins.iter() {
            let mut out = Vec::new();
            tagged_serialize(&*entry.1, &mut out).map_err(|e| e.to_string())?;
            offers.push((*entry.0, out));
        }
    }
    Ok(offers)
}

/// `Transaction::new` of the ledger, for the network `network`, without
/// intents, with the guaranteed offer that holds the zswap input that
/// `midnight_serialize::tagged_deserialize` reads from `input` and nothing
/// else; the transaction is written by `midnight_serialize::tagged_serialize`.
/// The ledger reads the proof preimage of the input at fixed places, so
/// the call is only for an input as `State::spend` makes it. The contract
/// only gives the outcome a name.
#[verifier::external_body]
pub(crate) fn input_fragment(input: &[u8], network: &str) -> (r: Result<Vec<u8>, String>)
    requires
        spend_made(input@),
    ensures
        crate::ledger::bytes_of(r) == fragment_of(input@, network@),
{
    let read: Input<ProofPreimage, InMemoryDB> = tagged_deserialize(input).map_err(|e| e.to_string())?;
    let offer = Offer {
        inputs: vec![read].into_iter().collect(),
        outputs: Array::new(),
        transient: Array::new(),
        deltas: Array::new(),
    };
    let tx = UnprovenTransaction::new(network, HashMap::new(), Some(offer), HashMap::new());
    let mut out = Vec::new();
    tagged_serialize(&tx, &mut out).map_err(|e| e.to_string())?;
    Ok(out)
}

/// `Rng::gen` of the `rand` library on the randomness of the operating
/// system: 32 fresh bytes, as a nonce. Nothing is said of the outcome.
#[verifier::external_body]
pub(crate) fn fresh_nonce() -> (r: Nonce)
{
    let bytes: [u8; 32] = rand::Rng::gen(&mut OsRng);
    Nonce::from_bytes(&bytes).unwrap()
}

/// `Output::new` of the zswap library, with randomness of the operating
/// system, for the coin `coin`, paid to the public keys that `SecretKeys`
/// derives from `seed`; the output is written by
/// `midnight_serialize::tagged_serialize`. Where it succeeds, the bytes
/// handed back are an output as this call makes it; nothing else is said of
/// the outcome.
#[verifier::external_body]
pub(crate) fn change_output(seed: &[u8; 32], coin: &Coin) -> (r: Result<Vec<u8>, String>)
    ensures
        r matches Ok(output) ==> output_made(output@),
{
    let keys = SecretKeys::from(Seed::from(*seed));
    let info = ledger_coin::Info {
        nonce: ledger_coin::Nonce(HashOutput(coin.nonce.to_bytes().try_into().unwrap())),
        type_: ledger_coin::ShieldedTokenType(HashOutput(coin.token.to_bytes().try_into().unwrap())),
        value: coin.value,
    };
    let output: Output<ProofPreimage, InMemoryDB> = Output::new(&mut OsRng, &info, None, &keys.coin_public_key(), Some(keys.enc_public_key())).map_err(|e| e.to_string())?;
    let mut out = Vec::new();
    tagged_serialize(&output, &mut out).map_err(|e| e.to_string())?;
    Ok(out)
}

/// `Transaction::new` of the ledger, for the network `network`, without
/// intents, with the guaranteed offer that holds the zswap output that
/// `midnight_serialize::tagged_deserialize` reads from `output` and the one
/// delta `fee_delta` in the token `token`; the transaction is written by
/// `midnight_serialize::tagged_serialize`. The ledger reads the proof
/// preimage of the output at fixed places, so the call is only for an output
/// as `Output::new` makes it. The contract only gives the outcome a name.
#[verifier::external_body]
pub(crate) fn output_fragment(output: &[u8], token: &TokenType, fee_delta: i128, network: &str) -> (r:
    Result<Vec<u8>, String>)
    requires
        output_made(output@),
    ensures
        crate::ledger::bytes_of(r) == payment_of(output@, *token, fee_delta, network@),
{
    let read: Output<ProofPreimage, InMemoryDB> = tagged_deserialize(output).map_err(|e| e.to_string())?;
    let token_type = ledger_coin::ShieldedTokenType(HashOutput(token.to_bytes().try_into().unwrap()));
    let offer = Offer {
        inputs: Array::new(),
        outputs: vec![read].into_iter().collect(),
        transient: Array::new(),
        deltas: vec![Delta { token_type, value: fee_delta }].into_iter().collect(),
    };
    let tx = UnprovenTransaction::new(network, HashMap::new(), Some(offer), HashMap::new());
    let mut out = Vec::new();
    tagged_serialize(&tx, &mut out).map_err(|e| e.to_string())?;
    Ok(out)
}

/// `SecretKeys::try_decrypt` of the zswap library, with the keys derived
/// from `seed`, on the ciphertext of the first output of the field
/// `guaranteed_coins` of the unproven standard transaction that
/// `midnight_serialize::tagged_deserialize` reads from `fragment`: the
/// value, token type and nonce of the coin that it opens. The contract only
/// gives the outcome a name.
#[verifier::external_body]
pub(crate) fn read_change(seed: &[u8; 32], fragment: &[u8]) -> (r: Option<Coin>)
    ensures
        r == change_paid(seed@, fragment@),
{
    let Transaction::Standard(stx) = tagged_deserialize::<UnprovenTransaction>(fragment).ok()? else {
        return None;
    };
    let offer = stx.guaranteed_coins?;
    let output = offer.outputs.iter().next()?;
    let info = SecretKeys::from(Seed::from(*seed)).try_decrypt(output.ciphertext.as_ref()?)?;
    let token = TokenType::from_bytes(&info.type_.0.0)?;
    Some(Coin { value: info.value, token, nonce: Nonce::from_bytes(&info.nonce.0.0)? })
}

} // verus!
