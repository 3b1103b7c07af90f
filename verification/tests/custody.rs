use midnight_base_crypto::signatures::Signature;
use midnight_coin_structure::coin::{Info, Nonce as LedgerNonce, ShieldedTokenType};
use midnight_base_crypto::hash::HashOutput;
use midnight_ledger::structure::{ProofMarker, StandardTransaction, Transaction};
use midnight_serialize::tagged_serialize;
use midnight_storage::arena::Sp;
use midnight_storage::db::InMemoryDB;
use midnight_storage::storage::HashMap;
use midnight_transient_crypto::commitment::PedersenRandomness;
use midnight_transient_crypto::proofs::Proof;
use midnight_zswap::keys::{SecretKeys, Seed};
use midnight_zswap::{Offer, Output};
use paymaster::coin::{Nullifier, TokenType};
use paymaster::custody::{
    accept_change, accept_spend, change_transaction, fold_transaction, in_segment_order,
    prepare_spend, reserve_in_ledger, rollback, spend_all, transaction_offers,
};
use paymaster::coin::{Coin, Nonce};
use paymaster::zswap::Spent;
use paymaster::error::Error;
use paymaster::wallet::PublicKeys;
use paymaster::zswap::LocalState;
use rand::rngs::OsRng;
use std::sync::Arc;

type Tx = Transaction<Signature, ProofMarker, PedersenRandomness, InMemoryDB>;

const SEED: [u8; 32] = [7; 32];

fn no_keys() -> PublicKeys {
    PublicKeys { coin_public_key: vec![], enc_public_key: vec![] }
}

fn output_for(seed: [u8; 32], value: u128, nonce: u8, token: u8) -> Output<Proof, InMemoryDB> {
    let keys = SecretKeys::from(Seed::from(seed));
    let info = Info {
        nonce: LedgerNonce(HashOutput([nonce; 32])),
        type_: ShieldedTokenType(HashOutput([token; 32])),
        value,
    };
    let unproven = Output::<_, InMemoryDB>::new(
        &mut OsRng,
        &info,
        None,
        &keys.coin_public_key(),
        Some(keys.enc_public_key()),
    )
    .unwrap();
    Output {
        coin_com: unproven.coin_com,
        value_commitment: unproven.value_commitment,
        contract_address: unproven.contract_address.clone(),
        ciphertext: unproven.ciphertext.clone(),
        proof: Arc::new(Proof(vec![])),
    }
}

fn paying(outputs: Vec<Output<Proof, InMemoryDB>>) -> Offer<Proof, InMemoryDB> {
    let mut outputs = outputs;
    outputs.sort();
    Offer {
        inputs: Vec::new().into_iter().collect(),
        outputs: outputs.into_iter().collect(),
        transient: Vec::new().into_iter().collect(),
        deltas: Vec::new().into_iter().collect(),
    }
}

fn transaction(guaranteed: Option<Offer<Proof, InMemoryDB>>, fallible: Vec<Offer<Proof, InMemoryDB>>) -> Vec<u8> {
    let mut segments = HashMap::new();
    for (i, offer) in fallible.into_iter().enumerate() {
        segments = segments.insert(i as u16 + 1, offer);
    }
    let tx: Tx = Transaction::Standard(StandardTransaction {
        network_id: "undeployed".to_string(),
        intents: HashMap::new(),
        guaranteed_coins: guaranteed.map(Sp::new),
        fallible_coins: segments,
        binding_randomness: PedersenRandomness::from(0u64),
    });
    let mut out = Vec::new();
    tagged_serialize(&tx, &mut out).unwrap();
    out
}

fn funded(values: &[u128]) -> LocalState {
    let outputs = values
        .iter()
        .enumerate()
        .map(|(i, v)| output_for(SEED, *v, i as u8 + 1, 0))
        .collect();
    let tx = transaction(Some(paying(outputs)), vec![]);
    let empty = LocalState::new();
    fold_transaction(&empty, &empty, &SEED, &tx).unwrap().confirmed
}

fn values_of(state: &LocalState) -> Vec<u128> {
    let mut v: Vec<u128> = state.snapshot(no_keys()).coins().iter().map(|c| c.coin.value).collect();
    v.sort();
    v
}

#[test]
fn new_state_holds_nothing() {
    let w = LocalState::new().snapshot(PublicKeys { coin_public_key: vec![1], enc_public_key: vec![2] });
    assert!(w.coins().is_empty());
    assert!(w.pending_spends().is_empty());
    assert_eq!(w.keys().coin_public_key, vec![1]);
    assert_eq!(w.keys().enc_public_key, vec![2]);
}

#[test]
fn folding_a_payment_gives_the_wallet_its_coins() {
    let empty = LocalState::new();
    let tx = transaction(
        Some(paying(vec![output_for(SEED, 10, 1, 0), output_for(SEED, 5, 2, 0)])),
        vec![paying(vec![output_for(SEED, 3, 3, 0)])],
    );
    assert_eq!(transaction_offers(&tx).unwrap().len(), 2);
    let folded = fold_transaction(&empty, &empty, &SEED, &tx).unwrap();
    assert!(folded.persist);
    assert_eq!(values_of(&folded.confirmed), vec![3, 5, 10]);
    assert_eq!(values_of(&folded.unconfirmed), vec![3, 5, 10]);
    let w = folded.confirmed.snapshot(no_keys());
    assert!(w.coins().iter().all(|c| c.coin.token == TokenType::native()));
    assert!(w.pending_spends().is_empty());
}

#[test]
fn fallible_offers_are_applied_in_ascending_order_of_their_segments() {
    let offers: Vec<Offer<Proof, InMemoryDB>> =
        (0..6u8).map(|i| paying(vec![output_for(SEED, 10 + i as u128, 20 + i, 0)])).collect();
    let expected: Vec<Vec<u8>> = offers
        .iter()
        .map(|offer| {
            let mut out = Vec::new();
            tagged_serialize(offer, &mut out).unwrap();
            out
        })
        .collect();
    // Segment i + 1 holds the offer i.
    let tx = transaction(None, offers);
    assert_eq!(transaction_offers(&tx).unwrap(), expected);
}

#[test]
fn payments_to_other_keys_change_nothing_and_are_not_persisted() {
    let state = funded(&[10]);
    let tx = transaction(Some(paying(vec![output_for([9; 32], 50, 4, 0)])), vec![]);
    let folded = fold_transaction(&state, &state, &SEED, &tx).unwrap();
    assert!(!folded.persist);
    assert_eq!(values_of(&folded.confirmed), vec![10]);
    let nothing = transaction(None, vec![]);
    assert!(transaction_offers(&nothing).unwrap().is_empty());
    assert!(!fold_transaction(&state, &state, &SEED, &nothing).unwrap().persist);
}

#[test]
fn unreadable_transaction_ends_the_fold() {
    let state = LocalState::new();
    assert!(matches!(fold_transaction(&state, &state, &SEED, &[1, 2, 3]), Err(Error::InternalError(_))));
    assert!(matches!(transaction_offers(&[]), Err(Error::InternalError(_))));
}

#[test]
fn reservation_in_the_ledger_takes_the_largest_coins() {
    let state = funded(&[10, 5, 3, 1]);
    let res = reserve_in_ledger(&state, &SEED, 12).unwrap();
    let picked: Vec<u128> = res.selection.coins.iter().map(|c| c.coin.value).collect();
    assert_eq!(picked, vec![10, 5]);
    assert_eq!(res.selection.change, 3);
    assert_eq!(res.inputs.len(), 2);
    let after = res.state.snapshot(no_keys());
    assert_eq!(after.coins().len(), 4);
    let mut pending = after.pending_spends().clone();
    let mut expected = res.selection.nullifiers();
    pending.sort_by_key(|n| (n.hi, n.lo));
    expected.sort_by_key(|n| (n.hi, n.lo));
    assert_eq!(pending, expected);
    // The state that was handed in is as it was.
    assert!(state.snapshot(no_keys()).pending_spends().is_empty());
    // What is reserved is not chosen again.
    let second = reserve_in_ledger(&res.state, &SEED, 4).unwrap();
    let picked: Vec<u128> = second.selection.coins.iter().map(|c| c.coin.value).collect();
    assert_eq!(picked, vec![3, 1]);
    assert!(matches!(reserve_in_ledger(&second.state, &SEED, 1), Err(Error::NotAvailable(_))));
}

#[test]
fn reservation_reports_insufficient_funds() {
    let state = funded(&[10, 5]);
    let r = reserve_in_ledger(&state, &SEED, 16);
    assert!(matches!(r, Err(Error::NotAvailable(m)) if m == "No funds available"));
}

#[test]
fn rollback_in_the_ledger_frees_the_coin() {
    let state = funded(&[100]);
    let res = reserve_in_ledger(&state, &SEED, 40).unwrap();
    assert_eq!(res.selection.change, 60);
    assert_eq!(res.state.snapshot(no_keys()).pending_spends().len(), 1);
    let back = rollback(&res.state, &res.inputs).unwrap();
    let w = back.snapshot(no_keys());
    assert!(w.pending_spends().is_empty());
    assert_eq!(w.coins().len(), 1);
    assert_eq!(w.select_for_fee(40).unwrap().coins[0].coin.value, 100);
    assert!(matches!(rollback(&res.state, &vec![vec![1, 2]]), Err(Error::InternalError(_))));
}

#[test]
fn spending_an_unknown_coin_is_an_internal_error() {
    let state = funded(&[100]);
    let mut stranger = state.snapshot(no_keys()).coins()[0];
    stranger.nullifier = Nullifier { hi: 1, lo: 2 };
    assert!(matches!(spend_all(&state, &SEED, &vec![stranger]), Err(Error::InternalError(_))));
    let r = prepare_spend(&state, &SEED, Nullifier { hi: 1, lo: 2 }, "undeployed");
    assert!(matches!(r, Err(Error::InternalError(_))));
}

#[test]
fn spending_with_other_keys_is_refused() {
    let state = funded(&[100]);
    let coin = state.snapshot(no_keys()).coins()[0];
    let r = spend_all(&state, &[8; 32], &vec![coin]);
    assert!(matches!(r, Err(Error::InternalError(m)) if m == "Coin does not belong to the keys of the wallet"));
}

#[test]
fn prepared_spend_is_a_transaction_fragment() {
    let state = funded(&[100, 7]);
    let coin = state.snapshot(no_keys()).coins()[0];
    let (after, fragment) = prepare_spend(&state, &SEED, coin.nullifier, "undeployed").unwrap();
    assert_eq!(after.snapshot(no_keys()).pending_spends(), &vec![coin.nullifier]);
    assert!(!fragment.is_empty());
    let read: Transaction<Signature, midnight_ledger::structure::ProofPreimageMarker, PedersenRandomness, InMemoryDB> =
        midnight_serialize::tagged_deserialize(&fragment[..]).unwrap();
    match read {
        Transaction::Standard(stx) => {
            let offer = stx.guaranteed_coins.unwrap();
            assert_eq!(offer.inputs.iter().count(), 1);
            assert_eq!(offer.outputs.iter().count(), 0);
            assert_eq!(Nullifier::from_bytes(&offer.inputs.iter().next().unwrap().nullifier.0 .0).unwrap(), coin.nullifier);
        }
        _ => panic!("a standard transaction"),
    }
}

#[test]
fn change_is_an_output_to_the_wallet() {
    let fragment = change_transaction(&SEED, 60, 40, "undeployed").unwrap();
    let read: Transaction<Signature, midnight_ledger::structure::ProofPreimageMarker, PedersenRandomness, InMemoryDB> =
        midnight_serialize::tagged_deserialize(&fragment[..]).unwrap();
    match read {
        Transaction::Standard(stx) => {
            let offer = stx.guaranteed_coins.unwrap();
            assert_eq!(offer.inputs.iter().count(), 0);
            assert_eq!(offer.outputs.iter().count(), 1);
            let deltas: Vec<i128> = offer.deltas.iter().map(|d| d.value).collect();
            assert_eq!(deltas, vec![40]);
            let keys = SecretKeys::from(Seed::from(SEED));
            let coin = keys.try_decrypt(offer.outputs.iter().next().unwrap().ciphertext.as_ref().unwrap()).unwrap();
            assert_eq!(coin.value, 60);
            assert_eq!(coin.type_, ShieldedTokenType(HashOutput([0; 32])));
        }
        _ => panic!("a standard transaction"),
    }
    let r = change_transaction(&SEED, 60, i128::MAX as u128 + 1, "undeployed");
    assert!(matches!(r, Err(Error::InternalError(m)) if m == "Fee estimate is out of range"));
}

#[test]
fn state_survives_encoding() {
    let state = funded(&[10, 5]);
    let bytes = state.encode().unwrap();
    let back = LocalState::decode(&bytes).unwrap();
    assert_eq!(values_of(&back), vec![5, 10]);
    assert_eq!(values_of(&state.duplicate()), vec![5, 10]);
    assert!(matches!(LocalState::decode(&[1, 2, 3]), Err(Error::InternalError(_))));
}

#[test]
fn decoding_reports_the_reason_of_the_ledger() {
    let reason = midnight_serialize::tagged_deserialize::<midnight_zswap::local::State<InMemoryDB>>(&[1u8, 2, 3][..])
        .unwrap_err()
        .to_string();
    let r = LocalState::decode(&[1, 2, 3]);
    assert!(matches!(r, Err(Error::InternalError(m)) if m == reason));
}

#[test]
fn encoding_is_that_of_the_ledger() {
    let mut expected = Vec::new();
    tagged_serialize(&midnight_zswap::local::State::<InMemoryDB>::new(), &mut expected).unwrap();
    assert_eq!(LocalState::new().encode().unwrap(), expected);
    let state = funded(&[10, 5]);
    let bytes = state.encode().unwrap();
    assert_ne!(bytes, expected);
    assert_eq!(state.encode().unwrap(), bytes);
    assert_eq!(LocalState::decode(&bytes).unwrap().encode().unwrap(), bytes);
}

#[test]
fn refused_spend_is_reported_with_the_reason() {
    let r = accept_spend(Nullifier { hi: 0, lo: 1 }, Err("tree not rehashed".to_string()));
    assert!(matches!(r, Err(Error::InternalError(m)) if m == "tree not rehashed"));
}

#[test]
fn spend_of_another_coin_is_not_accepted() {
    let wanted = Nullifier { hi: 0, lo: 1 };
    let other = Spent { state: LocalState::new(), nullifier: Nullifier { hi: 0, lo: 2 }, input: vec![] };
    let r = accept_spend(wanted, Ok(other));
    assert!(matches!(r, Err(Error::InternalError(m)) if m == "Coin does not belong to the keys of the wallet"));
    // The nullifier handed back is the wanted one, but the input is none.
    let unread = Spent { state: LocalState::new(), nullifier: wanted, input: vec![1, 2, 3] };
    let r = accept_spend(wanted, Ok(unread));
    assert!(matches!(r, Err(Error::InternalError(m)) if m == "Coin does not belong to the keys of the wallet"));
}

#[test]
fn spending_nothing_leaves_the_state_and_gives_no_input() {
    let state = funded(&[10]);
    let (after, inputs) = spend_all(&state, &SEED, &vec![]).unwrap();
    assert!(inputs.is_empty());
    assert!(after.snapshot(no_keys()).pending_spends().is_empty());
    assert_eq!(values_of(&after), vec![10]);
}

#[test]
fn no_fee_from_an_empty_wallet_reserves_nothing() {
    let res = reserve_in_ledger(&LocalState::new(), &SEED, 0).unwrap();
    assert!(res.selection.coins.is_empty());
    assert_eq!(res.selection.change, 0);
    assert!(res.inputs.is_empty());
}

#[test]
fn change_that_does_not_pay_the_wallet_is_not_accepted() {
    let coin = Coin { value: 60, token: TokenType::native(), nonce: Nonce { hi: 1, lo: 2 } };
    let r = accept_change(&SEED, coin, Err("no output".to_string()));
    assert!(matches!(r, Err(Error::InternalError(m)) if m == "no output"));
    let r = accept_change(&SEED, coin, Ok(vec![1, 2, 3]));
    assert!(matches!(r, Err(Error::InternalError(m)) if m == "Change output does not pay the wallet"));
    // A fragment that pays another amount, or other keys, is not accepted either.
    let fragment = change_transaction(&SEED, 61, 40, "undeployed").unwrap();
    let r = accept_change(&SEED, coin, Ok(fragment.clone()));
    assert!(matches!(r, Err(Error::InternalError(m)) if m == "Change output does not pay the wallet"));
    let r = accept_change(&[9; 32], coin, Ok(fragment));
    assert!(matches!(r, Err(Error::InternalError(m)) if m == "Change output does not pay the wallet"));
}

#[test]
fn segments_are_put_in_ascending_order() {
    let items = vec![(3u16, vec![3u8]), (1, vec![1]), (2, vec![2]), (1, vec![11]), (0, vec![0])];
    assert_eq!(in_segment_order(&items), vec![vec![0], vec![1], vec![11], vec![2], vec![3]]);
    assert!(in_segment_order(&vec![]).is_empty());
}
