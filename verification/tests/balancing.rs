use midnight_base_crypto::signatures::Signature;
use midnight_ledger::structure::{
    ProofMarker, StandardTransaction, Transaction, INITIAL_PARAMETERS,
};
use midnight_serialize::tagged_serialize;
use midnight_storage::db::InMemoryDB;
use midnight_storage::storage::HashMap;
use midnight_transient_crypto::commitment::PedersenRandomness;
use paymaster::balancing::{
    assemble, check_transaction, conclude, decode_payload, decode_transaction, describe,
    fee_with_overhead, ledger_outcome, merge_fragments, plan_change, refusal, required_fee,
    reserve, reserve_for_transaction, submission_from, ZSWAP_COST_ESTIMATION,
};
use paymaster::coin::{Coin, Nonce, Nullifier, OwnedCoin, TokenType};
use paymaster::error::Error;
use paymaster::wallet::{PublicKeys, WalletState};

type Tx = Transaction<Signature, ProofMarker, PedersenRandomness, InMemoryDB>;

fn transaction(network: &str, randomness: u64) -> Tx {
    Transaction::Standard(StandardTransaction {
        network_id: network.to_string(),
        intents: HashMap::new(),
        guaranteed_coins: None,
        fallible_coins: HashMap::new(),
        binding_randomness: PedersenRandomness::from(randomness),
    })
}

fn encoded(tx: &Tx) -> Vec<u8> {
    let mut out = Vec::new();
    tagged_serialize(tx, &mut out).unwrap();
    out
}

fn coin(n: u128, value: u128) -> OwnedCoin {
    OwnedCoin {
        nullifier: Nullifier { hi: 0, lo: n },
        coin: Coin { value, token: TokenType::native(), nonce: Nonce { hi: 0, lo: n } },
    }
}

fn wallet_of(coins: Vec<OwnedCoin>) -> WalletState {
    let keys = PublicKeys { coin_public_key: vec![], enc_public_key: vec![] };
    WalletState::from_parts(coins, vec![], keys).unwrap()
}

#[test]
fn payload_must_be_hexadecimal() {
    assert_eq!(decode_payload("00ff10").unwrap(), vec![0, 255, 16]);
    let r = decode_payload("0x12");
    assert!(matches!(r, Err(Error::BadRequest(m)) if m == "Transaction payload is not valid hex"));
    assert!(decode_payload("abc").is_err());
}

#[test]
fn refusal_reports_the_reason_of_the_ledger() {
    assert!(refusal(None).is_ok());
    let r = refusal(Some("unexpected end".to_string()));
    assert!(matches!(r, Err(Error::BadRequest(m)) if m == "Invalid transaction. Error: unexpected end"));
}

#[test]
fn transactions_of_the_ledger_are_accepted() {
    let bytes = encoded(&transaction("undeployed", 5));
    assert!(check_transaction(&bytes).is_ok());
    assert_eq!(decode_transaction(&hex::encode(&bytes)).unwrap(), bytes);
}

#[test]
fn other_bytes_are_refused_as_invalid_transactions() {
    let r = check_transaction(&[1, 2, 3]);
    assert!(matches!(r, Err(Error::BadRequest(m)) if m.starts_with("Invalid transaction. Error: ")));
    let mut bytes = encoded(&transaction("undeployed", 5));
    bytes.push(0);
    assert!(check_transaction(&bytes).is_err());
    let r = decode_transaction("010203");
    assert!(matches!(r, Err(Error::BadRequest(m)) if m.starts_with("Invalid transaction. Error: ")));
    let r = decode_transaction("01020");
    assert!(matches!(r, Err(Error::BadRequest(m)) if m == "Transaction payload is not valid hex"));
}

#[test]
fn fee_adds_the_fixed_estimate_to_the_cost() {
    assert_eq!(ZSWAP_COST_ESTIMATION, 40000);
    assert_eq!(fee_with_overhead(Ok(0)).unwrap(), 40000);
    assert_eq!(fee_with_overhead(Ok(123)).unwrap(), 40123);
    assert_eq!(fee_with_overhead(Ok(u128::MAX - 40000)).unwrap(), u128::MAX);
    let r = fee_with_overhead(Ok(u128::MAX - 39999));
    assert!(matches!(r, Err(Error::InternalError(m)) if m == "Fee estimate is out of range"));
    let r = fee_with_overhead(Err("block limit exceeded".to_string()));
    assert!(matches!(r, Err(Error::InternalError(m)) if m == "block limit exceeded"));
}

#[test]
fn required_fee_is_the_fee_of_the_ledger_and_the_estimate() {
    let tx = transaction("undeployed", 5);
    let expected = tx.fees(&INITIAL_PARAMETERS, false).unwrap() + 40000;
    assert_eq!(required_fee(&encoded(&tx)).unwrap(), expected);
    assert!(matches!(required_fee(&[9, 9]), Err(Error::InternalError(_))));
}

#[test]
fn ledger_failures_are_internal_errors() {
    assert_eq!(ledger_outcome(Ok(vec![1, 2])).unwrap(), vec![1, 2]);
    let r = ledger_outcome(Err("cannot merge".to_string()));
    assert!(matches!(r, Err(Error::InternalError(m)) if m == "cannot merge"));
}

#[test]
fn fragments_are_merged_first_to_last() {
    let a = transaction("undeployed", 5);
    let b = transaction("undeployed", 7);
    let c = transaction("undeployed", 11);
    let expected = encoded(&a.merge(&b).unwrap().merge(&c).unwrap());
    let merged = merge_fragments(&vec![encoded(&a), encoded(&b), encoded(&c)]).unwrap();
    assert_eq!(merged, expected);
    assert_ne!(merged, encoded(&a));
    assert_eq!(merged, encoded(&transaction("undeployed", 23)));
    assert_eq!(merge_fragments(&vec![encoded(&a)]).unwrap(), encoded(&a));
}

#[test]
fn merging_nothing_or_what_does_not_fit_is_an_internal_error() {
    let r = merge_fragments(&vec![]);
    assert!(matches!(r, Err(Error::InternalError(m)) if m == "pre-computed proofs are empty"));
    let a = transaction("undeployed", 5);
    let b = transaction("testnet", 7);
    let reason = a.merge(&b).unwrap_err().to_string();
    let r = merge_fragments(&vec![encoded(&a), encoded(&b), encoded(&a)]);
    assert!(matches!(r, Err(Error::InternalError(m)) if m == reason));
    assert!(matches!(merge_fragments(&vec![encoded(&a), vec![1]]), Err(Error::InternalError(_))));
}

#[test]
fn balanced_transaction_is_inputs_then_change_then_the_callers() {
    let inputs = transaction("undeployed", 5);
    let change = transaction("undeployed", 7);
    let unbalanced = transaction("undeployed", 100);
    let expected = encoded(&inputs.merge(&change).unwrap().merge(&unbalanced).unwrap());
    let r = assemble(&encoded(&inputs), &encoded(&change), &encoded(&unbalanced)).unwrap();
    assert_eq!(r, expected);
    let foreign = transaction("testnet", 1);
    let r = assemble(&encoded(&inputs), &encoded(&foreign), &encoded(&unbalanced));
    assert!(matches!(r, Err(Error::InternalError(_))));
    let r = assemble(&encoded(&inputs), &encoded(&change), &encoded(&foreign));
    assert!(matches!(r, Err(Error::InternalError(_))));
}

#[test]
fn submission_holds_hash_identifiers_and_payload() {
    let tx = transaction("undeployed", 5);
    let bytes = encoded(&tx);
    let s = describe(&bytes).unwrap();
    assert_eq!(s.tx_hash, hex::encode(tx.transaction_hash().0 .0));
    assert_eq!(s.tx_hash.len(), 64);
    let ids: Vec<String> = tx
        .identifiers()
        .map(|id| {
            let mut buf = Vec::new();
            tagged_serialize(&id, &mut buf).unwrap();
            hex::encode(buf)
        })
        .collect();
    assert_eq!(s.identifiers, ids);
    assert_eq!(s.payload, hex::encode(&bytes).into_bytes());
    assert!(matches!(describe(&[1, 2, 3]), Err(Error::InternalError(_))));
}

#[test]
fn submission_from_writes_everything_in_hexadecimal() {
    let s = submission_from(&[0xab, 0x01], Ok(vec![0xff, 0x00]), Ok(vec![vec![1], vec![2, 3]])).unwrap();
    assert_eq!(s.tx_hash, "ff00");
    assert_eq!(s.identifiers, vec!["01".to_string(), "0203".to_string()]);
    assert_eq!(s.payload, b"ab01".to_vec());
    let r = submission_from(&[1], Err("no hash".to_string()), Err("no ids".to_string()));
    assert!(matches!(r, Err(Error::InternalError(m)) if m == "no hash"));
    let r = submission_from(&[1], Ok(vec![1]), Err("no ids".to_string()));
    assert!(matches!(r, Err(Error::InternalError(m)) if m == "no ids"));
}

#[test]
fn change_is_a_fee_token_coin() {
    let nonce = Nonce { hi: 4, lo: 2 };
    let plan = plan_change(60, 40, nonce).unwrap();
    assert_eq!(plan.coin, Coin { value: 60, token: TokenType::native(), nonce });
    assert_eq!(plan.fee_delta, 40);
    assert!(plan_change(0, i128::MAX as u128, nonce).is_some());
    assert!(plan_change(0, i128::MAX as u128 + 1, nonce).is_none());
}

#[test]
fn reserve_passes_on_a_missing_fee() {
    let mut w = wallet_of(vec![coin(1, 100)]);
    let r = reserve(&mut w, Err(Error::internal("no cost")));
    assert!(matches!(r, Err(Error::InternalError(m)) if m == "no cost"));
    assert!(w.pending_spends().is_empty());
    let r = reserve(&mut w, Ok(40)).unwrap();
    assert_eq!(r.fees, 40);
    assert_eq!(r.selection.change, 60);
    assert_eq!(w.pending_spends(), &vec![Nullifier { hi: 0, lo: 1 }]);
    let r = reserve(&mut w, Ok(1));
    assert!(matches!(r, Err(Error::NotAvailable(m)) if m == "No funds available"));
}

#[test]
fn reservation_for_a_transaction_covers_its_fee() {
    let tx = transaction("undeployed", 5);
    let fee = tx.fees(&INITIAL_PARAMETERS, false).unwrap() + 40000;
    let mut w = wallet_of(vec![coin(1, fee - 1), coin(2, fee + 10), coin(3, 1)]);
    let r = reserve_for_transaction(&mut w, &encoded(&tx)).unwrap();
    assert_eq!(r.fees, fee);
    assert_eq!(r.selection.coins, vec![coin(2, fee + 10)]);
    assert_eq!(r.selection.change, 10);
    let mut poor = wallet_of(vec![coin(1, fee - 1)]);
    let r = reserve_for_transaction(&mut poor, &encoded(&tx));
    assert!(matches!(r, Err(Error::NotAvailable(_))));
    assert!(poor.pending_spends().is_empty());
    let r = reserve_for_transaction(&mut poor, &[0]);
    assert!(matches!(r, Err(Error::InternalError(_))));
}

#[test]
fn failed_submission_releases_the_reserved_coin() {
    let mut w = wallet_of(vec![coin(1, 100)]);
    let r = reserve(&mut w, Ok(40)).unwrap();
    assert_eq!(w.pending_spends().len(), 1);
    let outcome: Result<(), Error> = Err(Error::internal("chain said no"));
    let back = conclude(&mut w, &r.selection, outcome);
    assert!(matches!(back, Err(Error::InternalError(m)) if m == "chain said no"));
    assert!(w.pending_spends().is_empty());
    assert_eq!(w.coins(), &vec![coin(1, 100)]);
    assert_eq!(w.select_for_fee(40).unwrap().coins, vec![coin(1, 100)]);
}

#[test]
fn successful_submission_keeps_the_coins_reserved() {
    let mut w = wallet_of(vec![coin(1, 100)]);
    let r = reserve(&mut w, Ok(40)).unwrap();
    let back = conclude(&mut w, &r.selection, Ok(7));
    assert_eq!(back.unwrap(), 7);
    assert_eq!(w.pending_spends(), &vec![Nullifier { hi: 0, lo: 1 }]);
}
