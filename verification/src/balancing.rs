use vstd::prelude::*;
use vstd::string::StrSliceExecFns;
use crate::coin::{nullifiers_of, total_value, Coin, Nonce, TokenType};
use crate::error::Error;
use crate::hexcodec::{decode, encode, hex_text, hex_value, is_hex, text_bytes};
use crate::ledger::{
    amount_of, bytes_of, decode_failure, ledger_fees, ledger_hash, ledger_identifiers,
    ledger_merge, list_of, merge_transactions, read_transaction, text_of, transaction_fees,
    transaction_hash, transaction_identifiers, views,
};
use crate::seqs::copy_bytes;
use crate::wallet::{Selection, WalletModel, WalletState};

verus! {

/// What the relay adds to the cost of a transaction for the input and the
/// output with which it pays the fee.
pub const ZSWAP_COST_ESTIMATION: u128 = 40000;

/// The message for a payload that is not hexadecimal.
pub open spec fn not_hex_message() -> Seq<char> {
    "Transaction payload is not valid hex"@
}

/// The message for a payload that the ledger refuses with `reason`.
pub open spec fn invalid_message(reason: Seq<char>) -> Seq<char> {
    "Invalid transaction. Error: "@ + reason
}

/// The message for a request for which no proof was handed over.
pub open spec fn no_proofs_message() -> Seq<char> {
    "pre-computed proofs are empty"@
}

/// The message for a cost beyond which no fee can be counted.
pub open spec fn fee_range_message() -> Seq<char> {
    "Fee estimate is out of range"@
}

/// The bytes of a transaction payload: the payload is hexadecimal text.
pub fn decode_payload(tx: &str) -> (r: Result<Vec<u8>, Error>)
    ensures
        r is Ok <==> is_hex(text_bytes(tx@)),
        r matches Ok(bytes) ==> bytes@ == hex_value(text_bytes(tx@)),
        r matches Err(e) ==> e.is_bad_request(not_hex_message()),
{
    match decode(tx) {
        Some(bytes) => Ok(bytes),
        None => Err(Error::bad_request("Transaction payload is not valid hex")),
    }
}

/// Turns the ledger's refusal to read a transaction into the error that is
/// reported to the caller.
pub fn refusal(failure: Option<String>) -> (r: Result<(), Error>)
    ensures
        r is Ok <==> failure is None,
        r matches Err(e) ==> failure is Some && e.is_bad_request(
            invalid_message(failure->Some_0@),
        ),
{
    match failure {
        None => Ok(()),
        Some(reason) => Err(
            Error::BadRequest(
                String::from_str("Invalid transaction. Error: ").concat(reason.as_str()),
            ),
        ),
    }
}

/// Checks that `bytes` encode a transaction of the ledger.
pub fn check_transaction(bytes: &[u8]) -> (r: Result<(), Error>)
    ensures
        r is Ok <==> decode_failure(bytes@) is None,
        r matches Err(e) ==> decode_failure(bytes@) is Some && e.is_bad_request(
            invalid_message(decode_failure(bytes@)->Some_0),
        ),
{
    refusal(read_transaction(bytes))
}

/// Reads the transaction that a caller submitted: hexadecimal text that
/// holds the encoding of a transaction. The result is that encoding.
pub fn decode_transaction(tx: &str) -> (r: Result<Vec<u8>, Error>)
    ensures
        r is Ok <==> is_hex(text_bytes(tx@)) && decode_failure(hex_value(text_bytes(tx@)))
            is None,
        r matches Ok(bytes) ==> bytes@ == hex_value(text_bytes(tx@)),
        r matches Err(e) ==> if is_hex(text_bytes(tx@)) {
            decode_failure(hex_value(text_bytes(tx@))) is Some && e.is_bad_request(
                invalid_message(decode_failure(hex_value(text_bytes(tx@)))->Some_0),
            )
        } else {
            e.is_bad_request(not_hex_message())
        },
{
    let bytes = decode_payload(tx)?;
    match check_transaction(bytes.as_slice()) {
        Ok(()) => Ok(bytes),
        Err(e) => Err(e),
    }
}

/// The fee that the relay requires for a transaction of the cost `cost`:
/// the cost and the fixed estimate for paying it. There is none, but a
/// reason, where the ledger gave no cost, or one so large that the sum does
/// not fit.
pub open spec fn required(cost: Result<u128, Seq<char>>) -> Result<u128, Seq<char>> {
    match cost {
        Ok(c) => if c + ZSWAP_COST_ESTIMATION <= u128::MAX {
            Ok((c + ZSWAP_COST_ESTIMATION) as u128)
        } else {
            Err(fee_range_message())
        },
        Err(reason) => Err(reason),
    }
}

/// Whether `r` reports the fee `fee`: the fee itself, or an internal error
/// with the reason for which there is none.
pub open spec fn is_required_fee(fee: Result<u128, Seq<char>>, r: Result<u128, Error>) -> bool {
    match fee {
        Ok(f) => r == Ok::<u128, Error>(f),
        Err(reason) => r is Err && r->Err_0.is_internal(reason),
    }
}

/// The fee that the relay requires for a transaction, from what the ledger
/// said of its cost.
pub fn fee_with_overhead(cost: Result<u128, String>) -> (r: Result<u128, Error>)
    ensures
        is_required_fee(required(amount_of(cost)), r),
{
    match cost {
        Ok(c) => match c.checked_add(ZSWAP_COST_ESTIMATION) {
            Some(fee) => Ok(fee),
            None => Err(Error::internal("Fee estimate is out of range")),
        },
        Err(reason) => Err(Error::InternalError(reason)),
    }
}

/// The fee that the relay requires for the transaction encoded in `tx`.
pub fn required_fee(tx: &[u8]) -> (r: Result<u128, Error>)
    ensures
        is_required_fee(required(ledger_fees(tx@)), r),
{
    fee_with_overhead(transaction_fees(tx))
}

/// Whether `r` reports what the ledger made of an encoding: the bytes, or
/// an internal error with the ledger's reason.
pub open spec fn is_ledger_outcome(made: Result<Seq<u8>, Seq<char>>, r: Result<Vec<u8>, Error>) -> bool {
    match made {
        Ok(bytes) => r is Ok && r->Ok_0@ == bytes,
        Err(reason) => r is Err && r->Err_0.is_internal(reason),
    }
}

/// Reports what the ledger made of an encoding: a failure of the ledger is
/// an internal error.
pub fn ledger_outcome(made: Result<Vec<u8>, String>) -> (r: Result<Vec<u8>, Error>)
    ensures
        is_ledger_outcome(bytes_of(made), r),
{
    match made {
        Ok(bytes) => Ok(bytes),
        Err(reason) => Err(Error::InternalError(reason)),
    }
}

/// What the ledger merges from `fragments`, first to last; of a single
/// fragment, the fragment itself. The first failure ends the merge.
pub open spec fn merged_all(fragments: Seq<Seq<u8>>) -> Result<Seq<u8>, Seq<char>>
    recommends
        fragments.len() > 0,
    decreases fragments.len(),
{
    if fragments.len() <= 1 {
        Ok(fragments[0])
    } else {
        match merged_all(fragments.drop_last()) {
            Ok(merged) => ledger_merge(merged, fragments.last()),
            Err(reason) => Err(reason),
        }
    }
}

/// Once a merge has failed, more fragments change nothing.
proof fn lemma_merge_failure_stays(fragments: Seq<Seq<u8>>, upto: int)
    requires
        0 < upto <= fragments.len(),
        merged_all(fragments.take(upto)) is Err,
    ensures
        merged_all(fragments) == merged_all(fragments.take(upto)),
    decreases fragments.len() - upto,
{
    if upto == fragments.len() {
        assert(fragments.take(upto) =~= fragments);
    } else {
        assert(fragments.take(upto + 1).drop_last() =~= fragments.take(upto));
        lemma_merge_failure_stays(fragments, upto + 1);
    }
}

/// Merges the proven spend fragments of the chosen coins into one fragment
/// that spends all of them. Without fragments there is nothing to merge:
/// that is an internal error, and so is a merge that the ledger refuses.
pub fn merge_fragments(fragments: &Vec<Vec<u8>>) -> (r: Result<Vec<u8>, Error>)
    ensures
        fragments.len() == 0 ==> r is Err && r->Err_0.is_internal(no_proofs_message()),
        fragments.len() > 0 ==> is_ledger_outcome(merged_all(views(fragments@)), r),
{
    if fragments.len() == 0 {
        return Err(Error::internal("pre-computed proofs are empty"));
    }
    let ghost all = views(fragments@);
    let mut merged = copy_bytes(&fragments[0]);
    let mut i: usize = 1;
    assert(all.take(1) =~= seq![fragments[0]@]);
    while i < fragments.len()
        invariant
            0 < i <= fragments.len(),
            all == views(fragments@),
            merged_all(all.take(i as int)) == Ok::<Seq<u8>, Seq<char>>(merged@),
        decreases fragments.len() - i,
    {
        proof {
            assert(all.take(i + 1).drop_last() =~= all.take(i as int));
            assert(all.take(i + 1).last() == fragments[i as int]@);
        }
        match merge_transactions(merged.as_slice(), fragments[i].as_slice()) {
            Ok(next) => {
                merged = next;
            },
            Err(reason) => {
                proof {
                    lemma_merge_failure_stays(all, i + 1);
                }
                return Err(Error::InternalError(reason));
            },
        }
        i += 1;
    }
    assert(all.take(fragments.len() as int) =~= all);
    Ok(merged)
}

/// What pays the change back to the wallet: the coin of the change output,
/// and the amount by which the relay's part of the transaction is out of
/// balance, which is the fee.
#[derive(Clone, Copy, Debug, PartialEq, Eq, Structural)]
pub struct ChangePlan {
    pub coin: Coin,
    pub fee_delta: i128,
}

/// Plans the change output for coins that are worth `change` more than the
/// fee `fees`: a coin of the fee token worth `change`, with the fresh
/// `nonce`. There is no plan for a fee beyond the largest balance that the
/// ledger can state.
pub fn plan_change(change: u128, fees: u128, nonce: Nonce) -> (r: Option<ChangePlan>)
    ensures
        r is Some <==> fees <= i128::MAX,
        r matches Some(plan) ==> plan.coin == (Coin {
            value: change,
            token: TokenType::spec_native(),
            nonce,
        }) && plan.fee_delta == fees,
{
    if fees <= 0x7fff_ffff_ffff_ffff_ffff_ffff_ffff_ffffu128 {
        Some(
            ChangePlan {
                coin: Coin { value: change, token: TokenType::native(), nonce },
                fee_delta: fees as i128,
            },
        )
    } else {
        None
    }
}

/// What the ledger makes of the three parts of a balanced transaction: the
/// fragment that spends the chosen coins, merged with the change output,
/// merged with the caller's transaction.
pub open spec fn assembled(inputs: Seq<u8>, change: Seq<u8>, unbalanced: Seq<u8>) -> Result<
    Seq<u8>,
    Seq<char>,
> {
    match ledger_merge(inputs, change) {
        Ok(paid) => ledger_merge(paid, unbalanced),
        Err(reason) => Err(reason),
    }
}

/// Assembles the balanced transaction: the fragment that spends the chosen
/// coins, the change output and the caller's transaction, merged in that
/// order. A merge that the ledger refuses is an internal error.
pub fn assemble(inputs: &[u8], change: &[u8], unbalanced: &[u8]) -> (r: Result<Vec<u8>, Error>)
    ensures
        is_ledger_outcome(assembled(inputs@, change@, unbalanced@), r),
{
    let paid = ledger_outcome(merge_transactions(inputs, change))?;
    ledger_outcome(merge_transactions(paid.as_slice(), unbalanced))
}

/// What is handed to the chain and reported to the caller for a balanced
/// transaction.
#[derive(Debug)]
pub struct Submission {
    /// The hash of the transaction, in hexadecimal.
    pub tx_hash: String,
    /// The identifiers of the transaction, each in hexadecimal.
    pub identifiers: Vec<String>,
    /// What the extrinsic carries: the hexadecimal text of the encoded
    /// transaction, as bytes.
    pub payload: Vec<u8>,
}

/// The hexadecimal texts of `items`.
pub open spec fn hex_texts(items: Seq<Seq<u8>>) -> Seq<Seq<char>> {
    Seq::new(items.len(), |i: int| hex_text(items[i]))
}

/// The views of a list of texts.
pub open spec fn text_views(items: Seq<String>) -> Seq<Seq<char>> {
    Seq::new(items.len(), |i: int| items[i]@)
}

/// Whether `r` is what is submitted for the transaction encoded in
/// `final_tx`, given the hash and the identifiers that the ledger has for
/// it. A failure of the ledger is an internal error; that of the hash comes
/// first.
pub open spec fn is_submission(
    final_tx: Seq<u8>,
    hash: Result<Seq<u8>, Seq<char>>,
    identifiers: Result<Seq<Seq<u8>>, Seq<char>>,
    r: Result<Submission, Error>,
) -> bool {
    match hash {
        Err(reason) => r is Err && r->Err_0.is_internal(reason),
        Ok(h) => match identifiers {
            Err(reason) => r is Err && r->Err_0.is_internal(reason),
            Ok(ids) => {
                &&& r is Ok
                &&& r->Ok_0.tx_hash@ == hex_text(h)
                &&& text_views(r->Ok_0.identifiers@) == hex_texts(ids)
                &&& r->Ok_0.payload@ == text_bytes(hex_text(final_tx))
            },
        },
    }
}

/// What is submitted for the transaction encoded in `final_tx`, from the
/// hash and the identifiers that the ledger gave for it.
pub fn submission_from(
    final_tx: &[u8],
    hash: Result<Vec<u8>, String>,
    identifiers: Result<Vec<Vec<u8>>, String>,
) -> (r: Result<Submission, Error>)
    ensures
        is_submission(final_tx@, bytes_of(hash), list_of(identifiers), r),
{
    let h = match hash {
        Ok(h) => h,
        Err(reason) => {
            return Err(Error::InternalError(reason));
        },
    };
    let ids = match identifiers {
        Ok(ids) => ids,
        Err(reason) => {
            return Err(Error::InternalError(reason));
        },
    };
    let mut texts: Vec<String> = Vec::new();
    let mut i: usize = 0;
    while i < ids.len()
        invariant
            i <= ids.len(),
            texts.len() == i,
            forall|k: int| 0 <= k < i ==> (#[trigger] texts[k])@ == hex_text(ids[k]@),
        decreases ids.len() - i,
    {
        texts.push(encode(ids[i].as_slice()));
        i += 1;
    }
    let payload = encode(final_tx).as_str().as_bytes_vec();
    let tx_hash = encode(h.as_slice());
    assert(text_views(texts@) =~= hex_texts(views(ids@)));
    Ok(Submission { tx_hash, identifiers: texts, payload })
}

/// What is submitted for the balanced transaction encoded in `final_tx`:
/// its hash and its identifiers in hexadecimal, and the payload of the
/// extrinsic.
pub fn describe(final_tx: &[u8]) -> (r: Result<Submission, Error>)
    ensures
        is_submission(final_tx@, ledger_hash(final_tx@), ledger_identifiers(final_tx@), r),
{
    submission_from(final_tx, transaction_hash(final_tx), transaction_identifiers(final_tx))
}

/// The fee reserved for a transaction and the coins that pay it.
#[derive(Debug)]
pub struct Reservation {
    pub fees: u128,
    pub selection: Selection,
}

/// Whether `r` and the wallet `after` are what reserving the fee `fee` in
/// the wallet `before` gives: the coins chosen largest first and reserved,
/// with their worth beyond the fee; or, where the funds fall short of the
/// fee, the report of that and the wallet as it was.
pub open spec fn is_reservation(
    before: WalletModel,
    fee: u128,
    after: WalletModel,
    r: Result<Reservation, Error>,
) -> bool {
    &&& r is Err <==> before.available() < fee
    &&& r matches Err(e) ==> e.is_not_available("No funds available"@) && after == before
    &&& r matches Ok(res) ==> {
        &&& res.fees == fee
        &&& before.is_fee_selection(res.selection.coins@, fee as nat)
        &&& res.selection.change == total_value(res.selection.coins@) - fee
        &&& after == before.reserve(nullifiers_of(res.selection.coins@))
    }
}

/// Reserves the coins that pay the fee `fee`, where `fee` was found; the
/// wallet stays as it is where it was not, or where the funds fall short.
pub fn reserve(wallet: &mut WalletState, fee: Result<u128, Error>) -> (r: Result<
    Reservation,
    Error,
>)
    requires
        old(wallet).wf(),
    ensures
        final(wallet).wf(),
        match fee {
            Err(e) => r is Err && r->Err_0 == e && final(wallet)@ == old(wallet)@,
            Ok(f) => is_reservation(old(wallet)@, f, final(wallet)@, r),
        },
{
    match fee {
        Err(e) => Err(e),
        Ok(f) => {
            let selection = wallet.reserve_for_fee(f)?;
            Ok(Reservation { fees: f, selection })
        },
    }
}

/// Reserves the coins that pay for the transaction encoded in `unbalanced`:
/// the fee is what the ledger asks for it and the fixed estimate for paying
/// it, and the coins are chosen largest first. Nothing is reserved where
/// the fee cannot be found, which is an internal error, or where the funds
/// fall short of it.
pub fn reserve_for_transaction(wallet: &mut WalletState, unbalanced: &[u8]) -> (r: Result<
    Reservation,
    Error,
>)
    requires
        old(wallet).wf(),
    ensures
        final(wallet).wf(),
        match required(ledger_fees(unbalanced@)) {
            Err(reason) => r is Err && r->Err_0.is_internal(reason) && final(wallet)@ == old(wallet)@,
            Ok(f) => is_reservation(old(wallet)@, f, final(wallet)@, r),
        },
{
    reserve(wallet, required_fee(unbalanced))
}

/// Ends a balancing request. Where it failed after the coins were
/// reserved, whatever the failure, the coins are handed back, so that a
/// later request can choose them; the coins themselves are not spent. Where
/// it succeeded the coins stay reserved until the ledger shows them spent.
pub fn conclude<T>(wallet: &mut WalletState, selection: &Selection, outcome: Result<T, Error>) -> (r:
    Result<T, Error>)
    requires
        old(wallet).wf(),
    ensures
        final(wallet).wf(),
        r == outcome,
        outcome is Ok ==> final(wallet)@ == old(wallet)@,
        outcome is Err ==> final(wallet)@ == old(wallet)@.release(nullifiers_of(selection.coins@)),
{
    if outcome.is_err() {
        let ids = selection.nullifiers();
        wallet.release(&ids);
    }
    outcome
}

} // verus!
