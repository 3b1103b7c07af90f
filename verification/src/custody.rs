use vstd::prelude::*;
use crate::balancing::{is_ledger_outcome, ledger_outcome, plan_change};
use crate::coin::{
    coin_map, distinct_nullifiers, nullifiers_of, total_value, Coin, Nullifier, OwnedCoin,
    TokenType,
};
use crate::error::Error;
use crate::ledger::views;
use crate::sync::{coins_match, same_coin_set};
use crate::ordering::{lemma_rearranged_total, lemma_same_set_rearranged, same_coins};
use crate::seqs::{lemma_filter_distinct_coins, lemma_filter_members};
use crate::wallet::{free_to_spend, PublicKeys, Selection, WalletModel, WalletState};
use crate::zswap::{
    applied, apply_offer, change_output, change_paid, coins_of, copy_state, decoded_state, encoded_state,
    fallible_of, fallible_offers, fragment_of, fresh_nonce, guaranteed_of, guaranteed_offer,
    input_fragment, input_nullifier, list_coins, list_pending, new_state, no_coins, no_spends,
    output_fragment, payment_of, pending_of, published, read_change, read_nullifier, read_state,
    spend,
    segments, state_of, unspend, write_state, LocalState, Spent,
};

verus! {

/// Whether the wallet `w` lists what the wallet state `state` holds: the
/// same coins under the same nullifiers, and the same spends under way.
pub open spec fn lists(state: LocalState, w: WalletModel) -> bool {
    &&& w.wf()
    &&& coin_map(w.coins) == coins_of(state)
    &&& w.pending.to_set() == pending_of(state)
}

/// The message for a spend that published another nullifier than the one
/// under which the wallet holds the coin.
pub open spec fn foreign_coin_message() -> Seq<char> {
    "Coin does not belong to the keys of the wallet"@
}

/// The coins of a list without repeated nullifiers are found in its map,
/// and nothing else is.
pub proof fn lemma_coin_map(coins: Seq<OwnedCoin>)
    requires
        distinct_nullifiers(coins),
    ensures
        forall|i: int|
            0 <= i < coins.len() ==> coin_map(coins).contains_key((#[trigger] coins[i]).nullifier)
                && coin_map(coins)[coins[i].nullifier] == coins[i].coin,
        forall|n: Nullifier|
            coin_map(coins).contains_key(n) ==> exists|i: int|
                0 <= i < coins.len() && (#[trigger] coins[i]).nullifier == n,
    decreases coins.len(),
{
    if coins.len() > 0 {
        let shorter = coins.drop_last();
        assert forall|a: int, b: int| 0 <= a < b < shorter.len() implies (#[trigger] shorter[a]).nullifier
            != (#[trigger] shorter[b]).nullifier by {
            assert(coins[a].nullifier != coins[b].nullifier);
        }
        lemma_coin_map(shorter);
        assert forall|i: int| 0 <= i < coins.len() implies coin_map(coins).contains_key(
            (#[trigger] coins[i]).nullifier,
        ) && coin_map(coins)[coins[i].nullifier] == coins[i].coin by {
            if i < shorter.len() {
                assert(shorter[i] == coins[i]);
                assert(coins[i].nullifier != coins[coins.len() - 1].nullifier);
            }
        }
        assert forall|n: Nullifier| coin_map(coins).contains_key(n) implies exists|i: int|
            0 <= i < coins.len() && (#[trigger] coins[i]).nullifier == n by {
            if n == coins.last().nullifier {
                assert(coins[coins.len() - 1].nullifier == n);
            } else {
                assert(coin_map(shorter).contains_key(n));
                let i = choose|i: int| 0 <= i < shorter.len() && (#[trigger] shorter[i]).nullifier == n;
                assert(coins[i] == shorter[i]);
                assert(coins[i].nullifier == n);
            }
        }
    }
}

/// Two lists without repeated nullifiers hold the same coins exactly where
/// their maps are the same.
pub proof fn lemma_same_coins_same_map(a: Seq<OwnedCoin>, b: Seq<OwnedCoin>)
    requires
        distinct_nullifiers(a),
        distinct_nullifiers(b),
    ensures
        same_coin_set(a, b) <==> coin_map(a) == coin_map(b),
{
    lemma_coin_map(a);
    lemma_coin_map(b);
    if a.to_set() == b.to_set() {
        assert forall|n: Nullifier| coin_map(a).contains_key(n) implies coin_map(b).contains_key(n)
            && coin_map(b)[n] == coin_map(a)[n] by {
            let i = choose|i: int| 0 <= i < a.len() && (#[trigger] a[i]).nullifier == n;
            assert(a.contains(a[i]));
            assert(b.to_set().contains(a[i]));
            let j = choose|j: int| 0 <= j < b.len() && b[j] == a[i];
            assert(b[j].nullifier == n);
        }
        assert forall|n: Nullifier| coin_map(b).contains_key(n) implies coin_map(a).contains_key(
            n,
        ) by {
            let i = choose|i: int| 0 <= i < b.len() && (#[trigger] b[i]).nullifier == n;
            assert(b.contains(b[i]));
            assert(a.to_set().contains(b[i]));
            let j = choose|j: int| 0 <= j < a.len() && a[j] == b[i];
            assert(a[j].nullifier == n);
        }
        assert(coin_map(a) =~= coin_map(b));
    }
    if coin_map(a) == coin_map(b) {
        assert forall|c: OwnedCoin| a.contains(c) <==> b.contains(c) by {
            if a.contains(c) {
                let i = choose|i: int| 0 <= i < a.len() && a[i] == c;
                assert(coin_map(a).contains_key(a[i].nullifier));
                let j = choose|j: int| 0 <= j < b.len() && (#[trigger] b[j]).nullifier == c.nullifier;
                assert(coin_map(b)[b[j].nullifier] == b[j].coin);
                assert(b[j] == c);
            }
            if b.contains(c) {
                let i = choose|i: int| 0 <= i < b.len() && b[i] == c;
                assert(coin_map(b).contains_key(b[i].nullifier));
                let j = choose|j: int| 0 <= j < a.len() && (#[trigger] a[j]).nullifier == c.nullifier;
                assert(coin_map(a)[a[j].nullifier] == a[j].coin);
                assert(a[j] == c);
            }
        }
        assert(a.to_set() =~= b.to_set());
    }
}

impl LocalState {
    /// A wallet state without coins and without spends under way.
    pub fn new() -> (r: LocalState)
        ensures
            coins_of(r) == no_coins(),
            pending_of(r) == no_spends(),
    {
        new_state()
    }

    /// The wallet state that `bytes` encode, as the ledger reads it. Bytes
    /// that encode none are an internal error, with the ledger's reason:
    /// they come from the relay's own store.
    pub fn decode(bytes: &[u8]) -> (r: Result<LocalState, Error>)
        ensures
            is_state_outcome(decoded_state(bytes@), r),
    {
        state_outcome(read_state(bytes))
    }

    /// The encoding of the wallet state, as the ledger writes it and as it
    /// is persisted. A failure to encode is an internal error, with the
    /// ledger's reason.
    pub fn encode(&self) -> (r: Result<Vec<u8>, Error>)
        ensures
            is_ledger_outcome(encoded_state(*self), r),
    {
        ledger_outcome(write_state(self))
    }

    /// The same wallet state once more.
    pub fn duplicate(&self) -> (r: LocalState)
        ensures
            r == *self,
    {
        copy_state(self)
    }

    /// What the wallet state holds, as a wallet on which the relay decides:
    /// its coins and the nullifiers of the spends under way.
    pub fn snapshot(&self, keys: PublicKeys) -> (w: WalletState)
        ensures
            lists(*self, w@),
            w@.coin_public_key == keys.coin_public_key@,
            w@.enc_public_key == keys.enc_public_key@,
    {
        let coins = list_coins(self);
        let pending = list_pending(self);
        WalletState::from_parts(coins, pending, keys).unwrap()
    }
}

/// Whatever wallet lists a wallet state, the coins that can pay a fee are
/// the same, and so are the funds that they make: in which order a wallet
/// lists the coins does not matter.
pub proof fn law_listings_agree(state: LocalState, first: WalletModel, second: WalletModel)
    requires
        lists(state, first),
        lists(state, second),
    ensures
        same_coins(first.candidates(), second.candidates()),
        first.candidates().len() == second.candidates().len(),
        first.available() == second.available(),
{
    let p = free_to_spend(first.pending);
    let q = free_to_spend(second.pending);
    let a = first.candidates();
    let b = second.candidates();
    lemma_same_coins_same_map(first.coins, second.coins);
    lemma_filter_members(first.coins, p);
    lemma_filter_members(second.coins, q);
    lemma_filter_distinct_coins(first.coins, p);
    lemma_filter_distinct_coins(second.coins, q);
    assert forall|c: OwnedCoin| #[trigger] p(c) == q(c) by {
        assert(first.pending.contains(c.nullifier) <==> first.pending.to_set().contains(
            c.nullifier,
        ));
        assert(second.pending.contains(c.nullifier) <==> second.pending.to_set().contains(
            c.nullifier,
        ));
    }
    assert(a.to_set() =~= b.to_set()) by {
        assert forall|c: OwnedCoin| a.to_set().contains(c) <==> b.to_set().contains(c) by {
            if a.contains(c) {
                let i = choose|i: int| 0 <= i < a.len() && a[i] == c;
                assert(first.coins.contains(a[i]) && p(a[i]));
                assert(first.coins.to_set().contains(c));
                assert(second.coins.contains(c));
                let j = choose|j: int| 0 <= j < second.coins.len() && second.coins[j] == c;
                assert(b.contains(second.coins[j]));
            }
            if b.contains(c) {
                let i = choose|i: int| 0 <= i < b.len() && b[i] == c;
                assert(second.coins.contains(b[i]) && q(b[i]));
                assert(second.coins.to_set().contains(c));
                assert(first.coins.contains(c));
                let j = choose|j: int| 0 <= j < first.coins.len() && first.coins[j] == c;
                assert(a.contains(first.coins[j]));
            }
        }
    }
    lemma_same_set_rearranged(a, b);
    lemma_rearranged_total(a, b);
}

/// The coins reserved in a wallet state for a fee.
pub struct LedgerReservation {
    /// The wallet state in which the spends of the chosen coins are under
    /// way.
    pub state: LocalState,
    /// The coins chosen, largest first, and their worth beyond the fee.
    pub selection: Selection,
    /// For each chosen coin, in order, the encoding of the zswap input that
    /// spends it.
    pub inputs: Vec<Vec<u8>>,
}

/// Whether each input of `inputs` publishes the nullifier of the coin of
/// `picked` at its place.
pub open spec fn spends_each(inputs: Seq<Vec<u8>>, picked: Seq<OwnedCoin>) -> bool {
    &&& inputs.len() == picked.len()
    &&& forall|i: int|
        0 <= i < inputs.len() ==> input_nullifier(#[trigger] inputs[i]@) == Some(
            picked[i].nullifier,
        )
}

/// Takes what a spend of the coin under `wanted` gave. A spend that the
/// ledger refused is an internal error, with the ledger's reason. A spend
/// that succeeded is accepted where the nullifier that it handed back and
/// the nullifier that its input publishes are both `wanted`; any other
/// spend is an internal error: the coin does not belong to the keys of the
/// wallet.
pub fn accept_spend(wanted: Nullifier, outcome: Result<Spent, String>) -> (r: Result<Spent, Error>)
    ensures
        match outcome {
            Err(reason) => r is Err && r->Err_0.is_internal(reason@),
            Ok(s) => if s.nullifier == wanted && input_nullifier(s.input@) == Some(wanted) {
                r == Ok::<Spent, Error>(s)
            } else {
                r is Err && r->Err_0.is_internal(foreign_coin_message())
            },
        },
{
    match outcome {
        Err(reason) => Err(Error::InternalError(reason)),
        Ok(s) => {
            if s.nullifier != wanted {
                return Err(Error::internal("Coin does not belong to the keys of the wallet"));
            }
            match read_nullifier(s.input.as_slice()) {
                Some(published) => {
                    if published == wanted {
                        Ok(s)
                    } else {
                        Err(Error::internal("Coin does not belong to the keys of the wallet"))
                    }
                },
                None => Err(Error::internal("Coin does not belong to the keys of the wallet")),
            }
        },
    }
}

/// Starts the spend of each coin of `picked` in the wallet state, first to
/// last. A spend that the ledger refuses, or one whose input publishes
/// another nullifier than that of its coin, is an internal error; `state`
/// itself is never changed.
pub fn spend_all(state: &LocalState, seed: &[u8; 32], picked: &Vec<OwnedCoin>) -> (r: Result<
    (LocalState, Vec<Vec<u8>>),
    Error,
>)
    ensures
        picked.len() == 0 ==> r is Ok && r->Ok_0.0 == *state && r->Ok_0.1@.len() == 0,
        r matches Ok((after, inputs)) ==> {
            &&& coins_of(after) == coins_of(*state)
            &&& pending_of(after) == pending_of(*state).union(nullifiers_of(picked@).to_set())
            &&& spends_each(inputs@, picked@)
        },
        r matches Err(e) ==> e is InternalError,
{
    let mut current = copy_state(state);
    let mut inputs: Vec<Vec<u8>> = Vec::new();
    let mut i: usize = 0;
    assert(pending_of(*state).union(nullifiers_of(picked@.take(0)).to_set()) =~= pending_of(
        *state,
    ));
    while i < picked.len()
        invariant
            i <= picked.len(),
            i == 0 ==> current == *state,
            coins_of(current) == coins_of(*state),
            pending_of(current) == pending_of(*state).union(
                nullifiers_of(picked@.take(i as int)).to_set(),
            ),
            spends_each(inputs@, picked@.take(i as int)),
        decreases picked.len() - i,
    {
        let wanted = picked[i].nullifier;
        let spent = match accept_spend(wanted, spend(&current, seed, &wanted)) {
            Ok(spent) => spent,
            Err(e) => {
                return Err(e);
            },
        };
        proof {
            let before = nullifiers_of(picked@.take(i as int));
            let after = nullifiers_of(picked@.take(i + 1));
            assert(after =~= before.push(wanted));
            assert(after.to_set() =~= before.to_set().insert(wanted)) by {
                assert forall|n: Nullifier| after.contains(n) <==> before.contains(n) || n
                    == wanted by {
                    if after.contains(n) {
                        let k = choose|k: int| 0 <= k < after.len() && after[k] == n;
                        if k < before.len() {
                            assert(before[k] == n);
                        }
                    }
                    if before.contains(n) {
                        let k = choose|k: int| 0 <= k < before.len() && before[k] == n;
                        assert(after[k] == n);
                    }
                    assert(after[before.len() as int] == wanted);
                }
            }
            assert(pending_of(spent.state) =~= pending_of(*state).union(after.to_set()));
        }
        inputs.push(spent.input);
        current = spent.state;
        proof {
            assert forall|k: int| 0 <= k < inputs.len() implies input_nullifier(
                #[trigger] inputs[k]@,
            ) == Some(picked@.take(i + 1)[k].nullifier) by {
                if k < i {
                    assert(picked@.take(i as int)[k] == picked@.take(i + 1)[k]);
                }
            }
        }
        i += 1;
    }
    assert(picked@.take(picked.len() as int) =~= picked@);
    Ok((current, inputs))
}

/// Chooses the coins that pay `fee` from the wallet state, largest first,
/// and starts their spends, so that no later request chooses them again.
/// Where the spendable funds fall short of `fee`, the result says so. Any
/// other failure is an internal error. `state` itself is never changed: a
/// failed request leaves nothing behind.
pub fn reserve_in_ledger(state: &LocalState, seed: &[u8; 32], fee: u128) -> (r: Result<
    LedgerReservation,
    Error,
>)
    ensures
        match r {
            Ok(res) => {
                &&& exists|w: WalletModel|
                    #[trigger] lists(*state, w) && w.is_fee_selection(
                        res.selection.coins@,
                        fee as nat,
                    )
                &&& res.selection.change == total_value(res.selection.coins@) - fee
                &&& coins_of(res.state) == coins_of(*state)
                &&& pending_of(res.state) == pending_of(*state).union(
                    nullifiers_of(res.selection.coins@).to_set(),
                )
                &&& spends_each(res.inputs@, res.selection.coins@)
            },
            Err(Error::NotAvailable(m)) => m@ == "No funds available"@,
            Err(Error::InternalError(_)) => true,
            Err(Error::BadRequest(_)) => false,
        },
        forall|w: WalletModel| #[trigger]
            lists(*state, w) ==> ((r is Err && r->Err_0 is NotAvailable) <==> w.available() < fee),
        forall|w: WalletModel| #[trigger]
            lists(*state, w) && w.candidates().len() == 0 && fee == 0 ==> r is Ok,
{
    let keys = PublicKeys { coin_public_key: Vec::new(), enc_public_key: Vec::new() };
    let wallet = state.snapshot(keys);
    proof {
        assert(lists(*state, wallet@));
        assert forall|w: WalletModel| #[trigger] lists(*state, w) implies w.available()
            == wallet@.available() && w.candidates().len() == wallet@.candidates().len() by {
            law_listings_agree(*state, w, wallet@);
        }
    }
    let selection = match wallet.select_for_fee(fee) {
        Ok(selection) => selection,
        Err(e) => {
            return Err(e);
        },
    };
    proof {
        if selection.coins.len() > 0 {
            lemma_filter_members(wallet@.coins, free_to_spend(wallet@.pending));
            let c = selection.coins[0];
            assert(wallet@.spendable(c));
            let i = choose|i: int| 0 <= i < wallet@.coins.len() && wallet@.coins[i] == c;
            assert(wallet@.candidates().contains(wallet@.coins[i]));
        }
    }
    match spend_all(state, seed, &selection.coins) {
        Ok((after, inputs)) => Ok(LedgerReservation { state: after, selection, inputs }),
        Err(e) => Err(e),
    }
}

/// Undoes the spends that `inputs` started in the wallet state: their coins
/// are no longer being spent and can be chosen again. The coins themselves
/// stay. Inputs that the ledger cannot read are an internal error.
pub fn rollback(state: &LocalState, inputs: &Vec<Vec<u8>>) -> (r: Result<LocalState, Error>)
    ensures
        r is Ok <==> forall|i: int|
            0 <= i < inputs.len() ==> input_nullifier(#[trigger] inputs[i]@) is Some,
        r matches Ok(after) ==> coins_of(after) == coins_of(*state) && pending_of(after)
            == pending_of(*state).difference(published(inputs@)),
        r matches Err(e) ==> e is InternalError,
{
    match unspend(state, inputs) {
        Ok(after) => Ok(after),
        Err(reason) => Err(Error::InternalError(reason)),
    }
}

/// A failed request leaves no spend under way: where each input publishes
/// the nullifier of one of the coins that were chosen, and none of these
/// coins was being spent before, undoing the spends gives back the spends
/// that were under way before the reservation.
pub proof fn law_rollback_restores_pending(
    before: Set<Nullifier>,
    picked: Seq<OwnedCoin>,
    inputs: Seq<Vec<u8>>,
)
    requires
        spends_each(inputs, picked),
        forall|i: int| 0 <= i < picked.len() ==> !before.contains((#[trigger] picked[i]).nullifier),
    ensures
        before.union(nullifiers_of(picked).to_set()).difference(published(inputs)) == before,
        forall|i: int|
            0 <= i < picked.len() ==> !before.union(nullifiers_of(picked).to_set()).difference(
                published(inputs),
            ).contains((#[trigger] picked[i]).nullifier),
{
    let ids = nullifiers_of(picked);
    let after = before.union(ids.to_set()).difference(published(inputs));
    assert forall|n: Nullifier| after.contains(n) <==> before.contains(n) by {
        if before.contains(n) && published(inputs).contains(n) {
            let i = choose|i: int|
                0 <= i < inputs.len() && input_nullifier(#[trigger] inputs[i]@) == Some(n);
            assert(picked[i].nullifier == n);
        }
        if ids.to_set().contains(n) {
            let i = choose|i: int| 0 <= i < ids.len() && ids[i] == n;
            assert(input_nullifier(inputs[i]@) == Some(n));
            assert(published(inputs).contains(n));
        }
    }
    assert(after =~= before);
}

/// What holds of wallets holds of wallet states: where a wallet lists a
/// wallet state, and spends of coins chosen for a fee were started in the
/// state, the wallet in which these coins are reserved lists the new state.
pub proof fn law_reservation_is_listed(
    before: LocalState,
    after: LocalState,
    w: WalletModel,
    picked: Seq<OwnedCoin>,
    fee: nat,
)
    requires
        lists(before, w),
        w.is_fee_selection(picked, fee),
        coins_of(after) == coins_of(before),
        pending_of(after) == pending_of(before).union(nullifiers_of(picked).to_set()),
    ensures
        lists(after, w.reserve(nullifiers_of(picked))),
{
    let ids = nullifiers_of(picked);
    let reserved = w.reserve(ids);
    assert(reserved.pending.to_set() =~= w.pending.to_set().union(ids.to_set())) by {
        assert forall|n: Nullifier|
            reserved.pending.to_set().contains(n) <==> w.pending.to_set().union(
                ids.to_set(),
            ).contains(n) by {
            if reserved.pending.contains(n) {
                let i = choose|i: int| 0 <= i < reserved.pending.len() && reserved.pending[i] == n;
                if i < w.pending.len() {
                    assert(w.pending[i] == n);
                } else {
                    assert(ids[i - w.pending.len()] == n);
                }
            }
            if w.pending.contains(n) {
                let i = choose|i: int| 0 <= i < w.pending.len() && w.pending[i] == n;
                assert(reserved.pending[i] == n);
            }
            if ids.contains(n) {
                let i = choose|i: int| 0 <= i < ids.len() && ids[i] == n;
                assert(reserved.pending[w.pending.len() + i] == n);
            }
        }
    }
    assert forall|a: int, b: int| 0 <= a < b < reserved.pending.len() implies #[trigger] reserved.pending[a]
        != #[trigger] reserved.pending[b] by {
        if b < w.pending.len() {
            assert(w.pending[a] != w.pending[b]);
        } else if a >= w.pending.len() {
            assert(picked[a - w.pending.len()].nullifier != picked[b - w.pending.len()].nullifier);
        } else {
            assert(w.spendable(picked[b - w.pending.len()]));
            assert(w.pending.contains(w.pending[a]));
        }
    }
}

/// Where a wallet lists a wallet state, and the spends of coins that were
/// chosen were undone in the state, the wallet from which these coins were
/// released lists the new state.
pub proof fn law_rollback_is_listed(
    before: LocalState,
    after: LocalState,
    w: WalletModel,
    picked: Seq<OwnedCoin>,
    inputs: Seq<Vec<u8>>,
)
    requires
        lists(before, w),
        spends_each(inputs, picked),
        coins_of(after) == coins_of(before),
        pending_of(after) == pending_of(before).difference(published(inputs)),
    ensures
        lists(after, w.release(nullifiers_of(picked))),
{
    let ids = nullifiers_of(picked);
    let released = w.release(ids);
    crate::seqs::lemma_filter_distinct(w.pending, crate::seqs::not_in(ids));
    crate::seqs::lemma_filter_members(w.pending, crate::seqs::not_in(ids));
    assert(released.pending.to_set() =~= w.pending.to_set().difference(published(inputs))) by {
        assert forall|n: Nullifier|
            released.pending.to_set().contains(n) <==> w.pending.to_set().difference(
                published(inputs),
            ).contains(n) by {
            if published(inputs).contains(n) {
                let i = choose|i: int|
                    0 <= i < inputs.len() && input_nullifier(#[trigger] inputs[i]@) == Some(n);
                assert(ids[i] == n);
                assert(ids.contains(n));
            }
            if ids.contains(n) {
                let i = choose|i: int| 0 <= i < ids.len() && ids[i] == n;
                assert(input_nullifier(inputs[i]@) == Some(n));
                assert(published(inputs).contains(n));
            }
            if released.pending.contains(n) {
                let i = choose|i: int| 0 <= i < released.pending.len() && released.pending[i] == n;
                assert(crate::seqs::not_in(ids)(released.pending[i]));
                assert(w.pending.contains(released.pending[i]));
            }
            if w.pending.contains(n) && !ids.contains(n) {
                let i = choose|i: int| 0 <= i < w.pending.len() && w.pending[i] == n;
                assert(crate::seqs::not_in(ids)(w.pending[i]));
                assert(released.pending.contains(w.pending[i]));
            }
        }
    }
}

/// The first place of `sorted` whose segment is above `segment`, or the
/// length of `sorted` where there is none.
pub open spec fn first_above(sorted: Seq<(u16, Seq<u8>)>, segment: u16) -> int
    decreases sorted.len(),
{
    if sorted.len() == 0 {
        0
    } else if sorted.first().0 > segment {
        0
    } else {
        1 + first_above(sorted.drop_first(), segment)
    }
}

/// The segments of `items` in ascending order: each is put behind those
/// that are not above it.
pub open spec fn by_segment(items: Seq<(u16, Seq<u8>)>) -> Seq<(u16, Seq<u8>)>
    decreases items.len(),
{
    if items.len() == 0 {
        Seq::empty()
    } else {
        let earlier = by_segment(items.drop_last());
        earlier.insert(first_above(earlier, items.last().0), items.last())
    }
}

/// The offers of `items`, in their order.
pub open spec fn offers_in(items: Seq<(u16, Seq<u8>)>) -> Seq<Seq<u8>> {
    Seq::new(items.len(), |i: int| items[i].1)
}

/// No segment of `items` comes before a lower one.
pub open spec fn ascending(items: Seq<(u16, Seq<u8>)>) -> bool {
    forall|i: int, j: int| 0 <= i <= j < items.len() ==> (#[trigger] items[i]).0 <= (#[trigger] items[j]).0
}

/// What stands before the first place above a segment is not above it, and
/// what stands at that place is.
proof fn lemma_first_above(sorted: Seq<(u16, Seq<u8>)>, segment: u16)
    ensures
        0 <= first_above(sorted, segment) <= sorted.len(),
        forall|k: int| 0 <= k < first_above(sorted, segment) ==> (#[trigger] sorted[k]).0 <= segment,
        first_above(sorted, segment) < sorted.len() ==> sorted[first_above(sorted, segment)].0
            > segment,
    decreases sorted.len(),
{
    if sorted.len() > 0 && sorted.first().0 <= segment {
        let rest = sorted.drop_first();
        lemma_first_above(rest, segment);
        assert forall|k: int| 0 <= k < first_above(sorted, segment) implies (#[trigger] sorted[k]).0
            <= segment by {
            if k > 0 {
                assert(rest[k - 1] == sorted[k]);
            }
        }
        if first_above(sorted, segment) < sorted.len() {
            assert(rest[first_above(rest, segment)] == sorted[first_above(sorted, segment)]);
        }
    }
}

/// The segments come out in ascending order.
pub proof fn lemma_by_segment_ascends(items: Seq<(u16, Seq<u8>)>)
    ensures
        ascending(by_segment(items)),
        by_segment(items).len() == items.len(),
    decreases items.len(),
{
    if items.len() > 0 {
        let earlier = by_segment(items.drop_last());
        let x = items.last();
        let at = first_above(earlier, x.0);
        lemma_by_segment_ascends(items.drop_last());
        lemma_first_above(earlier, x.0);
        let after = earlier.insert(at, x);
        assert forall|i: int, j: int| 0 <= i <= j < after.len() implies (#[trigger] after[i]).0 <= (
        #[trigger] after[j]).0 by {
            if j < at {
                assert(earlier[i].0 <= earlier[j].0);
            } else if i > at {
                assert(earlier[i - 1].0 <= earlier[j - 1].0);
            } else if i < at && j > at {
                assert(earlier[i].0 <= x.0);
                assert(earlier[at].0 <= earlier[j - 1].0);
            } else if i == at && j > at {
                assert(earlier[at].0 <= earlier[j - 1].0);
            } else if i < at && j == at {
                assert(earlier[i].0 <= x.0);
            }
        }
    }
}

/// The offers of the fallible segments `items`, in ascending order of
/// their segments, as the ledger applies them.
pub fn in_segment_order(items: &Vec<(u16, Vec<u8>)>) -> (r: Vec<Vec<u8>>)
    ensures
        views(r@) == offers_in(by_segment(segments(items@))),
{
    let ghost all = segments(items@);
    let mut sorted: Vec<(u16, Vec<u8>)> = Vec::new();
    let mut i: usize = 0;
    assert(all.take(0) =~= Seq::empty());
    assert(segments(sorted@) =~= Seq::empty());
    while i < items.len()
        invariant
            i <= items.len(),
            all == segments(items@),
            segments(sorted@) == by_segment(all.take(i as int)),
        decreases items.len() - i,
    {
        let segment = items[i].0;
        let offer = crate::seqs::copy_bytes(&items[i].1);
        let ghost earlier = segments(sorted@);
        let mut at: usize = 0;
        assert(earlier.skip(0) =~= earlier);
        while at < sorted.len() && sorted[at].0 <= segment
            invariant
                at <= sorted.len(),
                earlier == segments(sorted@),
                first_above(earlier, segment) == at + first_above(earlier.skip(at as int), segment),
            decreases sorted.len() - at,
        {
            assert(earlier.skip(at as int).first() == earlier[at as int]);
            assert(earlier.skip(at as int).drop_first() =~= earlier.skip(at + 1));
            at += 1;
        }
        proof {
            if at < sorted.len() {
                assert(earlier.skip(at as int).first() == earlier[at as int]);
            }
            assert(first_above(earlier, segment) == at);
            assert(all.take(i + 1).drop_last() =~= all.take(i as int));
            assert(all.take(i + 1).last() == (segment, offer@));
        }
        sorted.insert(at, (segment, offer));
        assert(segments(sorted@) =~= earlier.insert(at as int, (segment, offer@)));
        i += 1;
    }
    assert(all.take(items.len() as int) =~= all);
    let mut offers: Vec<Vec<u8>> = Vec::new();
    let mut j: usize = 0;
    while j < sorted.len()
        invariant
            j <= sorted.len(),
            offers.len() == j,
            forall|k: int| 0 <= k < j ==> (#[trigger] offers[k])@ == sorted[k].1@,
        decreases sorted.len() - j,
    {
        offers.push(crate::seqs::copy_bytes(&sorted[j].1));
        j += 1;
    }
    assert(views(offers@) =~= offers_in(segments(sorted@)));
    offers
}

/// The offers that the transaction encoded in `tx` applies to a wallet, in
/// the order in which they are applied: the guaranteed offer, where there is
/// one, then the fallible ones in ascending order of their segments; or why
/// there are none, in the ledger's words.
pub open spec fn offers_of(tx: Seq<u8>) -> Result<Seq<Seq<u8>>, Seq<char>> {
    match guaranteed_of(tx) {
        Err(reason) => Err(reason),
        Ok(first) => match fallible_of(tx) {
            Err(reason) => Err(reason),
            Ok(rest) => Ok(
                match first {
                    Some(offer) => seq![offer] + offers_in(by_segment(rest)),
                    None => offers_in(by_segment(rest)),
                },
            ),
        },
    }
}

/// The wallet state after the offers of `offers` were applied, first to
/// last, with the keys derived from `seed`; the first failure ends it.
pub open spec fn applied_all(state: LocalState, seed: Seq<u8>, offers: Seq<Seq<u8>>) -> Result<
    LocalState,
    Seq<char>,
>
    decreases offers.len(),
{
    if offers.len() == 0 {
        Ok(state)
    } else {
        match applied_all(state, seed, offers.drop_last()) {
            Ok(earlier) => applied(earlier, seed, offers.last()),
            Err(reason) => Err(reason),
        }
    }
}

/// Once an offer has failed, more offers change nothing.
proof fn lemma_failure_stays(state: LocalState, seed: Seq<u8>, offers: Seq<Seq<u8>>, upto: int)
    requires
        0 <= upto <= offers.len(),
        applied_all(state, seed, offers.take(upto)) is Err,
    ensures
        applied_all(state, seed, offers) == applied_all(state, seed, offers.take(upto)),
    decreases offers.len() - upto,
{
    if upto == offers.len() {
        assert(offers.take(upto) =~= offers);
    } else {
        assert(offers.take(upto + 1).drop_last() =~= offers.take(upto));
        lemma_failure_stays(state, seed, offers, upto + 1);
    }
}

/// Whether `r` reports the wallet state `made`: the state itself, or an
/// internal error with the ledger's reason.
pub open spec fn is_state_outcome(made: Result<LocalState, Seq<char>>, r: Result<LocalState, Error>) -> bool {
    match made {
        Ok(state) => r == Ok::<LocalState, Error>(state),
        Err(reason) => r is Err && r->Err_0.is_internal(reason),
    }
}

/// Reports the wallet state that the ledger made: a failure of the ledger
/// is an internal error.
pub fn state_outcome(made: Result<LocalState, String>) -> (r: Result<LocalState, Error>)
    ensures
        is_state_outcome(state_of(made), r),
{
    match made {
        Ok(state) => Ok(state),
        Err(reason) => Err(Error::InternalError(reason)),
    }
}

/// Applies the offers of `offers` to the wallet state, first to last. An
/// offer that the ledger cannot apply is an internal error.
pub fn apply_all(state: &LocalState, seed: &[u8; 32], offers: &Vec<Vec<u8>>) -> (r: Result<
    LocalState,
    Error,
>)
    ensures
        is_state_outcome(applied_all(*state, seed@, views(offers@)), r),
{
    let ghost all = views(offers@);
    let mut current = copy_state(state);
    let ghost start = current;
    let mut i: usize = 0;
    assert(all.take(0) =~= Seq::empty());
    while i < offers.len()
        invariant
            i <= offers.len(),
            all == views(offers@),
            start == *state,
            applied_all(start, seed@, all.take(i as int)) == Ok::<LocalState, Seq<char>>(current),
        decreases offers.len() - i,
    {
        proof {
            assert(all.take(i + 1).drop_last() =~= all.take(i as int));
            assert(all.take(i + 1).last() == offers[i as int]@);
        }
        match apply_offer(&current, seed, offers[i].as_slice()) {
            Ok(next) => {
                current = next;
            },
            Err(reason) => {
                proof {
                    lemma_failure_stays(start, seed@, all, i + 1);
                }
                return Err(Error::InternalError(reason));
            },
        }
        i += 1;
    }
    assert(all.take(offers.len() as int) =~= all);
    Ok(current)
}

/// The offers that the transaction encoded in `tx` applies to a wallet, in
/// the order in which they are applied. A transaction that the ledger
/// cannot read is an internal error.
pub fn transaction_offers(tx: &[u8]) -> (r: Result<Vec<Vec<u8>>, Error>)
    ensures
        match offers_of(tx@) {
            Ok(offers) => r is Ok && views(r->Ok_0@) == offers,
            Err(reason) => r is Err && r->Err_0.is_internal(reason),
        },
{
    let first = match guaranteed_offer(tx) {
        Ok(first) => first,
        Err(reason) => {
            return Err(Error::InternalError(reason));
        },
    };
    let rest = match fallible_offers(tx) {
        Ok(rest) => in_segment_order(&rest),
        Err(reason) => {
            return Err(Error::InternalError(reason));
        },
    };
    match first {
        Some(offer) => {
            let mut all: Vec<Vec<u8>> = Vec::new();
            all.push(offer);
            let mut tail = rest;
            let ghost listed = tail@;
            all.append(&mut tail);
            assert(views(all@) =~= seq![offer@] + views(listed));
            Ok(all)
        },
        None => Ok(rest),
    }
}

/// Both copies of the wallet state after a transaction of the ledger, and
/// whether the confirmed one has to be persisted.
pub struct Folded {
    pub confirmed: LocalState,
    pub unconfirmed: LocalState,
    pub persist: bool,
}

/// Folds the transaction encoded in `tx` into both copies of the wallet
/// state: the confirmed one, which follows the ledger alone, and the
/// unconfirmed one, in which the relay's own spends are under way. The
/// guaranteed offer is applied in any case, then the fallible ones, where
/// there are any. The confirmed state has to be persisted where its coins
/// changed. Whatever the ledger cannot read or apply is an internal error,
/// which ends the synchronizer.
pub fn fold_transaction(
    confirmed: &LocalState,
    unconfirmed: &LocalState,
    seed: &[u8; 32],
    tx: &[u8],
) -> (r: Result<Folded, Error>)
    ensures
        match offers_of(tx@) {
            Err(reason) => r is Err && r->Err_0.is_internal(reason),
            Ok(offers) => match applied_all(*confirmed, seed@, offers) {
                Err(reason) => r is Err && r->Err_0.is_internal(reason),
                Ok(c) => match applied_all(*unconfirmed, seed@, offers) {
                    Err(reason) => r is Err && r->Err_0.is_internal(reason),
                    Ok(u) => {
                        &&& r is Ok
                        &&& r->Ok_0.confirmed == c
                        &&& r->Ok_0.unconfirmed == u
                        &&& r->Ok_0.persist == (coins_of(c) != coins_of(*confirmed))
                    },
                },
            },
        },
{
    let offers = transaction_offers(tx)?;
    let c = apply_all(confirmed, seed, &offers)?;
    let u = apply_all(unconfirmed, seed, &offers)?;
    let before = list_coins(confirmed);
    let after = list_coins(&c);
    proof {
        lemma_same_coins_same_map(before@, after@);
    }
    let persist = !coins_match(&before, &after);
    Ok(Folded { confirmed: c, unconfirmed: u, persist })
}

/// Starts the spend of the coin that the wallet state holds under `n` and
/// builds the unproven fragment that spends exactly this coin, for the
/// network `network`. Whatever the ledger refuses is an internal error, and
/// so is a spend that publishes another nullifier than `n`.
pub fn prepare_spend(state: &LocalState, seed: &[u8; 32], n: Nullifier, network: &str) -> (r: Result<
    (LocalState, Vec<u8>),
    Error,
>)
    ensures
        r matches Ok((after, fragment)) ==> {
            &&& coins_of(after) == coins_of(*state)
            &&& pending_of(after) == pending_of(*state).insert(n)
            &&& exists|input: Seq<u8>|
                #![trigger input_nullifier(input)]
                input_nullifier(input) == Some(n) && fragment_of(input, network@) == Ok::<
                    Seq<u8>,
                    Seq<char>,
                >(fragment@)
        },
        r matches Err(e) ==> e is InternalError,
{
    let spent = match accept_spend(n, spend(state, seed, &n)) {
        Ok(spent) => spent,
        Err(e) => {
            return Err(e);
        },
    };
    match input_fragment(spent.input.as_slice(), network) {
        Ok(fragment) => {
            assert(input_nullifier(spent.input@) == Some(n));
            Ok((spent.state, fragment))
        },
        Err(reason) => Err(Error::InternalError(reason)),
    }
}

/// The message for a change output that does not pay the wallet.
pub open spec fn lost_change_message() -> Seq<char> {
    "Change output does not pay the wallet"@
}

/// Takes the fragment that was built to pay the coin `wanted` to the keys
/// derived from `seed`. A fragment that the ledger did not build is an
/// internal error, with the ledger's reason. A fragment is accepted where
/// its output pays exactly `wanted` to these keys; any other fragment is an
/// internal error.
pub fn accept_change(seed: &[u8; 32], wanted: Coin, made: Result<Vec<u8>, String>) -> (r: Result<
    Vec<u8>,
    Error,
>)
    ensures
        match made {
            Err(reason) => r is Err && r->Err_0.is_internal(reason@),
            Ok(fragment) => if change_paid(seed@, fragment@) == Some(wanted) {
                r is Ok && r->Ok_0@ == fragment@
            } else {
                r is Err && r->Err_0.is_internal(lost_change_message())
            },
        },
{
    match made {
        Err(reason) => Err(Error::InternalError(reason)),
        Ok(fragment) => match read_change(seed, fragment.as_slice()) {
            Some(paid) => {
                if paid == wanted {
                    Ok(fragment)
                } else {
                    Err(Error::internal("Change output does not pay the wallet"))
                }
            },
            None => Err(Error::internal("Change output does not pay the wallet")),
        },
    }
}

/// Builds the unproven fragment that pays the change back to the wallet:
/// one output worth `change` in the fee token, with a fresh random nonce,
/// for the keys derived from `seed`, out of balance by the fee `fees`.
/// There is none for a fee beyond the largest balance that the ledger can
/// state; that and whatever the ledger refuses is an internal error, and so
/// is an output that does not pay exactly the change to the wallet.
pub fn change_transaction(seed: &[u8; 32], change: u128, fees: u128, network: &str) -> (r: Result<
    Vec<u8>,
    Error,
>)
    ensures
        fees > i128::MAX ==> r is Err && r->Err_0.is_internal(
            crate::balancing::fee_range_message(),
        ),
        r matches Ok(fragment) ==> {
            &&& change_paid(seed@, fragment@) is Some
            &&& change_paid(seed@, fragment@)->Some_0.value == change
            &&& change_paid(seed@, fragment@)->Some_0.token == TokenType::spec_native()
            &&& exists|output: Seq<u8>|
                #![trigger payment_of(output, TokenType::spec_native(), fees as i128, network@)]
                payment_of(output, TokenType::spec_native(), fees as i128, network@) == Ok::<
                    Seq<u8>,
                    Seq<char>,
                >(fragment@)
        },
        r matches Err(e) ==> e is InternalError,
{
    let plan = match plan_change(change, fees, fresh_nonce()) {
        Some(plan) => plan,
        None => {
            return Err(Error::internal("Fee estimate is out of range"));
        },
    };
    let output = match change_output(seed, &plan.coin) {
        Ok(output) => output,
        Err(reason) => {
            return Err(Error::InternalError(reason));
        },
    };
    let made = output_fragment(output.as_slice(), &plan.coin.token, plan.fee_delta, network);
    proof {
        if made is Ok {
            assert(payment_of(output@, TokenType::spec_native(), fees as i128, network@) == Ok::<
                Seq<u8>,
                Seq<char>,
            >(made->Ok_0@));
        }
    }
    accept_change(seed, plan.coin, made)
}

} // verus!
