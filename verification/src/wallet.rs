use vstd::prelude::*;
use crate::coin::{
    descending, distinct, distinct_nullifiers, lemma_total_prefix, lemma_total_push,
    nullifiers_of, total_value, Nullifier, OwnedCoin,
};
use crate::error::Error;
use crate::ordering::{
    lemma_rearranged_contains, lemma_rearranged_distinct, sort_by_value_descending,
};
use crate::seqs::{
    all_distinct, holds, lemma_filter_distinct, lemma_filter_distinct_coins, lemma_filter_empty,
    lemma_filter_members, not_in, other_than, without_coin, without_ids,
};

verus! {

/// The public halves of the wallet's keys, as the ledger encodes them.
#[derive(Debug)]
pub struct PublicKeys {
    pub coin_public_key: Vec<u8>,
    pub enc_public_key: Vec<u8>,
}

/// What a wallet holds, as mathematics: its coins in the order in which
/// they were received, and the nullifiers of the coins that a request in
/// flight has reserved.
pub struct WalletModel {
    pub coins: Seq<OwnedCoin>,
    pub pending: Seq<Nullifier>,
    pub coin_public_key: Seq<u8>,
    pub enc_public_key: Seq<u8>,
}

/// The test that a coin passes where it pays fees and `pending` does not
/// hold it.
pub open spec fn free_to_spend(pending: Seq<Nullifier>) -> spec_fn(OwnedCoin) -> bool {
    |c: OwnedCoin| c.pays_fees() && !pending.contains(c.nullifier)
}

impl WalletModel {
    /// No two coins share a nullifier, and no nullifier is reserved twice.
    pub open spec fn wf(self) -> bool {
        &&& distinct_nullifiers(self.coins)
        &&& distinct(self.pending)
    }

    /// Whether the wallet holds a coin under `n`.
    pub open spec fn has_coin(self, n: Nullifier) -> bool {
        exists|i: int| 0 <= i < self.coins.len() && (#[trigger] self.coins[i]).nullifier == n
    }

    /// Whether the coin under `n` is reserved.
    pub open spec fn is_pending(self, n: Nullifier) -> bool {
        self.pending.contains(n)
    }

    /// Whether `c` is a coin of the wallet that can pay a fee now: of the
    /// fee token, and not reserved.
    pub open spec fn spendable(self, c: OwnedCoin) -> bool {
        &&& self.coins.contains(c)
        &&& c.pays_fees()
        &&& !self.pending.contains(c.nullifier)
    }

    /// The coins that can pay a fee now, in the wallet's order.
    pub open spec fn candidates(self) -> Seq<OwnedCoin> {
        self.coins.filter(free_to_spend(self.pending))
    }

    /// The funds that can pay a fee now.
    pub open spec fn available(self) -> nat {
        total_value(self.candidates())
    }

    /// Whether `picked` is what largest-first selection takes for `fee`:
    /// spendable coins, each once, never a smaller before a larger, none
    /// left out that is larger than one taken, enough to cover the fee, and
    /// no more coins than that needs. Nothing is taken only where nothing
    /// can be.
    pub open spec fn is_fee_selection(self, picked: Seq<OwnedCoin>, fee: nat) -> bool {
        &&& forall|k: int| 0 <= k < picked.len() ==> self.spendable(#[trigger] picked[k])
        &&& distinct_nullifiers(picked)
        &&& descending(picked)
        &&& forall|c: OwnedCoin, k: int|
            #![trigger self.spendable(c), picked[k]]
            self.spendable(c) && !picked.contains(c) && 0 <= k < picked.len()
                ==> c.coin.value <= picked[k].coin.value
        &&& total_value(picked) >= fee
        &&& forall|k: int| 0 < k < picked.len() ==> #[trigger] total_value(picked.take(k)) < fee
        &&& picked.len() == 0 ==> self.candidates().len() == 0
    }

    /// The wallet with the coins under `ids` reserved as well.
    pub open spec fn reserve(self, ids: Seq<Nullifier>) -> WalletModel {
        WalletModel { pending: self.pending + ids, ..self }
    }

    /// The wallet with the coins under `ids` no longer reserved.
    pub open spec fn release(self, ids: Seq<Nullifier>) -> WalletModel {
        WalletModel { pending: self.pending.filter(not_in(ids)), ..self }
    }

    /// The wallet after it received `c`: the coin takes the place of any
    /// coin known under the same nullifier.
    pub open spec fn receive(self, c: OwnedCoin) -> WalletModel {
        WalletModel { coins: self.coins.filter(other_than(c.nullifier)).push(c), ..self }
    }

    /// The wallet after the coin under `n` was spent on the ledger: the coin
    /// is gone, and so is its reservation.
    pub open spec fn mark_spent(self, n: Nullifier) -> WalletModel {
        WalletModel {
            coins: self.coins.filter(other_than(n)),
            pending: self.pending.filter(not_in(seq![n])),
            ..self
        }
    }

    /// The wallet after it received each coin of `coins`, first to last.
    pub open spec fn receive_all(self, coins: Seq<OwnedCoin>) -> WalletModel
        decreases coins.len(),
    {
        if coins.len() == 0 {
            self
        } else {
            self.receive_all(coins.drop_last()).receive(coins.last())
        }
    }

    /// The wallet after each coin under `ids` was spent, first to last.
    pub open spec fn spend_all(self, ids: Seq<Nullifier>) -> WalletModel
        decreases ids.len(),
    {
        if ids.len() == 0 {
            self
        } else {
            self.spend_all(ids.drop_last()).mark_spent(ids.last())
        }
    }

    /// The wallet after a ledger delta: what it received, then what was
    /// spent.
    pub open spec fn apply(self, received: Seq<OwnedCoin>, spent: Seq<Nullifier>) -> WalletModel {
        self.receive_all(received).spend_all(spent)
    }
}

/// The coins that a transaction gives to the wallet and the nullifiers that
/// it publishes.
#[derive(Debug)]
pub struct CoinDelta {
    pub received: Vec<OwnedCoin>,
    pub spent: Vec<Nullifier>,
}

/// The coins chosen to pay a fee, largest first, and what they are worth
/// beyond the fee.
#[derive(Debug)]
pub struct Selection {
    pub coins: Vec<OwnedCoin>,
    pub change: u128,
}

impl Selection {
    /// The nullifiers of the chosen coins, in order.
    pub fn nullifiers(&self) -> (ids: Vec<Nullifier>)
        ensures
            ids@ == nullifiers_of(self.coins@),
    {
        let mut ids: Vec<Nullifier> = Vec::new();
        let mut i: usize = 0;
        while i < self.coins.len()
            invariant
                i <= self.coins.len(),
                ids@ == nullifiers_of(self.coins@.take(i as int)),
            decreases self.coins.len() - i,
        {
            ids.push(self.coins[i].nullifier);
            assert(ids@ =~= nullifiers_of(self.coins@.take(i + 1)));
            i += 1;
        }
        assert(self.coins@.take(self.coins.len() as int) =~= self.coins@);
        ids
    }
}

/// The wallet of the relay: the coins it owns, the coins that requests in
/// flight have reserved, and its public keys.
#[derive(Debug)]
pub struct WalletState {
    coins: Vec<OwnedCoin>,
    pending_spends: Vec<Nullifier>,
    keys: PublicKeys,
}

impl View for WalletState {
    type V = WalletModel;

    closed spec fn view(&self) -> WalletModel {
        WalletModel {
            coins: self.coins@,
            pending: self.pending_spends@,
            coin_public_key: self.keys.coin_public_key@,
            enc_public_key: self.keys.enc_public_key@,
        }
    }
}

impl WalletState {
    /// No two coins share a nullifier, and no nullifier is reserved twice.
    pub open spec fn wf(&self) -> bool {
        self@.wf()
    }

    /// A wallet without coins.
    pub fn new(keys: PublicKeys) -> (w: WalletState)
        ensures
            w.wf(),
            w@.coins == Seq::<OwnedCoin>::empty(),
            w@.pending == Seq::<Nullifier>::empty(),
            w@.coin_public_key == keys.coin_public_key@,
            w@.enc_public_key == keys.enc_public_key@,
    {
        WalletState { coins: Vec::new(), pending_spends: Vec::new(), keys }
    }

    /// A wallet with the given coins and reservations, or `None` where two
    /// coins share a nullifier or a nullifier is reserved twice.
    pub fn from_parts(coins: Vec<OwnedCoin>, pending_spends: Vec<Nullifier>, keys: PublicKeys) -> (r:
        Option<WalletState>)
        ensures
            r is Some <==> distinct_nullifiers(coins@) && distinct(pending_spends@),
            r matches Some(w) ==> w.wf() && w@.coins == coins@ && w@.pending == pending_spends@
                && w@.coin_public_key == keys.coin_public_key@ && w@.enc_public_key
                == keys.enc_public_key@,
    {
        let mut ids: Vec<Nullifier> = Vec::new();
        let mut i: usize = 0;
        while i < coins.len()
            invariant
                i <= coins.len(),
                ids@ == nullifiers_of(coins@.take(i as int)),
            decreases coins.len() - i,
        {
            ids.push(coins[i].nullifier);
            assert(ids@ =~= nullifiers_of(coins@.take(i + 1)));
            i += 1;
        }
        assert(coins@.take(coins.len() as int) =~= coins@);
        let coins_ok = all_distinct(&ids);
        proof {
            if distinct(ids@) {
                assert forall|a: int, b: int| 0 <= a < b < coins.len() implies (#[trigger] coins[a]).nullifier
                    != (#[trigger] coins[b]).nullifier by {
                    assert(ids[a] != ids[b]);
                }
            }
            if distinct_nullifiers(coins@) {
                assert forall|a: int, b: int| 0 <= a < b < ids.len() implies #[trigger] ids[a]
                    != #[trigger] ids[b] by {
                    assert(coins[a].nullifier != coins[b].nullifier);
                }
            }
        }
        if coins_ok && all_distinct(&pending_spends) {
            Some(WalletState { coins, pending_spends, keys })
        } else {
            None
        }
    }

    /// The coins of the wallet, in the order in which they were received.
    pub fn coins(&self) -> (r: &Vec<OwnedCoin>)
        ensures
            r@ == self@.coins,
    {
        &self.coins
    }

    /// The nullifiers of the reserved coins, in the order of reservation.
    pub fn pending_spends(&self) -> (r: &Vec<Nullifier>)
        ensures
            r@ == self@.pending,
    {
        &self.pending_spends
    }

    /// The public keys of the wallet.
    pub fn keys(&self) -> (r: &PublicKeys)
        ensures
            r.coin_public_key@ == self@.coin_public_key,
            r.enc_public_key@ == self@.enc_public_key,
    {
        &self.keys
    }

    /// Whether the wallet holds a coin under `n`.
    pub fn has_coin(&self, n: Nullifier) -> (r: bool)
        ensures
            r == self@.has_coin(n),
    {
        let mut i: usize = 0;
        while i < self.coins.len()
            invariant
                i <= self.coins.len(),
                forall|k: int| 0 <= k < i ==> (#[trigger] self.coins[k]).nullifier != n,
            decreases self.coins.len() - i,
        {
            if self.coins[i].nullifier == n {
                assert(self@.coins[i as int].nullifier == n);
                return true;
            }
            i += 1;
        }
        false
    }

    /// Whether the coin under `n` is reserved.
    pub fn is_pending(&self, n: Nullifier) -> (r: bool)
        ensures
            r == self@.is_pending(n),
    {
        holds(&self.pending_spends, n)
    }

    /// The coins that can pay a fee now, in the wallet's order.
    pub fn spendable_coins(&self) -> (r: Vec<OwnedCoin>)
        ensures
            r@ == self@.candidates(),
    {
        let ghost p = free_to_spend(self.pending_spends@);
        let mut kept: Vec<OwnedCoin> = Vec::new();
        let mut i: usize = 0;
        proof {
            assert(self.coins@.take(0) =~= Seq::empty());
            lemma_filter_empty(p);
        }
        while i < self.coins.len()
            invariant
                i <= self.coins.len(),
                p == free_to_spend(self.pending_spends@),
                kept@ == self.coins@.take(i as int).filter(p),
            decreases self.coins.len() - i,
        {
            let c = self.coins[i];
            proof {
                assert(self.coins@.take(i + 1) =~= self.coins@.take(i as int).push(c));
                self.coins@.take(i as int).lemma_filter_push(c, p);
            }
            if c.coin.token.is_native() && !holds(&self.pending_spends, c.nullifier) {
                kept.push(c);
            }
            i += 1;
        }
        proof {
            assert(self.coins@.take(self.coins.len() as int) =~= self.coins@);
        }
        kept
    }

    /// The coins that pay `fee`, chosen largest first, without reserving
    /// them; or the report that the spendable funds fall short of `fee`.
    pub fn select_for_fee(&self, fee: u128) -> (r: Result<Selection, Error>)
        requires
            self.wf(),
        ensures
            r is Err <==> self@.available() < fee,
            r matches Err(e) ==> e.is_not_available("No funds available"@),
            r matches Ok(s) ==> self@.is_fee_selection(s.coins@, fee as nat) && s.change
                == total_value(s.coins@) - fee,
    {
        let candidates = self.spendable_coins();
        let sorted = sort_by_value_descending(&candidates);
        let mut picked: Vec<OwnedCoin> = Vec::new();
        let mut missing: u128 = fee;
        let mut change: u128 = 0;
        let mut covered: bool = false;
        let mut m: usize = 0;
        proof {
            assert(sorted@.take(0) =~= picked@);
        }
        while m < sorted.len() && !covered
            invariant
                m <= sorted.len(),
                picked@ == sorted@.take(m as int),
                !covered ==> missing == fee - total_value(picked@),
                !covered && m > 0 ==> total_value(picked@) < fee,
                covered ==> m > 0 && total_value(picked@) >= fee && change == total_value(picked@)
                    - fee,
                forall|k: int| 0 < k < m ==> #[trigger] total_value(sorted@.take(k)) < fee,
            decreases sorted.len() - m, if covered { 0int } else { 1int },
        {
            let c = sorted[m];
            proof {
                assert(sorted@.take(m + 1) =~= picked@.push(c));
                lemma_total_push(picked@, c);
            }
            picked.push(c);
            if c.coin.value >= missing {
                change = c.coin.value - missing;
                covered = true;
            } else {
                missing = missing - c.coin.value;
            }
            m += 1;
        }
        proof {
            let w = self@;
            let p = free_to_spend(w.pending);
            lemma_filter_members(w.coins, p);
            lemma_filter_distinct_coins(w.coins, p);
            lemma_rearranged_distinct(candidates@, sorted@);
            lemma_total_prefix(sorted@, m as int);
            assert forall|k: int| 0 <= k < sorted.len() implies w.spendable(#[trigger] sorted[k]) by {
                assert(sorted@.contains(sorted[k]));
                lemma_rearranged_contains(candidates@, sorted@, sorted[k]);
                let j = choose|j: int| 0 <= j < candidates.len() && candidates[j] == sorted[k];
                assert(p(candidates[j]));
                assert(w.coins.contains(candidates[j]));
            }
            assert forall|c: OwnedCoin, k: int|
                #![trigger w.spendable(c), picked[k]]
                w.spendable(c) && !picked@.contains(c) && 0 <= k < picked.len() implies c.coin.value
                <= picked[k].coin.value by {
                let i = choose|i: int| 0 <= i < w.coins.len() && w.coins[i] == c;
                assert(p(w.coins[i]));
                assert(candidates@.contains(c));
                lemma_rearranged_contains(candidates@, sorted@, c);
                let q = choose|q: int| 0 <= q < sorted.len() && sorted[q] == c;
                if q < m {
                    assert(picked[q] == c);
                }
                assert(sorted[k].coin.value >= sorted[q].coin.value);
            }
            assert forall|k: int| 0 < k < picked.len() implies #[trigger] total_value(
                picked@.take(k),
            ) < fee by {
                assert(picked@.take(k) =~= sorted@.take(k));
            }
            if !covered {
                assert(sorted@.take(m as int) =~= sorted@);
            }
        }
        if covered {
            Ok(Selection { coins: picked, change })
        } else if fee == 0 {
            Ok(Selection { coins: picked, change: 0 })
        } else {
            Err(Error::not_available("No funds available"))
        }
    }

    /// Chooses the coins that pay `fee`, largest first, and reserves them,
    /// so that no later request chooses them again. Where the spendable
    /// funds fall short of `fee`, nothing is reserved and the wallet stays
    /// as it was.
    pub fn reserve_for_fee(&mut self, fee: u128) -> (r: Result<Selection, Error>)
        requires
            old(self).wf(),
        ensures
            final(self).wf(),
            r is Err <==> old(self)@.available() < fee,
            r matches Err(e) ==> e.is_not_available("No funds available"@) && final(self)@ == old(
                self,
            )@,
            r matches Ok(s) ==> old(self)@.is_fee_selection(s.coins@, fee as nat) && s.change
                == total_value(s.coins@) - fee && final(self)@ == old(self)@.reserve(
                nullifiers_of(s.coins@),
            ),
    {
        match self.select_for_fee(fee) {
            Ok(s) => {
                let mut i: usize = 0;
                assert(self.pending_spends@ =~= old(self).pending_spends@ + nullifiers_of(
                    s.coins@.take(0),
                ));
                while i < s.coins.len()
                    invariant
                        i <= s.coins.len(),
                        self.coins == old(self).coins,
                        self.keys == old(self).keys,
                        self.pending_spends@ == old(self).pending_spends@ + nullifiers_of(
                            s.coins@.take(i as int),
                        ),
                    decreases s.coins.len() - i,
                {
                    self.pending_spends.push(s.coins[i].nullifier);
                    assert(self.pending_spends@ =~= old(self).pending_spends@ + nullifiers_of(
                        s.coins@.take(i + 1),
                    ));
                    i += 1;
                }
                proof {
                    assert(s.coins@.take(s.coins.len() as int) =~= s.coins@);
                    let before = old(self).pending_spends@;
                    let added = nullifiers_of(s.coins@);
                    let after = before + added;
                    assert forall|a: int, b: int| 0 <= a < b < after.len() implies #[trigger] after[a]
                        != #[trigger] after[b] by {
                        if b < before.len() {
                            assert(before[a] != before[b]);
                        } else if a >= before.len() {
                            assert(s.coins[a - before.len()].nullifier != s.coins[b
                                - before.len()].nullifier);
                        } else {
                            assert(old(self)@.spendable(s.coins[b - before.len()]));
                            assert(before.contains(before[a]));
                        }
                    }
                }
                Ok(s)
            },
            Err(e) => Err(e),
        }
    }

    /// Hands back the coins under `ids`: they are no longer reserved, and a
    /// later request can choose them again. The coins themselves stay.
    pub fn release(&mut self, ids: &Vec<Nullifier>)
        requires
            old(self).wf(),
        ensures
            final(self).wf(),
            final(self)@ == old(self)@.release(ids@),
    {
        let kept = without_ids(&self.pending_spends, ids);
        proof {
            lemma_filter_distinct(self.pending_spends@, not_in(ids@));
        }
        self.pending_spends = kept;
    }

    /// Takes in a coin that the ledger gave to the wallet. It replaces any
    /// coin that the wallet knew under the same nullifier.
    pub fn receive(&mut self, c: OwnedCoin)
        requires
            old(self).wf(),
        ensures
            final(self).wf(),
            final(self)@ == old(self)@.receive(c),
    {
        let mut kept = without_coin(&self.coins, c.nullifier);
        proof {
            lemma_filter_distinct_coins(self.coins@, other_than(c.nullifier));
            lemma_filter_members(self.coins@, other_than(c.nullifier));
            let f = kept@;
            let g = f.push(c);
            assert forall|i: int, j: int| 0 <= i < j < g.len() implies (#[trigger] g[i]).nullifier
                != (#[trigger] g[j]).nullifier by {
                if j == f.len() {
                    assert(other_than(c.nullifier)(f[i]));
                } else {
                    assert(f[i].nullifier != f[j].nullifier);
                }
            }
        }
        kept.push(c);
        self.coins = kept;
    }

    /// Drops the coin under `n`, which the ledger has seen spent, and its
    /// reservation.
    pub fn mark_spent(&mut self, n: Nullifier)
        requires
            old(self).wf(),
        ensures
            final(self).wf(),
            final(self)@ == old(self)@.mark_spent(n),
    {
        let kept = without_coin(&self.coins, n);
        let mut gone: Vec<Nullifier> = Vec::new();
        gone.push(n);
        assert(gone@ =~= seq![n]);
        let still_pending = without_ids(&self.pending_spends, &gone);
        proof {
            lemma_filter_distinct_coins(self.coins@, other_than(n));
            lemma_filter_distinct(self.pending_spends@, not_in(seq![n]));
        }
        self.coins = kept;
        self.pending_spends = still_pending;
    }

    /// Folds a ledger delta into the wallet: first the coins received, then
    /// the coins spent.
    pub fn apply(&mut self, delta: &CoinDelta)
        requires
            old(self).wf(),
        ensures
            final(self).wf(),
            final(self)@ == old(self)@.apply(delta.received@, delta.spent@),
    {
        let mut i: usize = 0;
        assert(delta.received@.take(0) =~= Seq::empty());
        while i < delta.received.len()
            invariant
                i <= delta.received.len(),
                self.wf(),
                self@ == old(self)@.receive_all(delta.received@.take(i as int)),
            decreases delta.received.len() - i,
        {
            assert(delta.received@.take(i + 1).drop_last() =~= delta.received@.take(i as int));
            self.receive(delta.received[i]);
            i += 1;
        }
        assert(delta.received@.take(delta.received.len() as int) =~= delta.received@);
        let ghost middle = self@;
        let mut j: usize = 0;
        assert(delta.spent@.take(0) =~= Seq::empty());
        while j < delta.spent.len()
            invariant
                j <= delta.spent.len(),
                self.wf(),
                self@ == middle.spend_all(delta.spent@.take(j as int)),
            decreases delta.spent.len() - j,
        {
            assert(delta.spent@.take(j + 1).drop_last() =~= delta.spent@.take(j as int));
            self.mark_spent(delta.spent[j]);
            j += 1;
        }
        assert(delta.spent@.take(delta.spent.len() as int) =~= delta.spent@);
    }
}

} // verus!
