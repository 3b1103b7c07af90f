use vstd::prelude::*;

verus! {

/// The identifier under which a coin is known once it is spent: a 256-bit
/// value, held as its upper and lower halves.
#[derive(Clone, Copy, Debug, PartialEq, Eq, Structural, Hash)]
pub struct Nullifier {
    pub hi: u128,
    pub lo: u128,
}

/// The identifier of a token type: a 256-bit value.
#[derive(Clone, Copy, Debug, PartialEq, Eq, Structural, Hash)]
pub struct TokenType {
    pub hi: u128,
    pub lo: u128,
}

/// The random value that makes a coin unique: 256 bits.
#[derive(Clone, Copy, Debug, PartialEq, Eq, Structural, Hash)]
pub struct Nonce {
    pub hi: u128,
    pub lo: u128,
}

/// An immutable unit of value.
#[derive(Clone, Copy, Debug, PartialEq, Eq, Structural, Hash)]
pub struct Coin {
    pub value: u128,
    pub token: TokenType,
    pub nonce: Nonce,
}

/// A coin of the wallet together with the nullifier that identifies it.
#[derive(Clone, Copy, Debug, PartialEq, Eq, Structural, Hash)]
pub struct OwnedCoin {
    pub nullifier: Nullifier,
    pub coin: Coin,
}

impl TokenType {
    /// The token in which fees are paid: the all-zero identifier.
    pub open spec fn spec_native() -> TokenType {
        TokenType { hi: 0, lo: 0 }
    }

    /// The token in which fees are paid: the all-zero identifier.
    #[verifier::when_used_as_spec(spec_native)]
    pub fn native() -> (t: TokenType)
        ensures
            t == TokenType::spec_native(),
    {
        TokenType { hi: 0, lo: 0 }
    }

    /// Whether this is the token in which fees are paid.
    pub fn is_native(&self) -> (r: bool)
        ensures
            r == (*self == TokenType::spec_native()),
    {
        self.hi == 0 && self.lo == 0
    }
}

/// The coins of `coins` as a map from their nullifiers: of two coins under
/// one nullifier the later counts.
pub open spec fn coin_map(coins: Seq<OwnedCoin>) -> Map<Nullifier, Coin>
    decreases coins.len(),
{
    if coins.len() == 0 {
        Map::empty()
    } else {
        coin_map(coins.drop_last()).insert(coins.last().nullifier, coins.last().coin)
    }
}

impl OwnedCoin {
    /// Whether the coin can pay fees at all, whatever the wallet has
    /// reserved.
    pub open spec fn pays_fees(&self) -> bool {
        self.coin.token == TokenType::spec_native()
    }
}

/// The sum of the values of `coins`.
pub open spec fn total_value(coins: Seq<OwnedCoin>) -> nat
    decreases coins.len(),
{
    if coins.len() == 0 {
        0
    } else {
        total_value(coins.drop_last()) + coins.last().coin.value as nat
    }
}

/// The nullifiers of `coins`, in order.
pub open spec fn nullifiers_of(coins: Seq<OwnedCoin>) -> Seq<Nullifier> {
    Seq::new(coins.len(), |i: int| coins[i].nullifier)
}

/// No two coins of `coins` share a nullifier.
pub open spec fn distinct_nullifiers(coins: Seq<OwnedCoin>) -> bool {
    forall|i: int, j: int|
        0 <= i < j < coins.len() ==> (#[trigger] coins[i]).nullifier != (#[trigger] coins[j]).nullifier
}

/// No value occurs twice in `ids`.
pub open spec fn distinct(ids: Seq<Nullifier>) -> bool {
    forall|i: int, j: int| 0 <= i < j < ids.len() ==> #[trigger] ids[i] != #[trigger] ids[j]
}

/// The values of `coins` never increase from one position to the next.
pub open spec fn descending(coins: Seq<OwnedCoin>) -> bool {
    forall|i: int, j: int|
        0 <= i <= j < coins.len() ==> (#[trigger] coins[i]).coin.value >= (#[trigger] coins[j]).coin.value
}

/// Adding a coin at the end adds its value to the total.
pub proof fn lemma_total_push(coins: Seq<OwnedCoin>, c: OwnedCoin)
    ensures
        total_value(coins.push(c)) == total_value(coins) + c.coin.value,
{
    assert(coins.push(c).drop_last() =~= coins);
}

/// Putting a coin anywhere into a sequence adds its value to the total.
pub proof fn lemma_total_insert(coins: Seq<OwnedCoin>, at: int, c: OwnedCoin)
    requires
        0 <= at <= coins.len(),
    ensures
        total_value(coins.insert(at, c)) == total_value(coins) + c.coin.value,
    decreases coins.len(),
{
    if at == coins.len() {
        assert(coins.insert(at, c) =~= coins.push(c));
        lemma_total_push(coins, c);
    } else {
        let shorter = coins.drop_last();
        assert(coins.insert(at, c).drop_last() =~= shorter.insert(at, c));
        assert(coins.insert(at, c).last() == coins.last());
        lemma_total_insert(shorter, at, c);
    }
}

/// A prefix never has a larger total than the whole.
pub proof fn lemma_total_prefix(coins: Seq<OwnedCoin>, n: int)
    requires
        0 <= n <= coins.len(),
    ensures
        total_value(coins.take(n)) <= total_value(coins),
    decreases coins.len(),
{
    if n == coins.len() {
        assert(coins.take(n) =~= coins);
    } else {
        assert(coins.drop_last().take(n) =~= coins.take(n));
        lemma_total_prefix(coins.drop_last(), n);
    }
}

} // verus!
