use vstd::prelude::*;
use crate::coin::{Nonce, Nullifier, TokenType};
use crate::hexcodec::{encode, hex_text};

verus! {

/// The sixteen bytes of `x`, the lowest first.
pub open spec fn low_first(x: nat, n: nat) -> Seq<u8>
    decreases n,
{
    if n == 0 {
        Seq::empty()
    } else {
        seq![(x % 256) as u8] + low_first(x / 256, (n - 1) as nat)
    }
}

/// The sixteen bytes of `x`, the highest first.
pub open spec fn high_first(x: u128) -> Seq<u8> {
    Seq::new(16, |i: int| low_first(x as nat, 16)[15 - i])
}

/// The 32 bytes of a 256-bit value held as two halves, the highest first.
pub open spec fn bytes32(hi: u128, lo: u128) -> Seq<u8> {
    high_first(hi) + high_first(lo)
}

/// The bytes of `x`, the lowest first.
fn low_bytes(x: u128) -> (r: Vec<u8>)
    ensures
        r@ == low_first(x as nat, 16),
        r.len() == 16,
{
    let mut r: Vec<u8> = Vec::new();
    let mut rest: u128 = x;
    let mut i: usize = 0;
    while i < 16
        invariant
            i <= 16,
            r.len() == i,
            r@ + low_first(rest as nat, (16 - i) as nat) == low_first(x as nat, 16),
        decreases 16 - i,
    {
        let b: u8 = (rest % 256) as u8;
        proof {
            let tail = low_first((rest / 256) as nat, (16 - i - 1) as nat);
            assert(low_first(rest as nat, (16 - i) as nat) == seq![b] + tail);
            assert(r@.push(b) + tail =~= r@ + (seq![b] + tail));
        }
        r.push(b);
        rest = rest / 256;
        i += 1;
    }
    assert(r@ + Seq::<u8>::empty() =~= r@);
    r
}

/// The `n`-th power of 256.
pub open spec fn pow256(n: nat) -> nat
    decreases n,
{
    if n == 0 {
        1
    } else {
        256 * pow256((n - 1) as nat)
    }
}

/// Powers of 256 grow with the exponent.
proof fn lemma_pow256_grows(i: nat, j: nat)
    requires
        i <= j,
    ensures
        pow256(i) <= pow256(j),
        pow256(i) >= 1,
    decreases j,
{
    if i < j {
        lemma_pow256_grows(i, (j - 1) as nat);
    } else if i > 0 {
        lemma_pow256_grows((i - 1) as nat, (i - 1) as nat);
    }
}

/// The sixteenth power of 256 is the first number that sixteen bytes do
/// not hold.
proof fn lemma_pow256_sixteen()
    ensures
        pow256(16) == 0x1_0000_0000_0000_0000_0000_0000_0000_0000,
{
    reveal_with_fuel(pow256, 17);
}

/// The byte of `x` at `k`, where `x` is held in `n` bytes, the highest
/// first.
pub open spec fn byte_at(x: nat, n: nat, k: int) -> u8 {
    low_first(x, n)[n - 1 - k]
}

/// The number that sixteen bytes of `bytes` hold, from `start` on, the
/// highest first.
fn sixteen_bytes(bytes: &[u8], start: usize) -> (r: u128)
    requires
        start + 16 <= bytes.len(),
    ensures
        high_first(r) == bytes@.subrange(start as int, start + 16),
{
    let mut acc: u128 = 0;
    let mut i: usize = 0;
    while i < 16
        invariant
            i <= 16,
            start + 16 <= bytes.len(),
            acc < pow256(i as nat),
            low_first(acc as nat, i as nat).len() == i,
            forall|k: int|
                0 <= k < i ==> #[trigger] byte_at(acc as nat, i as nat, k) == bytes[start + k],
        decreases 16 - i,
    {
        let b = bytes[start + i];
        proof {
            lemma_pow256_grows((i + 1) as nat, 16);
            lemma_pow256_sixteen();
            let next = (acc * 256 + b) as nat;
            assert(next % 256 == b as nat);
            assert(next / 256 == acc as nat);
            let longer = low_first(next, (i + 1) as nat);
            assert(longer == seq![b] + low_first(acc as nat, i as nat));
            assert forall|k: int| 0 <= k < i + 1 implies #[trigger] byte_at(
                next,
                (i + 1) as nat,
                k,
            ) == bytes[start + k] by {
                if k < i {
                    assert(longer[i - k] == byte_at(acc as nat, i as nat, k));
                }
            }
        }
        acc = acc * 256 + b as u128;
        i += 1;
    }
    assert forall|k: int| 0 <= k < 16 implies high_first(acc)[k] == bytes@.subrange(
        start as int,
        start + 16,
    )[k] by {
        assert(byte_at(acc as nat, 16, k) == bytes[start + k]);
    }
    assert(high_first(acc) =~= bytes@.subrange(start as int, start + 16));
    acc
}

/// The two halves of the 256-bit value that 32 bytes hold, the highest
/// byte first; `None` where `bytes` are not 32 bytes.
pub fn halves(bytes: &[u8]) -> (r: Option<(u128, u128)>)
    ensures
        r is Some <==> bytes.len() == 32,
        r matches Some((hi, lo)) ==> bytes32(hi, lo) == bytes@,
{
    if bytes.len() != 32 {
        return None;
    }
    let hi = sixteen_bytes(bytes, 0);
    let lo = sixteen_bytes(bytes, 16);
    assert(bytes32(hi, lo) =~= bytes@);
    Some((hi, lo))
}

impl Nullifier {
    /// The 32 bytes of the nullifier, the highest first.
    pub open spec fn spec_bytes(&self) -> Seq<u8> {
        bytes32(self.hi, self.lo)
    }

    /// The 32 bytes of the nullifier, the highest first.
    pub fn to_bytes(&self) -> (r: Vec<u8>)
        ensures
            r@ == self.spec_bytes(),
    {
        let hi = low_bytes(self.hi);
        let lo = low_bytes(self.lo);
        let mut r: Vec<u8> = Vec::new();
        let mut i: usize = 0;
        while i < 16
            invariant
                i <= 16,
                hi@ == low_first(self.hi as nat, 16),
                hi.len() == 16,
                r@ == high_first(self.hi).take(i as int),
            decreases 16 - i,
        {
            r.push(hi[15 - i]);
            assert(r@ =~= high_first(self.hi).take(i + 1));
            i += 1;
        }
        assert(high_first(self.hi).take(16) =~= high_first(self.hi));
        let mut j: usize = 0;
        while j < 16
            invariant
                j <= 16,
                lo@ == low_first(self.lo as nat, 16),
                lo.len() == 16,
                r@ == high_first(self.hi) + high_first(self.lo).take(j as int),
            decreases 16 - j,
        {
            r.push(lo[15 - j]);
            assert(r@ =~= high_first(self.hi) + high_first(self.lo).take(j + 1));
            j += 1;
        }
        assert(high_first(self.lo).take(16) =~= high_first(self.lo));
        r
    }

    /// The nullifier that 32 bytes hold, the highest first; `None` where
    /// `bytes` are not 32 bytes.
    pub fn from_bytes(bytes: &[u8]) -> (r: Option<Nullifier>)
        ensures
            r is Some <==> bytes.len() == 32,
            r matches Some(n) ==> n.spec_bytes() == bytes@,
    {
        match halves(bytes) {
            Some((hi, lo)) => Some(Nullifier { hi, lo }),
            None => None,
        }
    }

    /// The nullifier in hexadecimal: 64 digits.
    pub fn to_hex(&self) -> (r: String)
        ensures
            r@ == hex_text(self.spec_bytes()),
    {
        encode(self.to_bytes().as_slice())
    }
}

impl TokenType {
    /// The 32 bytes of the identifier, the highest first.
    pub open spec fn spec_bytes(&self) -> Seq<u8> {
        bytes32(self.hi, self.lo)
    }

    /// The 32 bytes of the identifier, the highest first.
    pub fn to_bytes(&self) -> (r: Vec<u8>)
        ensures
            r@ == self.spec_bytes(),
    {
        (Nullifier { hi: self.hi, lo: self.lo }).to_bytes()
    }

    /// The token type that 32 bytes hold, the highest first; `None` where
    /// `bytes` are not 32 bytes.
    pub fn from_bytes(bytes: &[u8]) -> (r: Option<TokenType>)
        ensures
            r is Some <==> bytes.len() == 32,
            r matches Some(t) ==> t.spec_bytes() == bytes@,
    {
        match halves(bytes) {
            Some((hi, lo)) => Some(TokenType { hi, lo }),
            None => None,
        }
    }
}

impl Nonce {
    /// The 32 bytes of the nonce, the highest first.
    pub open spec fn spec_bytes(&self) -> Seq<u8> {
        bytes32(self.hi, self.lo)
    }

    /// The 32 bytes of the nonce, the highest first.
    pub fn to_bytes(&self) -> (r: Vec<u8>)
        ensures
            r@ == self.spec_bytes(),
    {
        (Nullifier { hi: self.hi, lo: self.lo }).to_bytes()
    }

    /// The nonce that 32 bytes hold, the highest first; `None` where `bytes`
    /// are not 32 bytes.
    pub fn from_bytes(bytes: &[u8]) -> (r: Option<Nonce>)
        ensures
            r is Some <==> bytes.len() == 32,
            r matches Some(n) ==> n.spec_bytes() == bytes@,
    {
        match halves(bytes) {
            Some((hi, lo)) => Some(Nonce { hi, lo }),
            None => None,
        }
    }
}

/// The character of a decimal digit.
pub open spec fn decimal_digit(d: nat) -> char {
    (d + 48) as u8 as char
}

/// The decimal text of `n`, without leading zeros.
pub open spec fn decimal(n: nat) -> Seq<char>
    decreases n,
{
    if n < 10 {
        seq![decimal_digit(n)]
    } else {
        decimal(n / 10).push(decimal_digit(n % 10))
    }
}

/// The text of a decimal digit.
fn digit_text(d: u8) -> (r: &'static str)
    requires
        d < 10,
    ensures
        r@ == seq![decimal_digit(d as nat)],
{
    proof {
        reveal_strlit("0");
        reveal_strlit("1");
        reveal_strlit("2");
        reveal_strlit("3");
        reveal_strlit("4");
        reveal_strlit("5");
        reveal_strlit("6");
        reveal_strlit("7");
        reveal_strlit("8");
        reveal_strlit("9");
    }
    let r = if d == 0 {
        "0"
    } else if d == 1 {
        "1"
    } else if d == 2 {
        "2"
    } else if d == 3 {
        "3"
    } else if d == 4 {
        "4"
    } else if d == 5 {
        "5"
    } else if d == 6 {
        "6"
    } else if d == 7 {
        "7"
    } else if d == 8 {
        "8"
    } else {
        "9"
    };
    assert(r@ =~= seq![decimal_digit(d as nat)]);
    r
}

/// The decimal text of an amount.
pub fn amount_text(n: u128) -> (r: String)
    ensures
        r@ == decimal(n as nat),
{
    let mut text = String::from_str(digit_text((n % 10) as u8));
    let mut rest: u128 = n / 10;
    while rest > 0
        invariant
            rest == 0 ==> text@ == decimal(n as nat),
            rest > 0 ==> decimal(rest as nat) + text@ == decimal(n as nat),
        decreases rest,
    {
        let d = digit_text((rest % 10) as u8);
        let ghost before = text@;
        text = String::from_str(d).concat(text.as_str());
        proof {
            if rest >= 10 {
                assert(decimal((rest / 10) as nat) + (d@ + before) =~= decimal(
                    (rest / 10) as nat,
                ).push(decimal_digit((rest % 10) as nat)) + before);
            }
        }
        rest = rest / 10;
    }
    text
}

} // verus!
