//! Integers of any size, as Python hands them over and as tokens hold them.

use core::cmp::Ordering;
use vstd::prelude::*;

verus! {

/// The number that a sequence of bytes stands for, least significant byte first.
pub open spec fn le_value(digits: Seq<u8>) -> nat
    decreases digits.len(),
{
    if digits.len() == 0 {
        0
    } else {
        digits[0] as nat + 256 * le_value(digits.drop_first())
    }
}

/// The top byte is not zero, so that a number has one sequence of digits only.
pub open spec fn minimal(digits: Seq<u8>) -> bool {
    digits.len() > 0 ==> digits.last() != 0
}

/// 256 to the power of `n`.
pub open spec fn bound(n: nat) -> nat
    decreases n,
{
    if n == 0 {
        1
    } else {
        256 * bound((n - 1) as nat)
    }
}

proof fn lemma_value_below_bound(digits: Seq<u8>)
    ensures
        le_value(digits) < bound(digits.len()),
    decreases digits.len(),
{
    if digits.len() > 0 {
        lemma_value_below_bound(digits.drop_first());
    }
}

proof fn lemma_value_push(digits: Seq<u8>, top: u8)
    ensures
        le_value(digits.push(top)) == le_value(digits) + top as nat * bound(digits.len()),
    decreases digits.len(),
{
    let longer = digits.push(top);
    if digits.len() == 0 {
        assert(longer.drop_first() =~= Seq::<u8>::empty());
        reveal_with_fuel(le_value, 2);
        assert(bound(0) == 1);
    } else {
        let rest = digits.drop_first();
        assert(longer.drop_first() =~= rest.push(top));
        lemma_value_push(rest, top);
        let b = bound(rest.len());
        assert(bound(digits.len()) == 256 * b);
        assert(256 * (top as nat * b) == top as nat * (256 * b)) by (nonlinear_arith);
        assert(longer[0] == digits[0]);
        assert(le_value(longer) == longer[0] as nat + 256 * le_value(rest.push(top)));
    }
}

/// Splits the top byte off a sequence of digits that is not empty.
proof fn lemma_value_top(digits: Seq<u8>)
    requires
        digits.len() > 0,
    ensures
        le_value(digits) == le_value(digits.drop_last()) + digits.last() as nat * bound(
            (digits.len() - 1) as nat,
        ),
{
    assert(digits =~= digits.drop_last().push(digits.last()));
    lemma_value_push(digits.drop_last(), digits.last());
}

proof fn lemma_minimal_at_least(digits: Seq<u8>)
    requires
        minimal(digits),
        digits.len() > 0,
    ensures
        le_value(digits) >= bound((digits.len() - 1) as nat),
{
    lemma_value_top(digits);
    let b = bound((digits.len() - 1) as nat);
    let top = digits.last() as nat;
    assert(top * b >= b) by (nonlinear_arith)
        requires
            top >= 1,
    ;
}

proof fn lemma_bound_monotone(m: nat, n: nat)
    requires
        m <= n,
    ensures
        1 <= bound(m) <= bound(n),
    decreases n,
{
    if n > 0 {
        if m < n {
            lemma_bound_monotone(m, (n - 1) as nat);
        } else {
            lemma_bound_monotone((m - 1) as nat, (n - 1) as nat);
        }
    }
}

/// A number has one sequence of digits without leading zeros.
pub proof fn digits_are_unique(a: Seq<u8>, b: Seq<u8>)
    requires
        minimal(a),
        minimal(b),
        le_value(a) == le_value(b),
    ensures
        a == b,
    decreases a.len(),
{
    if a.len() == 0 {
        if b.len() > 0 {
            lemma_minimal_at_least(b);
            lemma_bound_monotone(0, (b.len() - 1) as nat);
        }
        assert(a =~= b);
    } else {
        if b.len() == 0 {
            lemma_minimal_at_least(a);
            lemma_bound_monotone(0, (a.len() - 1) as nat);
        } else {
            let ra = a.drop_first();
            let rb = b.drop_first();
            assert(a[0] == b[0] && le_value(ra) == le_value(rb)) by {
                let x = le_value(ra);
                let y = le_value(rb);
                assert(a[0] as nat + 256 * x == b[0] as nat + 256 * y);
            }
            digits_are_unique(ra, rb);
            assert(a =~= seq![a[0]] + ra);
            assert(b =~= seq![b[0]] + rb);
        }
    }
}

/// Compares two numbers, each given by its bytes with the least significant first.
///
/// This is `num_bigint::BigUint`: `from_bytes_le` reads the bytes of each argument as
/// a number in base 256, and `Ord::cmp` compares the two numbers.
#[verifier::external_body]
fn compare_digits(a: &[u8], b: &[u8]) -> (order: Ordering)
    ensures
        order == Ordering::Less <==> le_value(a@) < le_value(b@),
        order == Ordering::Equal <==> le_value(a@) == le_value(b@),
        order == Ordering::Greater <==> le_value(a@) > le_value(b@),
{
    num_bigint::BigUint::from_bytes_le(a).cmp(&num_bigint::BigUint::from_bytes_le(b))
}

/// A non-negative integer of any size.
#[derive(Debug, PartialEq, Eq)]
pub struct BigUint {
    digits: Vec<u8>,
}

impl View for BigUint {
    type V = nat;

    closed spec fn view(&self) -> nat {
        le_value(self.digits@)
    }
}

impl Clone for BigUint {
    fn clone(&self) -> (copy: BigUint)
        ensures
            copy@ == self@,
    {
        proof {
            use_type_invariant(self);
        }
        let digits: Vec<u8> = self.digits.clone();
        assert(digits@ =~= self.digits@);
        BigUint { digits }
    }
}

impl BigUint {
    #[verifier::type_invariant]
    spec fn inv(self) -> bool {
        minimal(self.digits@)
    }

    /// The number whose bytes are `bytes`, least significant first.
    pub fn from_bytes_le(bytes: &[u8]) -> (number: BigUint)
        ensures
            number@ == le_value(bytes@),
    {
        let mut len: usize = bytes.len();
        assert(bytes@.take(len as int) =~= bytes@);
        while len > 0 && bytes[len - 1] == 0
            invariant
                len <= bytes@.len(),
                le_value(bytes@.take(len as int)) == le_value(bytes@),
            decreases len,
        {
            proof {
                let shorter = bytes@.take(len - 1);
                assert(bytes@.take(len as int) =~= shorter.push(0u8));
                lemma_value_push(shorter, 0u8);
            }
            len = len - 1;
        }
        let mut digits: Vec<u8> = Vec::with_capacity(len);
        let mut i: usize = 0;
        while i < len
            invariant
                i <= len <= bytes@.len(),
                digits@ =~= bytes@.take(i as int),
            decreases len - i,
        {
            digits.push(bytes[i]);
            i = i + 1;
        }
        BigUint { digits }
    }

    /// The bytes of the number, least significant first and none of them superfluous.
    pub fn to_bytes_le(&self) -> (bytes: Vec<u8>)
        ensures
            le_value(bytes@) == self@,
            minimal(bytes@),
    {
        proof {
            use_type_invariant(self);
        }
        let bytes: Vec<u8> = self.digits.clone();
        assert(bytes@ =~= self.digits@);
        bytes
    }

    /// The number that a machine integer holds.
    pub fn from_u128(value: u128) -> (number: BigUint)
        ensures
            number@ == value,
    {
        let mut digits: Vec<u8> = Vec::new();
        let mut rest: u128 = value;
        proof {
            assert(digits@.len() == 0 && bound(0) == 1 && le_value(digits@) == 0);
            assert(rest * bound(digits@.len()) == rest) by (nonlinear_arith)
                requires
                    bound(digits@.len()) == 1,
            ;
        }
        while rest > 0
            invariant
                value == le_value(digits@) + rest * bound(digits@.len()),
                rest == 0 ==> minimal(digits@),
            decreases rest,
        {
            let low: u8 = (rest % 256) as u8;
            let high: u128 = rest / 256;
            proof {
                lemma_value_push(digits@, low);
                let b = bound(digits@.len());
                assert(bound(digits@.len() + 1) == 256 * b);
                assert(rest as nat * b == low as nat * b + high as nat * (256 * b))
                    by (nonlinear_arith)
                    requires
                        rest as nat == low as nat + 256 * (high as nat),
                ;
            }
            digits.push(low);
            rest = high;
        }
        BigUint { digits }
    }

    /// The machine integer that equals the number, if there is one.
    pub fn to_u128(&self) -> (value: Option<u128>)
        ensures
            match value {
                Some(v) => v as nat == self@,
                None => self@ > u128::MAX,
            },
    {
        proof {
            use_type_invariant(self);
        }
        let len: usize = self.digits.len();
        if len > 16 {
            proof {
                lemma_minimal_at_least(self.digits@);
                lemma_bound_monotone(16, (len - 1) as nat);
                lemma_bound_16();
            }
            return None;
        }
        let mut value: u128 = 0;
        let mut i: usize = len;
        proof {
            lemma_bound_16();
            assert(self.digits@.skip(len as int) =~= Seq::<u8>::empty());
        }
        while i > 0
            invariant
                i <= len <= 16,
                len == self.digits@.len(),
                bound(16) == 0x1_0000_0000_0000_0000_0000_0000_0000_0000,
                value as nat == le_value(self.digits@.skip(i as int)),
            decreases i,
        {
            i = i - 1;
            proof {
                let tail = self.digits@.skip(i as int);
                assert(tail.drop_first() =~= self.digits@.skip(i + 1));
                lemma_value_below_bound(tail);
                lemma_bound_monotone(tail.len(), 16);
            }
            value = self.digits[i] as u128 + 256 * value;
        }
        assert(self.digits@.skip(0) =~= self.digits@);
        Some(value)
    }

    /// Whether the number is zero.
    pub fn is_zero(&self) -> (zero: bool)
        ensures
            zero == (self@ == 0),
    {
        proof {
            use_type_invariant(self);
            if self.digits@.len() > 0 {
                lemma_minimal_at_least(self.digits@);
                lemma_bound_monotone(0, (self.digits@.len() - 1) as nat);
            }
        }
        self.digits.len() == 0
    }

    /// How the number stands to another.
    pub fn compare(&self, other: &BigUint) -> (order: Ordering)
        ensures
            order == Ordering::Less <==> self@ < other@,
            order == Ordering::Equal <==> self@ == other@,
            order == Ordering::Greater <==> self@ > other@,
    {
        compare_digits(self.digits.as_slice(), other.digits.as_slice())
    }
}

proof fn lemma_bound_16()
    ensures
        bound(16) == 0x1_0000_0000_0000_0000_0000_0000_0000_0000,
{
    reveal_with_fuel(bound, 17);
}

/// An integer of any size.
#[derive(Debug, PartialEq, Eq)]
pub struct BigInt {
    negative: bool,
    magnitude: BigUint,
}

impl View for BigInt {
    type V = int;

    closed spec fn view(&self) -> int {
        if self.negative {
            -(self.magnitude@ as int)
        } else {
            self.magnitude@ as int
        }
    }
}

impl Clone for BigInt {
    fn clone(&self) -> (copy: BigInt)
        ensures
            copy@ == self@,
    {
        proof {
            use_type_invariant(self);
        }
        BigInt { negative: self.negative, magnitude: self.magnitude.clone() }
    }
}

impl BigInt {
    /// Zero has no sign.
    #[verifier::type_invariant]
    spec fn inv(self) -> bool {
        self.negative ==> self.magnitude@ > 0
    }

    /// `magnitude`, or its negation where `negative` asks for it.
    pub fn new(negative: bool, magnitude: BigUint) -> (number: BigInt)
        ensures
            number@ == (if negative {
                -(magnitude@ as int)
            } else {
                magnitude@ as int
            }),
    {
        let zero: bool = magnitude.is_zero();
        BigInt { negative: negative && !zero, magnitude }
    }

    /// Whether the number is below zero.
    pub fn is_negative(&self) -> (negative: bool)
        ensures
            negative == (self@ < 0),
    {
        proof {
            use_type_invariant(self);
        }
        self.negative
    }

    /// The number without its sign.
    pub fn magnitude(&self) -> (magnitude: BigUint)
        ensures
            magnitude@ == (if self@ < 0 {
                -self@
            } else {
                self@
            }),
    {
        proof {
            use_type_invariant(self);
        }
        self.magnitude.clone()
    }

    /// How the number stands to another.
    pub fn compare(&self, other: &BigInt) -> (order: Ordering)
        ensures
            order == Ordering::Less <==> self@ < other@,
            order == Ordering::Equal <==> self@ == other@,
            order == Ordering::Greater <==> self@ > other@,
    {
        proof {
            use_type_invariant(self);
            use_type_invariant(other);
        }
        if self.negative {
            if other.negative {
                other.magnitude.compare(&self.magnitude)
            } else {
                Ordering::Less
            }
        } else if other.negative {
            Ordering::Greater
        } else {
            self.magnitude.compare(&other.magnitude)
        }
    }
}

} // verus!
