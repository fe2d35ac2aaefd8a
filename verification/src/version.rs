//! Versions of the ABI, and the comparisons that Python asks for.

use crate::numbers::le_value;
use core::cmp::Ordering;
use vstd::prelude::*;

verus! {

/// A comparison.
#[derive(Debug, Clone, Copy, PartialEq, Eq)]
pub enum CompareOp {
    Lt,
    Le,
    Eq,
    Ne,
    Gt,
    Ge,
}

/// Whether a comparison holds of two numbers.
pub open spec fn compares(op: CompareOp, a: int, b: int) -> bool {
    match op {
        CompareOp::Lt => a < b,
        CompareOp::Le => a <= b,
        CompareOp::Eq => a == b,
        CompareOp::Ne => a != b,
        CompareOp::Gt => a > b,
        CompareOp::Ge => a >= b,
    }
}

impl CompareOp {
    /// Whether the comparison holds of two things that stand to each other like this.
    pub fn accepts(self, result: Ordering) -> (holds: bool)
        ensures
            holds == (match self {
                CompareOp::Lt => result == Ordering::Less,
                CompareOp::Le => result != Ordering::Greater,
                CompareOp::Eq => result == Ordering::Equal,
                CompareOp::Ne => result != Ordering::Equal,
                CompareOp::Gt => result == Ordering::Greater,
                CompareOp::Ge => result != Ordering::Less,
            }),
    {
        match (self, result) {
            (CompareOp::Lt, Ordering::Less) => true,
            (CompareOp::Le, Ordering::Less) => true,
            (CompareOp::Le, Ordering::Equal) => true,
            (CompareOp::Eq, Ordering::Equal) => true,
            (CompareOp::Ne, Ordering::Less) => true,
            (CompareOp::Ne, Ordering::Greater) => true,
            (CompareOp::Gt, Ordering::Greater) => true,
            (CompareOp::Ge, Ordering::Greater) => true,
            (CompareOp::Ge, Ordering::Equal) => true,
            _ => false,
        }
    }

    /// Whether the comparison holds of two numbers.
    pub fn holds(self, a: u32, b: u32) -> (holds: bool)
        ensures
            holds == compares(self, a as int, b as int),
    {
        match self {
            CompareOp::Lt => a < b,
            CompareOp::Le => a <= b,
            CompareOp::Eq => a == b,
            CompareOp::Ne => a != b,
            CompareOp::Gt => a > b,
            CompareOp::Ge => a >= b,
        }
    }
}

/// A version of the ABI.
#[derive(Debug, Clone, Copy, PartialEq, Eq)]
pub struct AbiVersion {
    pub major: u8,
    pub minor: u8,
}

/// The place of a version among all versions: by major number, then by minor number.
pub open spec fn version_rank(version: AbiVersion) -> int {
    version.major * 256 + version.minor
}

/// How two versions stand to each other: by major number, then by minor number.
fn order_versions(a: &AbiVersion, b: &AbiVersion) -> (order: Ordering)
    ensures
        order == Ordering::Less <==> version_rank(*a) < version_rank(*b),
        order == Ordering::Equal <==> *a == *b,
        order == Ordering::Greater <==> version_rank(*a) > version_rank(*b),
{
    if a.major < b.major {
        Ordering::Less
    } else if a.major > b.major {
        Ordering::Greater
    } else if a.minor < b.minor {
        Ordering::Less
    } else if a.minor > b.minor {
        Ordering::Greater
    } else {
        Ordering::Equal
    }
}

impl AbiVersion {
    /// The version with these numbers.
    pub fn new(major: u8, minor: u8) -> (version: AbiVersion)
        ensures
            version.major == major,
            version.minor == minor,
    {
        AbiVersion { major, minor }
    }

    /// The major number.
    pub fn major(&self) -> (major: u8)
        ensures
            major == self.major,
    {
        self.major
    }

    /// The minor number.
    pub fn minor(&self) -> (minor: u8)
        ensures
            minor == self.minor,
    {
        self.minor
    }

    /// A hash: the number whose bytes are the minor and the major number, least
    /// significant first.
    pub fn __hash__(&self) -> (hash: u64)
        ensures
            hash as nat == le_value(seq![self.minor, self.major, 0, 0, 0, 0, 0, 0]),
            hash as int == version_rank(*self),
    {
        proof {
            lemma_hash_value(self.minor, self.major);
        }
        self.minor as u64 + 256 * (self.major as u64)
    }

    /// Whether a comparison holds of two versions.
    pub fn __richcmp__(&self, other: &AbiVersion, op: CompareOp) -> (holds: bool)
        ensures
            holds == compares(op, version_rank(*self), version_rank(*other)),
    {
        op.accepts(order_versions(self, other))
    }
}

proof fn lemma_hash_value(minor: u8, major: u8)
    ensures
        le_value(seq![minor, major, 0, 0, 0, 0, 0, 0]) == minor + 256 * major,
{
    reveal_with_fuel(le_value, 9);
    let digits = seq![minor, major, 0u8, 0u8, 0u8, 0u8, 0u8, 0u8];
    let rest = digits.drop_first();
    assert(rest =~= seq![major, 0u8, 0u8, 0u8, 0u8, 0u8, 0u8]);
    let zeros = rest.drop_first();
    assert(zeros =~= seq![0u8, 0u8, 0u8, 0u8, 0u8, 0u8]);
    assert(le_value(zeros) == 0) by {
        assert(zeros.drop_first().drop_first().drop_first().drop_first().drop_first().drop_first()
            =~= Seq::<u8>::empty());
    }
}

/// Versions are equal exactly when they compare equal, and exactly when their hashes are
/// equal; and their hashes stand to each other as the versions do.
pub proof fn version_order_is_hash_order(a: AbiVersion, b: AbiVersion, op: CompareOp)
    ensures
        a == b <==> compares(CompareOp::Eq, version_rank(a), version_rank(b)),
        compares(op, version_rank(a), version_rank(b)) == compares(
            op,
            le_value(seq![a.minor, a.major, 0, 0, 0, 0, 0, 0]) as int,
            le_value(seq![b.minor, b.major, 0, 0, 0, 0, 0, 0]) as int,
        ),
{
    lemma_hash_value(a.minor, a.major);
    lemma_hash_value(b.minor, b.major);
}

/// Each comparison and its opposite split all pairs of numbers between them.
pub proof fn comparisons_are_complementary(a: int, b: int)
    ensures
        compares(CompareOp::Eq, a, b) != compares(CompareOp::Ne, a, b),
        compares(CompareOp::Lt, a, b) != compares(CompareOp::Ge, a, b),
        compares(CompareOp::Gt, a, b) != compares(CompareOp::Le, a, b),
        compares(CompareOp::Lt, a, b) == compares(CompareOp::Gt, b, a),
{
}

} // verus!
