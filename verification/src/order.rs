//! An order of addresses, for the keys of dictionaries.
//!
//! An order is a number: below zero if the first of two stands before the second, above
//! zero if it stands behind it, and zero if they are the same.

use crate::ledger::{
    optional_bits, Bits, BitsModel, MsgAddress, MsgAddressModel, StdAddress, StdAddressModel,
    VarAddress, VarAddressModel,
};
use vstd::prelude::*;

verus! {

/// Integers ascend.
pub open spec fn int_order(a: int, b: int) -> int {
    if a < b {
        -1
    } else if a > b {
        1
    } else {
        0
    }
}

/// The second order decides where the first does not.
pub open spec fn chained(first: int, second: int) -> int {
    if first != 0 {
        first
    } else {
        second
    }
}

/// Bytes stand in the order of a dictionary of words: the first that differs decides, and
/// a beginning stands before the whole.
pub open spec fn byte_order(a: Seq<u8>, b: Seq<u8>) -> int
    decreases a.len(),
{
    if a.len() == 0 || b.len() == 0 {
        int_order(a.len() as int, b.len() as int)
    } else {
        chained(int_order(a[0] as int, b[0] as int), byte_order(a.drop_first(), b.drop_first()))
    }
}

/// Strings of bits: their bytes decide, then how many bits count.
pub open spec fn bits_order(a: BitsModel, b: BitsModel) -> int {
    chained(byte_order(a.bytes, b.bytes), int_order(a.len as int, b.len as int))
}

/// What is not there stands before what is.
pub open spec fn optional_bits_order(a: Option<BitsModel>, b: Option<BitsModel>) -> int {
    match (a, b) {
        (None, None) => 0,
        (None, Some(_)) => -1,
        (Some(_), None) => 1,
        (Some(x), Some(y)) => bits_order(x, y),
    }
}

/// Addresses of the standard form: anycast, workchain and account decide, in this order.
pub open spec fn std_order(a: StdAddressModel, b: StdAddressModel) -> int {
    chained(
        optional_bits_order(a.anycast, b.anycast),
        chained(
            int_order(a.workchain as int, b.workchain as int),
            byte_order(a.account, b.account),
        ),
    )
}

/// Addresses of the variable form: anycast, workchain and account decide, in this order.
pub open spec fn var_order(a: VarAddressModel, b: VarAddressModel) -> int {
    chained(
        optional_bits_order(a.anycast, b.anycast),
        chained(
            int_order(a.workchain as int, b.workchain as int),
            bits_order(a.account, b.account),
        ),
    )
}

/// The place of a form of address among the forms.
pub open spec fn form_rank(address: MsgAddressModel) -> int {
    match address {
        MsgAddressModel::AddrNone => 0,
        MsgAddressModel::AddrExt(_) => 1,
        MsgAddressModel::AddrStd(_) => 2,
        MsgAddressModel::AddrVar(_) => 3,
    }
}

/// Addresses: their forms decide, then what they hold.
pub open spec fn address_order(a: MsgAddressModel, b: MsgAddressModel) -> int {
    match (a, b) {
        (MsgAddressModel::AddrExt(x), MsgAddressModel::AddrExt(y)) => bits_order(x, y),
        (MsgAddressModel::AddrStd(x), MsgAddressModel::AddrStd(y)) => std_order(x, y),
        (MsgAddressModel::AddrVar(x), MsgAddressModel::AddrVar(y)) => var_order(x, y),
        _ => int_order(form_rank(a), form_rank(b)),
    }
}

proof fn lemma_byte_order(a: Seq<u8>, b: Seq<u8>, c: Seq<u8>)
    ensures
        byte_order(a, b) == -byte_order(b, a),
        byte_order(a, b) == 0 <==> a == b,
        byte_order(a, b) < 0 && byte_order(b, c) < 0 ==> byte_order(a, c) < 0,
    decreases a.len(),
{
    if a.len() > 0 && b.len() > 0 {
        lemma_byte_order(
            a.drop_first(),
            b.drop_first(),
            if c.len() > 0 {
                c.drop_first()
            } else {
                c
            },
        );
        if byte_order(a, b) == 0 {
            assert(a =~= seq![a[0]] + a.drop_first());
            assert(b =~= seq![b[0]] + b.drop_first());
        }
    } else if byte_order(a, b) == 0 {
        assert(a =~= b);
    }
}

proof fn lemma_bits_order(a: BitsModel, b: BitsModel, c: BitsModel)
    ensures
        bits_order(a, b) == -bits_order(b, a),
        bits_order(a, b) == 0 <==> a == b,
        bits_order(a, b) < 0 && bits_order(b, c) < 0 ==> bits_order(a, c) < 0,
{
    lemma_byte_order(a.bytes, b.bytes, c.bytes);
    lemma_byte_order(b.bytes, c.bytes, a.bytes);
}

proof fn lemma_optional_bits_order(
    a: Option<BitsModel>,
    b: Option<BitsModel>,
    c: Option<BitsModel>,
)
    ensures
        optional_bits_order(a, b) == -optional_bits_order(b, a),
        optional_bits_order(a, b) == 0 <==> a == b,
        optional_bits_order(a, b) < 0 && optional_bits_order(b, c) < 0 ==> optional_bits_order(
            a,
            c,
        ) < 0,
{
    if let (Some(x), Some(y)) = (a, b) {
        lemma_bits_order(x, y, if let Some(z) = c { z } else { y });
    }
}

/// Addresses are in a total order: of two that differ one stands before the other, and
/// what stands before an address stands before whatever that address stands before.
pub proof fn address_order_is_total(a: MsgAddressModel, b: MsgAddressModel, c: MsgAddressModel)
    ensures
        address_order(a, b) == -address_order(b, a),
        address_order(a, b) == 0 <==> a == b,
        address_order(a, b) < 0 && address_order(b, c) < 0 ==> address_order(a, c) < 0,
{
    match (a, b) {
        (MsgAddressModel::AddrExt(x), MsgAddressModel::AddrExt(y)) => {
            lemma_bits_order(x, y, if let MsgAddressModel::AddrExt(z) = c { z } else { y });
        },
        (MsgAddressModel::AddrStd(x), MsgAddressModel::AddrStd(y)) => {
            let z = if let MsgAddressModel::AddrStd(z) = c { z } else { y };
            lemma_optional_bits_order(x.anycast, y.anycast, z.anycast);
            lemma_optional_bits_order(y.anycast, z.anycast, x.anycast);
            lemma_byte_order(x.account, y.account, z.account);
        },
        (MsgAddressModel::AddrVar(x), MsgAddressModel::AddrVar(y)) => {
            let z = if let MsgAddressModel::AddrVar(z) = c { z } else { y };
            lemma_optional_bits_order(x.anycast, y.anycast, z.anycast);
            lemma_optional_bits_order(y.anycast, z.anycast, x.anycast);
            lemma_bits_order(x.account, y.account, z.account);
        },
        _ => {},
    }
}

/// Integers ascend.
fn order_ints(a: i64, b: i64) -> (order: i8)
    ensures
        order == int_order(a as int, b as int),
{
    if a < b {
        -1
    } else if a > b {
        1
    } else {
        0
    }
}

/// Lengths ascend.
fn order_lengths(a: usize, b: usize) -> (order: i8)
    ensures
        order == int_order(a as int, b as int),
{
    if a < b {
        -1
    } else if a > b {
        1
    } else {
        0
    }
}

fn order_bytes(a: &[u8], b: &[u8]) -> (order: i8)
    ensures
        order == byte_order(a@, b@),
{
    let mut i: usize = 0;
    assert(a@.skip(0) =~= a@);
    assert(b@.skip(0) =~= b@);
    while i < a.len() && i < b.len()
        invariant
            i <= a@.len(),
            i <= b@.len(),
            byte_order(a@, b@) == byte_order(a@.skip(i as int), b@.skip(i as int)),
        decreases a@.len() - i,
    {
        proof {
            assert(a@.skip(i as int).drop_first() =~= a@.skip(i + 1));
            assert(b@.skip(i as int).drop_first() =~= b@.skip(i + 1));
        }
        if a[i] < b[i] {
            return -1;
        }
        if a[i] > b[i] {
            return 1;
        }
        i = i + 1;
    }
    order_lengths(a.len(), b.len())
}

fn order_bits(a: &Bits, b: &Bits) -> (order: i8)
    ensures
        order == bits_order(a@, b@),
{
    let first: i8 = order_bytes(a.bytes.as_slice(), b.bytes.as_slice());
    if first != 0 {
        first
    } else {
        order_lengths(a.len, b.len)
    }
}

fn order_optional_bits(a: &Option<Bits>, b: &Option<Bits>) -> (order: i8)
    ensures
        order == optional_bits_order(optional_bits(*a), optional_bits(*b)),
{
    match (a, b) {
        (None, None) => 0,
        (None, Some(_)) => -1,
        (Some(_), None) => 1,
        (Some(x), Some(y)) => order_bits(x, y),
    }
}

fn order_std(a: &StdAddress, b: &StdAddress) -> (order: i8)
    ensures
        order == std_order(a@, b@),
{
    let first: i8 = order_optional_bits(&a.anycast, &b.anycast);
    if first != 0 {
        return first;
    }
    let second: i8 = order_ints(a.workchain as i64, b.workchain as i64);
    if second != 0 {
        return second;
    }
    order_bytes(a.account.as_slice(), b.account.as_slice())
}

fn order_var(a: &VarAddress, b: &VarAddress) -> (order: i8)
    ensures
        order == var_order(a@, b@),
{
    let first: i8 = order_optional_bits(&a.anycast, &b.anycast);
    if first != 0 {
        return first;
    }
    let second: i8 = order_ints(a.workchain as i64, b.workchain as i64);
    if second != 0 {
        return second;
    }
    order_bits(&a.account, &b.account)
}

fn rank_form(address: &MsgAddress) -> (rank: i64)
    ensures
        rank == form_rank(address@),
{
    match address {
        MsgAddress::AddrNone => 0,
        MsgAddress::AddrExt(_) => 1,
        MsgAddress::AddrStd(_) => 2,
        MsgAddress::AddrVar(_) => 3,
    }
}

/// How two addresses stand to each other.
pub fn order_addresses(a: &MsgAddress, b: &MsgAddress) -> (order: i8)
    ensures
        order == address_order(a@, b@),
{
    match (a, b) {
        (MsgAddress::AddrExt(x), MsgAddress::AddrExt(y)) => order_bits(x, y),
        (MsgAddress::AddrStd(x), MsgAddress::AddrStd(y)) => order_std(x, y),
        (MsgAddress::AddrVar(x), MsgAddress::AddrVar(y)) => order_var(x, y),
        _ => order_ints(rank_form(a), rank_form(b)),
    }
}

} // verus!
