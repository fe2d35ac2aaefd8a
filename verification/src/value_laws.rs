//! What numbers, keys, texts, dictionaries and orders are.

use crate::contract::returned_guess;
use crate::error::{reason_text, ReasonModel};
use crate::function::decoding_model;
use crate::keys::{
    first_non_digit, hex_digit, hex_outcome, hex_text, hex_value, is_public_key, key_from_text,
    lemma_first_non_digit, HexError, KeyTextErrorModel,
};
use crate::ledger::{BitsModel, MsgAddressModel, StdAddressModel, VarAddressModel};
use crate::numbers::{bound, le_value};
use crate::order::{address_order, address_order_is_total, byte_order};
use crate::text::{trimmed, white_space};
use crate::token::{
    entry_index, goes_before, insert_index, key_order_is_total, lemma_entry_index,
    lemma_insert_index, map_insert, MapEntryModel, MapKeyModel, TokenModel,
};
use crate::value::{dict_set, key_index, lemma_key_index, ItemModel, ValueModel};
use vstd::arithmetic::power::pow;
use vstd::prelude::*;
use vstd::utf8::encode_utf8;

verus! {

proof fn lemma_bound_is_power(n: nat)
    ensures
        bound(n) == pow(256, n),
    decreases n,
{
    reveal(pow);
    if n > 0 {
        lemma_bound_is_power((n - 1) as nat);
    }
}

/// A byte stands for itself, no bytes stand for zero, and bytes that follow others count as
/// many times more as those others can tell apart.
pub proof fn lower_bytes_come_first(byte: u8, low: Seq<u8>, high: Seq<u8>)
    ensures
        le_value(Seq::empty()) == 0,
        le_value(seq![byte]) == byte,
        le_value(low + high) == le_value(low) + pow(256, low.len()) * le_value(high),
    decreases low.len(),
{
    reveal_with_fuel(le_value, 2);
    lemma_bound_is_power(low.len());
    assert(seq![byte].drop_first() =~= Seq::<u8>::empty());
    if low.len() == 0 {
        assert(low + high =~= high);
        assert(bound(0) * le_value(high) == le_value(high)) by (nonlinear_arith)
            requires
                bound(0) == 1,
        ;
    } else {
        let rest = low.drop_first();
        lower_bytes_come_first(byte, rest, high);
        lemma_bound_is_power(rest.len());
        assert((low + high).drop_first() =~= rest + high);
        let b = bound(rest.len());
        let v = le_value(high);
        assert(bound(low.len()) == 256 * b);
        assert((256 * b) * v == 256 * (b * v)) by (nonlinear_arith);
    }
}

/// The hexadecimal digits stand for their places among the sixteen, in either case, and no
/// other byte stands for a number.
pub proof fn digits_are_the_sixteen(byte: u8, n: int)
    requires
        0 <= n < 16,
    ensures
        hex_value(byte) == Some(n) <==> byte as char == "0123456789abcdef"@[n] || byte as char
            == "0123456789ABCDEF"@[n],
        hex_value(byte) matches Some(value) ==> 0 <= value < 16,
        hex_digit(n) == "0123456789abcdef"@[n],
{
    reveal_strlit("0123456789abcdef");
    reveal_strlit("0123456789ABCDEF");
}

/// The text of bytes has two lower case digits for each, the upper half first.
pub proof fn bytes_are_written_in_pairs(bytes: Seq<u8>, i: int)
    requires
        0 <= i < bytes.len(),
    ensures
        hex_text(bytes).len() == 2 * bytes.len(),
        hex_text(bytes)[2 * i] == "0123456789abcdef"@[bytes[i] as int / 16],
        hex_text(bytes)[2 * i + 1] == "0123456789abcdef"@[bytes[i] as int % 16],
{
    digits_are_the_sixteen(0, bytes[i] as int / 16);
    digits_are_the_sixteen(0, bytes[i] as int % 16);
}

/// Text of an odd length is refused first, then the first byte that is no digit, with its
/// place. Otherwise each pair of digits gives one byte, the upper half first.
pub proof fn pairs_are_read_as_bytes(text: Seq<u8>, first: int)
    requires
        text.len() <= usize::MAX,
        0 <= first <= text.len(),
        forall|i: int| 0 <= i < first ==> hex_value(#[trigger] text[i]) is Some,
        first < text.len() ==> hex_value(text[first]) is None,
    ensures
        match hex_outcome(text) {
            Ok(bytes) => {
                &&& text.len() == 2 * bytes.len()
                &&& first == text.len()
                &&& forall|i: int|
                    #![trigger bytes[i]]
                    0 <= i < bytes.len() ==> hex_value(text[2 * i]) == Some(bytes[i] as int / 16)
                        && hex_value(text[2 * i + 1]) == Some(bytes[i] as int % 16)
            },
            Err(HexError::OddLength) => text.len() % 2 == 1,
            Err(HexError::InvalidHexCharacter { c, index }) => {
                &&& text.len() % 2 == 0
                &&& first < text.len()
                &&& index == first
                &&& c == text[first] as char
            },
            Err(HexError::InvalidStringLength) => false,
        },
{
    lemma_first_non_digit(text);
    let found = first_non_digit(text) as int;
    if found < first {
        assert(hex_value(text[found]) is Some);
    } else if first < found {
        assert(hex_value(text[first]) is Some);
    }
    if let Ok(bytes) = hex_outcome(text) {
        assert forall|i: int| #![trigger bytes[i]] 0 <= i < bytes.len() implies hex_value(
            text[2 * i],
        ) == Some(bytes[i] as int / 16) && hex_value(text[2 * i + 1]) == Some(
            bytes[i] as int % 16,
        ) by {
            let upper = hex_value(text[2 * i])->0;
            let lower = hex_value(text[2 * i + 1])->0;
            assert(hex_value(text[2 * i]) is Some);
            assert(hex_value(text[2 * i + 1]) is Some);
            assert(0 <= upper < 16 && 0 <= lower < 16);
            assert(bytes[i] == (16 * upper + lower) as u8);
        }
    }
}

/// Text is read as a key exactly if its bytes are one. What is wrong with the text is told
/// before what is wrong with the bytes, and their number before what they are.
pub proof fn keys_are_read_from_text(text: Seq<char>)
    ensures
        match key_from_text(text) {
            Ok(key) => {
                &&& hex_outcome(encode_utf8(text)) == Ok::<Seq<u8>, HexError>(key)
                &&& key.len() == 32
                &&& is_public_key(key)
            },
            Err(KeyTextErrorModel::Hex(e)) => hex_outcome(encode_utf8(text)) == Err::<
                Seq<u8>,
                HexError,
            >(e),
            Err(KeyTextErrorModel::Key(words)) => {
                &&& hex_outcome(encode_utf8(text)) matches Ok(bytes)
                &&& !is_public_key(bytes)
                &&& bytes.len() != 32 ==> words
                    == "signature error: PublicKey must be 32 bytes in length"@
                &&& bytes.len() == 32 ==> words
                    == "signature error: Cannot decompress Edwards point"@
            },
        },
{
}

/// The messages that do not depend on what was handed over.
pub proof fn messages_are_fixed()
    ensures
        reason_text(ReasonModel::FixedArrayLength) == "Invalid fixed array length"@,
        reason_text(ReasonModel::FixedBytesLength) == "Invalid fixed bytes length"@,
        reason_text(ReasonModel::MapKeyMissing)
            == "Expected mapping key in the first tuple element"@,
        reason_text(ReasonModel::MapKeyType) == "Unsupported mapping key type"@,
        reason_text(ReasonModel::MapValueMissing)
            == "Expected mapping value in the second tuple element"@,
        reason_text(ReasonModel::AddressType) == "Unsupported address type"@,
        reason_text(ReasonModel::NoOutput) == "No output messages produced"@,
        reason_text(ReasonModel::NoInMessage) == "Transaction without incoming message"@,
        reason_text(ReasonModel::NoInMessageBody) == "Incoming message without body"@,
        reason_text(ReasonModel::NoMessageBody) == "Message without body"@,
        reason_text(ReasonModel::NotOutbound) == "Message is not an external outbound"@,
        reason_text(ReasonModel::Hex(HexError::OddLength)) == "Odd number of digits"@,
        reason_text(ReasonModel::Hex(HexError::InvalidStringLength)) == "Invalid string length"@,
{
}

/// White space is the twenty-five characters that have the Unicode property of that name.
pub proof fn white_space_is_of_unicode(c: char)
    ensures
        white_space(c) <==> seq![
            0x9u32, 0xa, 0xb, 0xc, 0xd, 0x20, 0x85, 0xa0, 0x1680, 0x2000, 0x2001, 0x2002, 0x2003,
            0x2004, 0x2005, 0x2006, 0x2007, 0x2008, 0x2009, 0x200a, 0x2028, 0x2029, 0x202f, 0x205f,
            0x3000,
        ].contains(c as u32),
{
    let all = seq![
        0x9u32, 0xa, 0xb, 0xc, 0xd, 0x20, 0x85, 0xa0, 0x1680, 0x2000, 0x2001, 0x2002, 0x2003,
        0x2004, 0x2005, 0x2006, 0x2007, 0x2008, 0x2009, 0x200a, 0x2028, 0x2029, 0x202f, 0x205f,
        0x3000,
    ];
    let code = c as u32;
    if white_space(c) {
        let place: int = if code <= 0xd {
            code - 0x9
        } else if code == 0x20 {
            5
        } else if code == 0x85 {
            6
        } else if code == 0xa0 {
            7
        } else if code == 0x1680 {
            8
        } else if code <= 0x200a {
            9 + code - 0x2000
        } else if code == 0x2028 {
            20
        } else if code == 0x2029 {
            21
        } else if code == 0x202f {
            22
        } else if code == 0x205f {
            23
        } else {
            24
        };
        assert(all[place] == code);
    }
}

/// Trimmed text is what is left between the white space at either end.
pub proof fn text_between_white_space_is_left(text: Seq<char>, from: int, to: int)
    requires
        0 <= from <= to <= text.len(),
        forall|i: int| 0 <= i < from ==> white_space(#[trigger] text[i]),
        forall|i: int| to <= i < text.len() ==> white_space(#[trigger] text[i]),
        from < to ==> !white_space(text[from]) && !white_space(text[to - 1]),
    ensures
        trimmed(text) == text.subrange(from, to),
    decreases text.len(),
{
    if text.len() > 0 && white_space(text.first()) {
        let rest = text.drop_first();
        if from > 0 {
            assert forall|i: int| 0 <= i < from - 1 implies white_space(#[trigger] rest[i]) by {
                assert(rest[i] == text[i + 1]);
            }
            assert forall|i: int| to - 1 <= i < rest.len() implies white_space(
                #[trigger] rest[i],
            ) by {
                assert(rest[i] == text[i + 1]);
            }
            text_between_white_space_is_left(rest, from - 1, to - 1);
            assert(rest.subrange(from - 1, to - 1) =~= text.subrange(from, to));
        } else {
            assert(to == 0);
            assert forall|i: int| 0 <= i < rest.len() implies white_space(#[trigger] rest[i]) by {
                assert(rest[i] == text[i + 1]);
            }
            text_between_white_space_is_left(rest, 0, 0);
            assert(rest.subrange(0, 0) =~= text.subrange(from, to));
        }
    } else if text.len() > 0 && white_space(text.last()) {
        assert(from == 0) by {
            if from > 0 {
                assert(white_space(text[0]));
            }
        }
        assert(to > 0) by {
            if to == 0 {
                assert(white_space(text[0]));
            }
        }
        assert(to < text.len());
        let rest = text.drop_last();
        assert forall|i: int| to <= i < rest.len() implies white_space(#[trigger] rest[i]) by {
            assert(rest[i] == text[i]);
        }
        text_between_white_space_is_left(rest, from, to);
        assert(rest.subrange(from, to) =~= text.subrange(from, to));
    } else {
        if text.len() > 0 {
            assert(from == 0) by {
                if from > 0 {
                    assert(white_space(text[0]));
                }
            }
            assert(to == text.len()) by {
                if to < text.len() {
                    assert(white_space(text[text.len() - 1]));
                }
            }
        }
        assert(text.subrange(from, to) =~= text);
    }
}

/// Setting a value replaces the value in the entry with its key, or adds an entry behind all
/// others; every other entry stays in its place.
pub proof fn set_value_takes_its_place(
    items: Seq<ItemModel>,
    key: Seq<char>,
    value: ValueModel,
    first: int,
)
    requires
        0 <= first <= items.len(),
        forall|i: int| 0 <= i < first ==> (#[trigger] items[i]).key != key,
        first < items.len() ==> items[first].key == key,
    ensures
        dict_set(items, key, value) == (if first < items.len() {
            items.update(first, ItemModel { key, value })
        } else {
            items.push(ItemModel { key, value })
        }),
{
    lemma_key_index(items, key);
    let found = key_index(items, key) as int;
    if found < first {
        assert(items[found].key != key);
    } else if first < found {
        assert(items[first].key != key);
    }
}

/// An entry that is set in a mapping replaces the value of its key, or stands behind the keys
/// that go before it and before those that go behind it; every other entry stays.
pub proof fn set_entry_takes_its_place(
    entries: Seq<MapEntryModel>,
    key: MapKeyModel,
    value: TokenModel,
    at: int,
)
    requires
        0 <= at <= entries.len(),
        forall|i: int| 0 <= i < at ==> goes_before((#[trigger] entries[i]).key, key),
        forall|i: int| at < i < entries.len() ==> goes_before(key, (#[trigger] entries[i]).key),
        at < entries.len() ==> entries[at].key == key || goes_before(key, entries[at].key),
    ensures
        map_insert(entries, key, value) == (if at < entries.len() && entries[at].key == key {
            entries.update(at, MapEntryModel { key, value })
        } else {
            entries.insert(at, MapEntryModel { key, value })
        }),
{
    key_order_is_total(key, key, key);
    lemma_entry_index(entries, key);
    lemma_insert_index(entries, key);
    let found = entry_index(entries, key) as int;
    let put = insert_index(entries, key) as int;
    assert(found < entries.len() ==> found == at) by {
        if found < entries.len() && found != at {
            assert(entries[found].key == key);
        }
    }
    if at < entries.len() && entries[at].key == key {
        assert(found == at);
    } else {
        assert(found == entries.len());
        if put < at {
            key_order_is_total(entries[put].key, key, key);
        } else if at < put {
            assert(goes_before(key, entries[at].key));
        }
    }
}

/// Bytes stand in the order of a dictionary of words: the first that differs decides, and a
/// beginning stands before the whole.
pub proof fn first_difference_decides(a: Seq<u8>, b: Seq<u8>, at: int)
    requires
        0 <= at <= a.len(),
        at <= b.len(),
        forall|i: int| 0 <= i < at ==> #[trigger] a[i] == b[i],
    ensures
        at < a.len() && at < b.len() && a[at] < b[at] ==> byte_order(a, b) == -1,
        at < a.len() && at < b.len() && a[at] > b[at] ==> byte_order(a, b) == 1,
        at == a.len() && at < b.len() ==> byte_order(a, b) == -1,
        at < a.len() && at == b.len() ==> byte_order(a, b) == 1,
        at == a.len() && at == b.len() ==> byte_order(a, b) == 0,
    decreases a.len(),
{
    if at > 0 {
        let x = a.drop_first();
        let y = b.drop_first();
        assert(a[0] == b[0]);
        assert forall|i: int| 0 <= i < at - 1 implies #[trigger] x[i] == y[i] by {
            assert(a[i + 1] == b[i + 1]);
        }
        first_difference_decides(x, y, at - 1);
    }
}

/// No address stands before an outside one, that before the standard form, and that before
/// the variable form.
pub proof fn forms_of_addresses_are_ordered(
    outside: BitsModel,
    std: StdAddressModel,
    var: VarAddressModel,
)
    ensures
        address_order(MsgAddressModel::AddrNone, MsgAddressModel::AddrNone) == 0,
        address_order(MsgAddressModel::AddrNone, MsgAddressModel::AddrExt(outside)) == -1,
        address_order(MsgAddressModel::AddrNone, MsgAddressModel::AddrStd(std)) == -1,
        address_order(MsgAddressModel::AddrNone, MsgAddressModel::AddrVar(var)) == -1,
        address_order(MsgAddressModel::AddrExt(outside), MsgAddressModel::AddrStd(std)) == -1,
        address_order(MsgAddressModel::AddrExt(outside), MsgAddressModel::AddrVar(var)) == -1,
        address_order(MsgAddressModel::AddrStd(std), MsgAddressModel::AddrVar(var)) == -1,
{
}

/// Outside addresses are ordered by their bytes, and where those are the same by how many
/// bits count.
pub proof fn outside_addresses_are_ordered(a: BitsModel, b: BitsModel)
    ensures
        byte_order(a.bytes, b.bytes) != 0 ==> address_order(
            MsgAddressModel::AddrExt(a),
            MsgAddressModel::AddrExt(b),
        ) == byte_order(a.bytes, b.bytes),
        a.bytes == b.bytes && a.len < b.len ==> address_order(
            MsgAddressModel::AddrExt(a),
            MsgAddressModel::AddrExt(b),
        ) == -1,
{
    first_difference_decides(a.bytes, a.bytes, a.bytes.len() as int);
}

/// Addresses of an account with one anycast are ordered by their workchains, and within a
/// workchain by their accounts.
pub proof fn accounts_are_ordered(
    a: StdAddressModel,
    b: StdAddressModel,
    c: VarAddressModel,
    d: VarAddressModel,
)
    ensures
        a.anycast == b.anycast && a.workchain < b.workchain ==> address_order(
            MsgAddressModel::AddrStd(a),
            MsgAddressModel::AddrStd(b),
        ) == -1,
        a.anycast == b.anycast && a.workchain == b.workchain ==> address_order(
            MsgAddressModel::AddrStd(a),
            MsgAddressModel::AddrStd(b),
        ) == byte_order(a.account, b.account),
        c.anycast == d.anycast && c.workchain < d.workchain ==> address_order(
            MsgAddressModel::AddrVar(c),
            MsgAddressModel::AddrVar(d),
        ) == -1,
        c.anycast == d.anycast && c.workchain == d.workchain ==> address_order(
            MsgAddressModel::AddrVar(c),
            MsgAddressModel::AddrVar(d),
        ) == address_order(
            MsgAddressModel::AddrExt(c.account),
            MsgAddressModel::AddrExt(d.account),
        ),
{
    if let Some(bits) = a.anycast {
        first_difference_decides(bits.bytes, bits.bytes, bits.bytes.len() as int);
    }
    if let Some(bits) = c.anycast {
        first_difference_decides(bits.bytes, bits.bytes, bits.bytes.len() as int);
    }
}

/// Anycast decides before anything else in an address of an account: none stands before any,
/// and two that differ stand as outside addresses of the same bits do.
pub proof fn anycast_decides_first(
    a: StdAddressModel,
    b: StdAddressModel,
    c: VarAddressModel,
    d: VarAddressModel,
)
    ensures
        a.anycast is None && b.anycast is Some ==> address_order(
            MsgAddressModel::AddrStd(a),
            MsgAddressModel::AddrStd(b),
        ) == -1,
        c.anycast is None && d.anycast is Some ==> address_order(
            MsgAddressModel::AddrVar(c),
            MsgAddressModel::AddrVar(d),
        ) == -1,
        a.anycast is Some && b.anycast is Some && a.anycast != b.anycast ==> address_order(
            MsgAddressModel::AddrStd(a),
            MsgAddressModel::AddrStd(b),
        ) == address_order(
            MsgAddressModel::AddrExt(a.anycast->0),
            MsgAddressModel::AddrExt(b.anycast->0),
        ),
        c.anycast is Some && d.anycast is Some && c.anycast != d.anycast ==> address_order(
            MsgAddressModel::AddrVar(c),
            MsgAddressModel::AddrVar(d),
        ) == address_order(
            MsgAddressModel::AddrExt(c.anycast->0),
            MsgAddressModel::AddrExt(d.anycast->0),
        ),
{
    if let (Some(x), Some(y)) = (a.anycast, b.anycast) {
        let x = MsgAddressModel::AddrExt(x);
        let y = MsgAddressModel::AddrExt(y);
        address_order_is_total(x, y, y);
    }
    if let (Some(x), Some(y)) = (c.anycast, d.anycast) {
        let x = MsgAddressModel::AddrExt(x);
        let y = MsgAddressModel::AddrExt(y);
        address_order_is_total(x, y, y);
    }
}

/// Addresses as keys stand in a mapping in the order of addresses.
pub proof fn address_keys_are_ordered(a: MsgAddressModel, b: MsgAddressModel)
    ensures
        goes_before(MapKeyModel::Address(a), MapKeyModel::Address(b)) <==> address_order(a, b) < 0,
{
}

/// Keys of unequal kinds stand in a mapping with unsigned integers first and addresses last;
/// equal integers stand in the order of their sizes.
pub proof fn kinds_of_keys_are_ordered(
    m: nat,
    n: int,
    size: usize,
    wider: usize,
    address: MsgAddressModel,
)
    ensures
        goes_before(MapKeyModel::Uint(m, size), MapKeyModel::Int(n, wider)),
        goes_before(MapKeyModel::Int(n, size), MapKeyModel::Address(address)),
        goes_before(MapKeyModel::Uint(m, size), MapKeyModel::Address(address)),
        goes_before(MapKeyModel::Uint(m, size), MapKeyModel::Uint(m, wider)) <==> size < wider,
        goes_before(MapKeyModel::Int(n, size), MapKeyModel::Int(n, wider)) <==> size < wider,
{
}

/// A body is decoded as it is given, from inside or from outside the ledger as it is said to
/// come, and partially only where that is asked for.
pub proof fn bodies_are_decoded_as_asked(
    body: Seq<u8>,
    internal: bool,
    allow_partial: Option<bool>,
)
    ensures
        decoding_model(body, internal, allow_partial).body == body,
        decoding_model(body, internal, allow_partial).internal == internal,
        decoding_model(body, internal, allow_partial).partial <==> allow_partial == Some(true),
{
}

/// What came back from guessing a function is kept.
pub proof fn guesses_are_kept(guess: Result<Option<String>, String>)
    ensures
        match guess {
            Ok(Some(name)) => returned_guess(guess) == Ok::<Option<Seq<char>>, Seq<char>>(
                Some(name@),
            ),
            Ok(None) => returned_guess(guess) == Ok::<Option<Seq<char>>, Seq<char>>(None),
            Err(words) => returned_guess(guess) == Err::<Option<Seq<char>>, Seq<char>>(words@),
        },
{
}

} // verus!
