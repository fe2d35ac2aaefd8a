//! What is read for each type of parameter.

use crate::error::{ErrorModel, PyKind, ReasonModel};
use crate::keys::{hex_outcome, is_public_key, key_error_text};
use crate::ledger::{
    account_address, message_address, AddressModel, MsgAddressModel, StdAddressModel,
    VarAddressModel,
};
use crate::param::{KindModel, ParamModel};
use crate::parse::{
    parse_entries_model, parse_entry_model, parse_key_model, parse_list_model, parse_model,
    parse_params_model, refusal_of, RefusalModel,
};
use crate::parsing_laws::{
    entries_are_read_each, last_entry_is_kept, lists_are_read_each, param_outcome,
    params_are_read_each,
};
use crate::token::{
    entry_index, goes_before, lemma_entry_index, map_get, MapEntryModel, MapKeyModel, TokenModel,
};
use crate::value::{dict_get, key_index, lemma_key_index, ItemModel, ValueModel};
use vstd::prelude::*;
use vstd::utf8::encode_utf8;

verus! {

/// An integer of any size is read with its value and the size of its type, without a test
/// of the size; below zero there is no unsigned integer.
pub proof fn integers_are_read(size: usize, n: int, refusals: Seq<RefusalModel>)
    ensures
        parse_model(KindModel::Int(size), ValueModel::Int(n), refusals) == Ok::<
            TokenModel,
            ErrorModel,
        >(TokenModel::Int(n, size)),
        parse_model(KindModel::VarInt(size), ValueModel::Int(n), refusals) == Ok::<
            TokenModel,
            ErrorModel,
        >(TokenModel::VarInt(size, n)),
        n >= 0 ==> parse_model(KindModel::Uint(size), ValueModel::Int(n), refusals) == Ok::<
            TokenModel,
            ErrorModel,
        >(TokenModel::Uint(n as nat, size)),
        n >= 0 ==> parse_model(KindModel::VarUint(size), ValueModel::Int(n), refusals) == Ok::<
            TokenModel,
            ErrorModel,
        >(TokenModel::VarUint(size, n as nat)),
        n < 0 ==> parse_model(KindModel::Uint(size), ValueModel::Int(n), refusals) == Err::<
            TokenModel,
            ErrorModel,
        >(ErrorModel::Overflow),
        n < 0 ==> parse_model(KindModel::VarUint(size), ValueModel::Int(n), refusals) == Err::<
            TokenModel,
            ErrorModel,
        >(ErrorModel::Overflow),
{
}

/// A time is read with its value exactly if it fits into its width.
pub proof fn times_are_read(n: int, refusals: Seq<RefusalModel>)
    ensures
        0 <= n <= 0xffff_ffff_ffff_ffff ==> parse_model(
            KindModel::Time,
            ValueModel::Int(n),
            refusals,
        ) == Ok::<TokenModel, ErrorModel>(TokenModel::Time(n as u64)),
        !(0 <= n <= 0xffff_ffff_ffff_ffff) ==> parse_model(
            KindModel::Time,
            ValueModel::Int(n),
            refusals,
        ) == Err::<TokenModel, ErrorModel>(ErrorModel::Overflow),
        0 <= n <= 0xffff_ffff ==> parse_model(KindModel::Expire, ValueModel::Int(n), refusals)
            == Ok::<TokenModel, ErrorModel>(TokenModel::Expire(n as u32)),
        !(0 <= n <= 0xffff_ffff) ==> parse_model(KindModel::Expire, ValueModel::Int(n), refusals)
            == Err::<TokenModel, ErrorModel>(ErrorModel::Overflow),
{
}

/// The words of a refusal are those of the first refusal of the amount.
pub proof fn first_refusal_decides(refusals: Seq<RefusalModel>, amount: u128, first: int)
    requires
        0 <= first <= refusals.len(),
        forall|i: int| 0 <= i < first ==> (#[trigger] refusals[i]).amount != amount,
        first < refusals.len() ==> refusals[first].amount == amount,
    ensures
        refusal_of(refusals, amount) == (if first < refusals.len() {
            Some(refusals[first].words)
        } else {
            None
        }),
    decreases refusals.len(),
{
    if refusals.len() > 0 && first > 0 {
        assert(refusals[0].amount != amount);
        let rest = refusals.drop_first();
        assert forall|i: int| 0 <= i < first - 1 implies (#[trigger] rest[i]).amount
            != amount by {
            assert(rest[i] == refusals[i + 1]);
        }
        first_refusal_decides(rest, amount, first - 1);
    }
}

/// An amount of tokens is read with its value if it fits into its width and is not refused;
/// the words of its first refusal are a `RuntimeError`.
pub proof fn amounts_are_read(n: int, refusals: Seq<RefusalModel>, first: int)
    requires
        0 <= first <= refusals.len(),
        forall|i: int| 0 <= i < first ==> (#[trigger] refusals[i]).amount != n,
        first < refusals.len() ==> refusals[first].amount == n,
    ensures
        parse_model(KindModel::Token, ValueModel::Int(n), refusals) == (if !(0 <= n
            <= 0xffff_ffff_ffff_ffff_ffff_ffff_ffff_ffff) {
            Err::<TokenModel, ErrorModel>(ErrorModel::Overflow)
        } else if first < refusals.len() {
            Err(ErrorModel::Runtime(ReasonModel::Reported(refusals[first].words)))
        } else {
            Ok(TokenModel::Token(n as u128))
        }),
{
    if 0 <= n <= 0xffff_ffff_ffff_ffff_ffff_ffff_ffff_ffff {
        first_refusal_decides(refusals, n as u128, first);
    }
}

/// Whether a type is one of integers.
pub open spec fn is_integer_kind(kind: KindModel) -> bool {
    kind is Uint || kind is Int || kind is VarUint || kind is VarInt || kind is Token || kind is Time
        || kind is Expire
}

/// Where an integer is asked for, `False` and `True` are read as zero and one, and whatever
/// is no integer is a `TypeError`.
pub proof fn booleans_are_integers(kind: KindModel, value: ValueModel, refusals: Seq<RefusalModel>)
    requires
        is_integer_kind(kind),
    ensures
        value == ValueModel::Bool(false) ==> parse_model(kind, value, refusals) == parse_model(
            kind,
            ValueModel::Int(0),
            refusals,
        ),
        value == ValueModel::Bool(true) ==> parse_model(kind, value, refusals) == parse_model(
            kind,
            ValueModel::Int(1),
            refusals,
        ),
        !(value is Bool) && !(value is Int) ==> parse_model(kind, value, refusals) == Err::<
            TokenModel,
            ErrorModel,
        >(ErrorModel::Type(PyKind::Int)),
{
}

/// Plain values are read as they are, and whatever is of another kind is a `TypeError`.
pub proof fn plain_values_are_read(
    b: bool,
    cell: Seq<u8>,
    bytes: Seq<u8>,
    text: Seq<char>,
    value: ValueModel,
    refusals: Seq<RefusalModel>,
)
    ensures
        parse_model(KindModel::Bool, ValueModel::Bool(b), refusals) == Ok::<
            TokenModel,
            ErrorModel,
        >(TokenModel::Bool(b)),
        !(value is Bool) ==> parse_model(KindModel::Bool, value, refusals) == Err::<
            TokenModel,
            ErrorModel,
        >(ErrorModel::Type(PyKind::Bool)),
        parse_model(KindModel::Cell, ValueModel::Cell(cell), refusals) == Ok::<
            TokenModel,
            ErrorModel,
        >(TokenModel::Cell(cell)),
        !(value is Cell) ==> parse_model(KindModel::Cell, value, refusals) == Err::<
            TokenModel,
            ErrorModel,
        >(ErrorModel::Type(PyKind::Cell)),
        parse_model(KindModel::Bytes, ValueModel::Bytes(bytes), refusals) == Ok::<
            TokenModel,
            ErrorModel,
        >(TokenModel::Bytes(bytes)),
        !(value is Bytes) ==> parse_model(KindModel::Bytes, value, refusals) == Err::<
            TokenModel,
            ErrorModel,
        >(ErrorModel::Type(PyKind::Bytes)),
        parse_model(KindModel::String, ValueModel::Str(text), refusals) == Ok::<
            TokenModel,
            ErrorModel,
        >(TokenModel::String(text)),
        !(value is Str) ==> parse_model(KindModel::String, value, refusals) == Err::<
            TokenModel,
            ErrorModel,
        >(ErrorModel::Type(PyKind::Str)),
{
}

/// Bytes of a fixed number are read as they are exactly if there are so many.
pub proof fn fixed_bytes_are_read(
    len: usize,
    bytes: Seq<u8>,
    value: ValueModel,
    refusals: Seq<RefusalModel>,
)
    ensures
        bytes.len() == len ==> parse_model(
            KindModel::FixedBytes(len),
            ValueModel::Bytes(bytes),
            refusals,
        ) == Ok::<TokenModel, ErrorModel>(TokenModel::FixedBytes(bytes)),
        bytes.len() != len ==> parse_model(
            KindModel::FixedBytes(len),
            ValueModel::Bytes(bytes),
            refusals,
        ) == Err::<TokenModel, ErrorModel>(ErrorModel::Value(ReasonModel::FixedBytesLength)),
        !(value is Bytes) ==> parse_model(KindModel::FixedBytes(len), value, refusals) == Err::<
            TokenModel,
            ErrorModel,
        >(ErrorModel::Type(PyKind::Bytes)),
{
}

/// The address of an account is carried by a message in its own form, with the same anycast,
/// workchain and account; the way back gives the same parts, and no other address is of an
/// account.
pub proof fn addresses_keep_their_parts(
    std: StdAddressModel,
    var: VarAddressModel,
    address: MsgAddressModel,
)
    ensures
        message_address(AddressModel::Std(std)) == MsgAddressModel::AddrStd(std),
        message_address(AddressModel::Var(var)) == MsgAddressModel::AddrVar(var),
        account_address(MsgAddressModel::AddrStd(std)) == Some(AddressModel::Std(std)),
        account_address(MsgAddressModel::AddrVar(var)) == Some(AddressModel::Var(var)),
        address is AddrNone || address is AddrExt ==> account_address(address) is None,
{
}

/// The address of an account is read in its own form and with the same parts, as a value and
/// as a key; whatever is no address of an account is a `TypeError`.
pub proof fn addresses_are_read(
    std: StdAddressModel,
    var: VarAddressModel,
    value: ValueModel,
    refusals: Seq<RefusalModel>,
)
    ensures
        parse_model(KindModel::Address, ValueModel::Address(AddressModel::Std(std)), refusals)
            == Ok::<TokenModel, ErrorModel>(TokenModel::Address(MsgAddressModel::AddrStd(std))),
        parse_model(KindModel::Address, ValueModel::Address(AddressModel::Var(var)), refusals)
            == Ok::<TokenModel, ErrorModel>(TokenModel::Address(MsgAddressModel::AddrVar(var))),
        parse_key_model(KindModel::Address, ValueModel::Address(AddressModel::Std(std))) == Ok::<
            MapKeyModel,
            ErrorModel,
        >(MapKeyModel::Address(MsgAddressModel::AddrStd(std))),
        parse_key_model(KindModel::Address, ValueModel::Address(AddressModel::Var(var))) == Ok::<
            MapKeyModel,
            ErrorModel,
        >(MapKeyModel::Address(MsgAddressModel::AddrVar(var))),
        !(value is Address) ==> parse_model(KindModel::Address, value, refusals) == Err::<
            TokenModel,
            ErrorModel,
        >(ErrorModel::Type(PyKind::Address)),
        !(value is Address) ==> parse_key_model(KindModel::Address, value) == Err::<
            MapKeyModel,
            ErrorModel,
        >(ErrorModel::Type(PyKind::Address)),
{
}

/// An integer is read as a key with its value and the size of its type, `False` and `True`
/// as zero and one; nothing but integers and addresses can be a key.
pub proof fn integer_keys_are_read(
    size: usize,
    n: int,
    b: bool,
    value: ValueModel,
    kind: KindModel,
)
    ensures
        parse_key_model(KindModel::Int(size), ValueModel::Int(n)) == Ok::<MapKeyModel, ErrorModel>(
            MapKeyModel::Int(n, size),
        ),
        n >= 0 ==> parse_key_model(KindModel::Uint(size), ValueModel::Int(n)) == Ok::<
            MapKeyModel,
            ErrorModel,
        >(MapKeyModel::Uint(n as nat, size)),
        n < 0 ==> parse_key_model(KindModel::Uint(size), ValueModel::Int(n)) == Err::<
            MapKeyModel,
            ErrorModel,
        >(ErrorModel::Overflow),
        parse_key_model(KindModel::Int(size), ValueModel::Bool(b)) == parse_key_model(
            KindModel::Int(size),
            ValueModel::Int(if b { 1 } else { 0 }),
        ),
        parse_key_model(KindModel::Uint(size), ValueModel::Bool(b)) == parse_key_model(
            KindModel::Uint(size),
            ValueModel::Int(if b { 1 } else { 0 }),
        ),
        !(value is Bool) && !(value is Int) ==> parse_key_model(KindModel::Int(size), value)
            == Err::<MapKeyModel, ErrorModel>(ErrorModel::Type(PyKind::Int)),
        !(value is Bool) && !(value is Int) ==> parse_key_model(KindModel::Uint(size), value)
            == Err::<MapKeyModel, ErrorModel>(ErrorModel::Type(PyKind::Int)),
        !(kind is Uint) && !(kind is Int) && !(kind is Address) ==> parse_key_model(kind, value)
            == Err::<MapKeyModel, ErrorModel>(ErrorModel::Value(ReasonModel::MapKeyType)),
{
}

/// `None` is read as no key. From text a key is read exactly if the text is that of bytes
/// that are one, and it is then those bytes; otherwise a `RuntimeError` says what is wrong
/// with the text or with the bytes.
pub proof fn public_keys_are_read(
    text: Seq<char>,
    value: ValueModel,
    refusals: Seq<RefusalModel>,
)
    ensures
        parse_model(KindModel::PublicKey, ValueModel::PyNone, refusals) == Ok::<
            TokenModel,
            ErrorModel,
        >(TokenModel::PublicKey(None)),
        match hex_outcome(encode_utf8(text)) {
            Err(e) => parse_model(KindModel::PublicKey, ValueModel::Str(text), refusals) == Err::<
                TokenModel,
                ErrorModel,
            >(ErrorModel::Runtime(ReasonModel::Hex(e))),
            Ok(bytes) => {
                &&& is_public_key(bytes) ==> parse_model(
                    KindModel::PublicKey,
                    ValueModel::Str(text),
                    refusals,
                ) == Ok::<TokenModel, ErrorModel>(TokenModel::PublicKey(Some(bytes)))
                &&& !is_public_key(bytes) ==> parse_model(
                    KindModel::PublicKey,
                    ValueModel::Str(text),
                    refusals,
                ) == Err::<TokenModel, ErrorModel>(
                    ErrorModel::Runtime(ReasonModel::Reported(key_error_text(bytes))),
                )
            },
        },
        !(value is Str) && !(value is PyNone) ==> parse_model(
            KindModel::PublicKey,
            value,
            refusals,
        ) == Err::<TokenModel, ErrorModel>(ErrorModel::Type(PyKind::Str)),
{
}

/// `None` is read as an optional value that is not there; any other object is read as its
/// type reads it, and so is whatever stands in a cell of its own.
pub proof fn wrapped_values_are_read(ty: KindModel, value: ValueModel, refusals: Seq<RefusalModel>)
    ensures
        parse_model(KindModel::Optional(Box::new(ty)), ValueModel::PyNone, refusals) == Ok::<
            TokenModel,
            ErrorModel,
        >(TokenModel::Optional(ty, None)),
        !(value is PyNone) ==> (match parse_model(ty, value, refusals) {
            Ok(inner) => parse_model(KindModel::Optional(Box::new(ty)), value, refusals) == Ok::<
                TokenModel,
                ErrorModel,
            >(TokenModel::Optional(ty, Some(Box::new(inner)))),
            Err(e) => parse_model(KindModel::Optional(Box::new(ty)), value, refusals) == Err::<
                TokenModel,
                ErrorModel,
            >(e),
        }),
        match parse_model(ty, value, refusals) {
            Ok(inner) => parse_model(KindModel::Ref(Box::new(ty)), value, refusals) == Ok::<
                TokenModel,
                ErrorModel,
            >(TokenModel::Ref(Box::new(inner))),
            Err(e) => parse_model(KindModel::Ref(Box::new(ty)), value, refusals) == Err::<
                TokenModel,
                ErrorModel,
            >(e),
        },
{
}

/// A list is read as an array exactly if each of its objects is read, and then each token
/// stands in the place of its object; otherwise the first object that is not read says why.
/// An array of a fixed length is read the same way if there are so many objects.
pub proof fn arrays_are_read(
    ty: KindModel,
    len: usize,
    values: Seq<ValueModel>,
    value: ValueModel,
    refusals: Seq<RefusalModel>,
    first: int,
)
    requires
        0 <= first <= values.len(),
        forall|i: int| 0 <= i < first ==> parse_model(ty, #[trigger] values[i], refusals) is Ok,
        first < values.len() ==> parse_model(ty, values[first], refusals) is Err,
    ensures
        match parse_model(KindModel::Array(Box::new(ty)), ValueModel::List(values), refusals) {
            Ok(token) => {
                &&& first == values.len()
                &&& token matches TokenModel::Array(k, tokens)
                &&& k == ty
                &&& tokens.len() == values.len()
                &&& forall|i: int|
                    0 <= i < values.len() ==> parse_model(ty, #[trigger] values[i], refusals)
                        == Ok::<TokenModel, ErrorModel>(tokens[i])
            },
            Err(e) => first < values.len() && parse_model(ty, values[first], refusals) == Err::<
                TokenModel,
                ErrorModel,
            >(e),
        },
        values.len() == len ==> (match parse_model(
            KindModel::FixedArray(Box::new(ty), len),
            ValueModel::List(values),
            refusals,
        ) {
            Ok(token) => {
                &&& first == values.len()
                &&& token matches TokenModel::FixedArray(k, tokens)
                &&& k == ty
                &&& tokens.len() == values.len()
                &&& forall|i: int|
                    0 <= i < values.len() ==> parse_model(ty, #[trigger] values[i], refusals)
                        == Ok::<TokenModel, ErrorModel>(tokens[i])
            },
            Err(e) => first < values.len() && parse_model(ty, values[first], refusals) == Err::<
                TokenModel,
                ErrorModel,
            >(e),
        }),
        values.len() != len ==> parse_model(
            KindModel::FixedArray(Box::new(ty), len),
            ValueModel::List(values),
            refusals,
        ) == Err::<TokenModel, ErrorModel>(ErrorModel::Value(ReasonModel::FixedArrayLength)),
        !(value is List) ==> parse_model(KindModel::Array(Box::new(ty)), value, refusals) == Err::<
            TokenModel,
            ErrorModel,
        >(ErrorModel::Type(PyKind::List)),
        !(value is List) ==> parse_model(KindModel::FixedArray(Box::new(ty), len), value, refusals)
            == Err::<TokenModel, ErrorModel>(ErrorModel::Type(PyKind::List)),
{
    lists_are_read_each(ty, values, refusals, first);
    if let Ok(tokens) = parse_list_model(ty, values, refusals) {
        assert forall|i: int| 0 <= i < values.len() implies parse_model(
            ty,
            #[trigger] values[i],
            refusals,
        ) == Ok::<TokenModel, ErrorModel>(tokens[i]) by {}
    }
}

/// What a dictionary holds under a key: the object of the entry with that key, and nothing
/// where no entry has it.
pub proof fn dictionary_is_searched(items: Seq<ItemModel>, key: Seq<char>, first: int)
    requires
        0 <= first <= items.len(),
        forall|i: int| 0 <= i < first ==> (#[trigger] items[i]).key != key,
        first < items.len() ==> items[first].key == key,
    ensures
        dict_get(items, key) == (if first < items.len() {
            Some(items[first].value)
        } else {
            None
        }),
{
    lemma_key_index(items, key);
    let found = key_index(items, key) as int;
    if found < first {
        assert(items[found].key != key);
    }
    if first < found {
        assert(items[first].key != key);
    }
}

/// A parameter that the dictionary has no entry for is a `RuntimeError` that names it.
/// Otherwise parameters are read exactly if the object of each is read for its type: each
/// token then stands in the place of its parameter and under its name. The first parameter
/// that is not read says why. A tuple is read from a dictionary the same way.
pub proof fn parameters_are_read(
    params: Seq<ParamModel>,
    items: Seq<ItemModel>,
    value: ValueModel,
    refusals: Seq<RefusalModel>,
    first: int,
)
    requires
        0 <= first <= params.len(),
        forall|i: int|
            #![trigger params[i]]
            0 <= i < first ==> dict_get(items, params[i].name) is Some && parse_model(
                params[i].kind,
                dict_get(items, params[i].name)->0,
                refusals,
            ) is Ok,
        first < params.len() ==> (dict_get(items, params[first].name) is None || parse_model(
            params[first].kind,
            dict_get(items, params[first].name)->0,
            refusals,
        ) is Err),
    ensures
        match parse_params_model(params, items, refusals) {
            Ok(tokens) => {
                &&& first == params.len()
                &&& tokens.len() == params.len()
                &&& forall|i: int|
                    #![trigger tokens[i]]
                    0 <= i < params.len() ==> tokens[i].name == params[i].name && parse_model(
                        params[i].kind,
                        dict_get(items, params[i].name)->0,
                        refusals,
                    ) == Ok::<TokenModel, ErrorModel>(tokens[i].value)
            },
            Err(e) => first < params.len() && (match dict_get(items, params[first].name) {
                None => e == ErrorModel::Runtime(ReasonModel::ParamNotFound(params[first].name)),
                Some(object) => parse_model(params[first].kind, object, refusals) == Err::<
                    TokenModel,
                    ErrorModel,
                >(e),
            }),
        },
        match parse_params_model(params, items, refusals) {
            Ok(tokens) => parse_model(
                KindModel::Tuple(params),
                ValueModel::Dict(items),
                refusals,
            ) == Ok::<TokenModel, ErrorModel>(TokenModel::Tuple(tokens)),
            Err(e) => parse_model(KindModel::Tuple(params), ValueModel::Dict(items), refusals)
                == Err::<TokenModel, ErrorModel>(e),
        },
        !(value is Dict) ==> parse_model(KindModel::Tuple(params), value, refusals) == Err::<
            TokenModel,
            ErrorModel,
        >(ErrorModel::Type(PyKind::Dict)),
{
    assert forall|i: int| 0 <= i < first implies param_outcome(
        #[trigger] params[i],
        items,
        refusals,
    ) is Ok by {}
    params_are_read_each(params, items, refusals, first);
}

/// An entry is read from a tuple: its first element is the key, its second the value, and
/// any further elements are not looked at. The key decides before the value does.
pub proof fn pairs_are_read(
    key_ty: KindModel,
    value_ty: KindModel,
    elements: Seq<ValueModel>,
    item: ValueModel,
    refusals: Seq<RefusalModel>,
)
    ensures
        elements.len() == 0 ==> parse_entry_model(
            key_ty,
            value_ty,
            ValueModel::Tuple(elements),
            refusals,
        ) == Err::<MapEntryModel, ErrorModel>(ErrorModel::Value(ReasonModel::MapKeyMissing)),
        elements.len() >= 1 ==> (parse_key_model(key_ty, elements[0]) matches Err(e)
            ==> parse_entry_model(key_ty, value_ty, ValueModel::Tuple(elements), refusals) == Err::<
            MapEntryModel,
            ErrorModel,
        >(e)),
        elements.len() == 1 && parse_key_model(key_ty, elements[0]) is Ok ==> parse_entry_model(
            key_ty,
            value_ty,
            ValueModel::Tuple(elements),
            refusals,
        ) == Err::<MapEntryModel, ErrorModel>(ErrorModel::Value(ReasonModel::MapValueMissing)),
        elements.len() >= 2 ==> (parse_key_model(key_ty, elements[0]) matches Ok(key) ==> (
        match parse_model(value_ty, elements[1], refusals) {
            Ok(value) => parse_entry_model(
                key_ty,
                value_ty,
                ValueModel::Tuple(elements),
                refusals,
            ) == Ok::<MapEntryModel, ErrorModel>(MapEntryModel { key, value }),
            Err(e) => parse_entry_model(
                key_ty,
                value_ty,
                ValueModel::Tuple(elements),
                refusals,
            ) == Err::<MapEntryModel, ErrorModel>(e),
        })),
        !(item is Tuple) ==> parse_entry_model(key_ty, value_ty, item, refusals) == Err::<
            MapEntryModel,
            ErrorModel,
        >(ErrorModel::Type(PyKind::Tuple)),
{
}

/// Integers of one size stand in a dictionary in the order of their values.
pub proof fn integer_keys_are_ordered_by_value(m: nat, n: nat, x: int, y: int, size: usize)
    ensures
        goes_before(MapKeyModel::Uint(m, size), MapKeyModel::Uint(n, size)) <==> m < n,
        goes_before(MapKeyModel::Int(x, size), MapKeyModel::Int(y, size)) <==> x < y,
{
}

/// What a mapping holds under a key: the value of the first entry with that key, and nothing
/// where no entry has it.
pub proof fn mapping_is_searched(entries: Seq<MapEntryModel>, key: MapKeyModel, first: int)
    requires
        0 <= first <= entries.len(),
        forall|i: int| 0 <= i < first ==> (#[trigger] entries[i]).key != key,
        first < entries.len() ==> entries[first].key == key,
    ensures
        map_get(entries, key) == (if first < entries.len() {
            Some(entries[first].value)
        } else {
            None
        }),
{
    lemma_entry_index(entries, key);
    let found = entry_index(entries, key) as int;
    if found < first {
        assert(entries[found].key != key);
    }
    if first < found {
        assert(entries[first].key != key);
    }
}

/// A list is read as a mapping exactly if each of its objects is read as an entry; the first
/// that is not says why. The keys are in order, and under each key stands the value of the
/// last object that gives that key, and nothing else.
pub proof fn mappings_are_read(
    key_ty: KindModel,
    value_ty: KindModel,
    items: Seq<ValueModel>,
    value: ValueModel,
    refusals: Seq<RefusalModel>,
    first: int,
    key: MapKeyModel,
    last: int,
)
    requires
        0 <= first <= items.len(),
        forall|i: int|
            0 <= i < first ==> parse_entry_model(
                key_ty,
                value_ty,
                #[trigger] items[i],
                refusals,
            ) is Ok,
        first < items.len() ==> parse_entry_model(
            key_ty,
            value_ty,
            items[first],
            refusals,
        ) is Err,
        -1 <= last < items.len(),
        last >= 0 ==> (parse_entry_model(key_ty, value_ty, items[last], refusals) matches Ok(entry)
            && entry.key == key),
        forall|i: int|
            last < i < items.len() ==> !(parse_entry_model(
                key_ty,
                value_ty,
                #[trigger] items[i],
                refusals,
            ) matches Ok(entry) && entry.key == key),
    ensures
        match parse_model(
            KindModel::Mapping(Box::new(key_ty), Box::new(value_ty)),
            ValueModel::List(items),
            refusals,
        ) {
            Ok(token) => {
                &&& first == items.len()
                &&& token matches TokenModel::Mapping(k, v, entries)
                &&& k == key_ty
                &&& v == value_ty
                &&& forall|i: int, j: int|
                    0 <= i < j < entries.len() ==> goes_before(
                        (#[trigger] entries[i]).key,
                        (#[trigger] entries[j]).key,
                    )
                &&& map_get(entries, key) == (if last < 0 {
                    None
                } else {
                    Some(parse_entry_model(key_ty, value_ty, items[last], refusals)->Ok_0.value)
                })
            },
            Err(e) => first < items.len() && parse_entry_model(
                key_ty,
                value_ty,
                items[first],
                refusals,
            ) == Err::<MapEntryModel, ErrorModel>(e),
        },
        !(value is List) ==> parse_model(
            KindModel::Mapping(Box::new(key_ty), Box::new(value_ty)),
            value,
            refusals,
        ) == Err::<TokenModel, ErrorModel>(ErrorModel::Type(PyKind::List)),
{
    entries_are_read_each(key_ty, value_ty, items, refusals, first);
    if parse_entries_model(key_ty, value_ty, items, refusals) is Ok {
        assert forall|i: int| last < i < items.len() implies !crate::parsing_laws::gives_key(
            key_ty,
            value_ty,
            #[trigger] items[i],
            refusals,
            key,
        ) by {}
        last_entry_is_kept(key_ty, value_ty, items, refusals, key, last);
    }
}

} // verus!
