//! What is given back for each value.

use crate::conversion_laws::last_token_is_kept;
use crate::convert::{
    convert_entries_model, convert_entry_model, convert_key_model, convert_list_model,
    convert_model, convert_named_model,
};
use crate::error::{ErrorModel, ReasonModel};
use crate::keys::hex_text;
use crate::ledger::{AddressModel, MsgAddressModel, StdAddressModel, VarAddressModel};
use crate::param::KindModel;
use crate::token::{MapEntryModel, MapKeyModel, NamedTokenModel, TokenModel};
use crate::value::{dict_get, distinct_keys, key_index, lemma_key_index, ItemModel, ValueModel};
use vstd::prelude::*;

verus! {

/// Integers, amounts and times are given back with their values.
pub proof fn integers_are_given_back(
    natural: nat,
    integer: int,
    amount: u128,
    time: u64,
    expire: u32,
    size: usize,
)
    ensures
        convert_model(TokenModel::Uint(natural, size)) == Ok::<ValueModel, ErrorModel>(
            ValueModel::Int(natural as int),
        ),
        convert_model(TokenModel::Int(integer, size)) == Ok::<ValueModel, ErrorModel>(
            ValueModel::Int(integer),
        ),
        convert_model(TokenModel::VarUint(size, natural)) == Ok::<ValueModel, ErrorModel>(
            ValueModel::Int(natural as int),
        ),
        convert_model(TokenModel::VarInt(size, integer)) == Ok::<ValueModel, ErrorModel>(
            ValueModel::Int(integer),
        ),
        convert_model(TokenModel::Token(amount)) == Ok::<ValueModel, ErrorModel>(
            ValueModel::Int(amount as int),
        ),
        convert_model(TokenModel::Time(time)) == Ok::<ValueModel, ErrorModel>(
            ValueModel::Int(time as int),
        ),
        convert_model(TokenModel::Expire(expire)) == Ok::<ValueModel, ErrorModel>(
            ValueModel::Int(expire as int),
        ),
        convert_key_model(MapKeyModel::Uint(natural, size)) == Ok::<ValueModel, ErrorModel>(
            ValueModel::Int(natural as int),
        ),
        convert_key_model(MapKeyModel::Int(integer, size)) == Ok::<ValueModel, ErrorModel>(
            ValueModel::Int(integer),
        ),
{
}

/// Plain values are given back as they are, and public keys as their text.
pub proof fn plain_values_are_given_back(
    b: bool,
    cell: Seq<u8>,
    bytes: Seq<u8>,
    text: Seq<char>,
    key: Seq<u8>,
)
    ensures
        convert_model(TokenModel::Bool(b)) == Ok::<ValueModel, ErrorModel>(ValueModel::Bool(b)),
        convert_model(TokenModel::Cell(cell)) == Ok::<ValueModel, ErrorModel>(
            ValueModel::Cell(cell),
        ),
        convert_model(TokenModel::Bytes(bytes)) == Ok::<ValueModel, ErrorModel>(
            ValueModel::Bytes(bytes),
        ),
        convert_model(TokenModel::FixedBytes(bytes)) == Ok::<ValueModel, ErrorModel>(
            ValueModel::Bytes(bytes),
        ),
        convert_model(TokenModel::String(text)) == Ok::<ValueModel, ErrorModel>(
            ValueModel::Str(text),
        ),
        convert_model(TokenModel::PublicKey(Some(key))) == Ok::<ValueModel, ErrorModel>(
            ValueModel::Str(hex_text(key)),
        ),
        convert_model(TokenModel::PublicKey(None)) == Ok::<ValueModel, ErrorModel>(
            ValueModel::PyNone,
        ),
{
}

/// The address of an account is given back in its own form and with the same anycast,
/// workchain and account, as a value and as a key; any other address is refused.
pub proof fn addresses_are_given_back(
    std: StdAddressModel,
    var: VarAddressModel,
    address: MsgAddressModel,
)
    ensures
        convert_model(TokenModel::Address(MsgAddressModel::AddrStd(std))) == Ok::<
            ValueModel,
            ErrorModel,
        >(ValueModel::Address(AddressModel::Std(std))),
        convert_model(TokenModel::Address(MsgAddressModel::AddrVar(var))) == Ok::<
            ValueModel,
            ErrorModel,
        >(ValueModel::Address(AddressModel::Var(var))),
        convert_key_model(MapKeyModel::Address(MsgAddressModel::AddrStd(std))) == Ok::<
            ValueModel,
            ErrorModel,
        >(ValueModel::Address(AddressModel::Std(std))),
        convert_key_model(MapKeyModel::Address(MsgAddressModel::AddrVar(var))) == Ok::<
            ValueModel,
            ErrorModel,
        >(ValueModel::Address(AddressModel::Var(var))),
        address is AddrNone || address is AddrExt ==> convert_model(TokenModel::Address(address))
            == Err::<ValueModel, ErrorModel>(ErrorModel::Runtime(ReasonModel::AddressType)),
        address is AddrNone || address is AddrExt ==> convert_key_model(
            MapKeyModel::Address(address),
        ) == Err::<ValueModel, ErrorModel>(ErrorModel::Runtime(ReasonModel::AddressType)),
{
}

/// An optional value that is not there is given back as `None`; one that is there, and
/// whatever stands in a cell of its own, as itself.
pub proof fn wrapped_values_are_given_back(ty: KindModel, inner: TokenModel)
    ensures
        convert_model(TokenModel::Optional(ty, None)) == Ok::<ValueModel, ErrorModel>(
            ValueModel::PyNone,
        ),
        convert_model(TokenModel::Optional(ty, Some(Box::new(inner)))) == convert_model(inner),
        convert_model(TokenModel::Ref(Box::new(inner))) == convert_model(inner),
{
}

/// An array is given back as a list exactly if each of its values is given back, and then
/// each object stands in the place of its value; otherwise the first value that is not says
/// why.
pub proof fn arrays_are_given_back(ty: KindModel, tokens: Seq<TokenModel>, first: int)
    requires
        0 <= first <= tokens.len(),
        forall|i: int| 0 <= i < first ==> convert_model(#[trigger] tokens[i]) is Ok,
        first < tokens.len() ==> convert_model(tokens[first]) is Err,
    ensures
        convert_model(TokenModel::FixedArray(ty, tokens)) == convert_model(
            TokenModel::Array(ty, tokens),
        ),
        match convert_model(TokenModel::Array(ty, tokens)) {
            Ok(object) => {
                &&& first == tokens.len()
                &&& object matches ValueModel::List(values)
                &&& values.len() == tokens.len()
                &&& forall|i: int|
                    0 <= i < tokens.len() ==> convert_model(#[trigger] tokens[i]) == Ok::<
                        ValueModel,
                        ErrorModel,
                    >(values[i])
            },
            Err(e) => first < tokens.len() && convert_model(tokens[first]) == Err::<
                ValueModel,
                ErrorModel,
            >(e),
        },
{
    lemma_list_given_back(tokens, first);
}

proof fn lemma_list_given_back(tokens: Seq<TokenModel>, first: int)
    requires
        0 <= first <= tokens.len(),
        forall|i: int| 0 <= i < first ==> convert_model(#[trigger] tokens[i]) is Ok,
        first < tokens.len() ==> convert_model(tokens[first]) is Err,
    ensures
        match convert_list_model(tokens) {
            Ok(values) => {
                &&& first == tokens.len()
                &&& values.len() == tokens.len()
                &&& forall|i: int|
                    0 <= i < tokens.len() ==> convert_model(#[trigger] tokens[i]) == Ok::<
                        ValueModel,
                        ErrorModel,
                    >(values[i])
            },
            Err(e) => first < tokens.len() && convert_model(tokens[first]) == Err::<
                ValueModel,
                ErrorModel,
            >(e),
        },
    decreases tokens.len(),
{
    if tokens.len() > 0 {
        let shorter = tokens.drop_last();
        let cut = if first < shorter.len() { first } else { shorter.len() as int };
        assert forall|i: int| 0 <= i < cut implies convert_model(#[trigger] shorter[i]) is Ok by {
            assert(shorter[i] == tokens[i]);
        }
        if cut < shorter.len() {
            assert(shorter[cut] == tokens[first]);
        }
        lemma_list_given_back(shorter, cut);
        assert(tokens.last() == tokens[tokens.len() - 1]);
        if first == tokens.len() {
            assert(convert_model(tokens[tokens.len() - 1]) is Ok);
            let before = convert_list_model(shorter)->Ok_0;
            let values = convert_list_model(tokens)->Ok_0;
            assert forall|i: int| 0 <= i < tokens.len() implies convert_model(
                #[trigger] tokens[i],
            ) == Ok::<ValueModel, ErrorModel>(values[i]) by {
                if i < shorter.len() {
                    assert(shorter[i] == tokens[i]);
                    assert(values[i] == before[i]);
                }
            }
        }
    }
}

/// An entry is given back as a pair of its key and its value; the key decides first.
pub proof fn pairs_are_given_back(entry: MapEntryModel)
    ensures
        match convert_entry_model(entry) {
            Ok(object) => {
                &&& object matches ValueModel::Tuple(pair)
                &&& pair.len() == 2
                &&& convert_key_model(entry.key) == Ok::<ValueModel, ErrorModel>(pair[0])
                &&& convert_model(entry.value) == Ok::<ValueModel, ErrorModel>(pair[1])
            },
            Err(e) => match convert_key_model(entry.key) {
                Err(k) => e == k,
                Ok(_) => convert_model(entry.value) == Err::<ValueModel, ErrorModel>(e),
            },
        },
{
}

/// A mapping is given back as a list of its entries, in their places, exactly if each is
/// given back; otherwise the first that is not says why.
pub proof fn mappings_are_given_back(
    key_ty: KindModel,
    value_ty: KindModel,
    entries: Seq<MapEntryModel>,
    first: int,
)
    requires
        0 <= first <= entries.len(),
        forall|i: int| 0 <= i < first ==> convert_entry_model(#[trigger] entries[i]) is Ok,
        first < entries.len() ==> convert_entry_model(entries[first]) is Err,
    ensures
        match convert_model(TokenModel::Mapping(key_ty, value_ty, entries)) {
            Ok(object) => {
                &&& first == entries.len()
                &&& object matches ValueModel::List(items)
                &&& items.len() == entries.len()
                &&& forall|i: int|
                    0 <= i < entries.len() ==> convert_entry_model(#[trigger] entries[i]) == Ok::<
                        ValueModel,
                        ErrorModel,
                    >(items[i])
            },
            Err(e) => first < entries.len() && convert_entry_model(entries[first]) == Err::<
                ValueModel,
                ErrorModel,
            >(e),
        },
{
    lemma_entries_given_back_each(entries, first);
}

proof fn lemma_entries_given_back_each(entries: Seq<MapEntryModel>, first: int)
    requires
        0 <= first <= entries.len(),
        forall|i: int| 0 <= i < first ==> convert_entry_model(#[trigger] entries[i]) is Ok,
        first < entries.len() ==> convert_entry_model(entries[first]) is Err,
    ensures
        match convert_entries_model(entries) {
            Ok(items) => {
                &&& first == entries.len()
                &&& items.len() == entries.len()
                &&& forall|i: int|
                    0 <= i < entries.len() ==> convert_entry_model(#[trigger] entries[i]) == Ok::<
                        ValueModel,
                        ErrorModel,
                    >(items[i])
            },
            Err(e) => first < entries.len() && convert_entry_model(entries[first]) == Err::<
                ValueModel,
                ErrorModel,
            >(e),
        },
    decreases entries.len(),
{
    if entries.len() > 0 {
        let shorter = entries.drop_last();
        let cut = if first < shorter.len() { first } else { shorter.len() as int };
        assert forall|i: int| 0 <= i < cut implies convert_entry_model(
            #[trigger] shorter[i],
        ) is Ok by {
            assert(shorter[i] == entries[i]);
        }
        if cut < shorter.len() {
            assert(shorter[cut] == entries[first]);
        }
        lemma_entries_given_back_each(shorter, cut);
        assert(entries.last() == entries[entries.len() - 1]);
        if first == entries.len() {
            assert(convert_entry_model(entries[entries.len() - 1]) is Ok);
            let before = convert_entries_model(shorter)->Ok_0;
            let items = convert_entries_model(entries)->Ok_0;
            assert forall|i: int| 0 <= i < entries.len() implies convert_entry_model(
                #[trigger] entries[i],
            ) == Ok::<ValueModel, ErrorModel>(items[i]) by {
                if i < shorter.len() {
                    assert(shorter[i] == entries[i]);
                    assert(items[i] == before[i]);
                }
            }
        }
    }
}

/// Whether a token is the last of its name.
pub open spec fn is_last_of_name(tokens: Seq<NamedTokenModel>, i: int) -> bool {
    &&& 0 <= i < tokens.len()
    &&& forall|j: int| i < j < tokens.len() ==> (#[trigger] tokens[j]).name != tokens[i].name
}

/// Whether the dictionary has an entry with a key.
pub open spec fn has_key(items: Seq<ItemModel>, key: Seq<char>) -> bool {
    exists|i: int| 0 <= i < items.len() && (#[trigger] items[i]).key == key
}

/// Whether a dictionary is the one for named tokens: it has each of their names once and no
/// other name, and holds under each name the object for the last token of that name.
pub open spec fn is_dictionary_of(items: Seq<ItemModel>, tokens: Seq<NamedTokenModel>) -> bool {
    &&& forall|i: int, j: int|
        0 <= i < j < items.len() ==> (#[trigger] items[i]).key != (#[trigger] items[j]).key
    &&& forall|i: int| 0 <= i < tokens.len() ==> has_key(items, (#[trigger] tokens[i]).name)
    &&& forall|i: int|
        0 <= i < items.len() ==> exists|j: int|
            0 <= j < tokens.len() && (#[trigger] tokens[j]).name == (#[trigger] items[i]).key
    &&& forall|i: int, j: int|
        0 <= i < items.len() && #[trigger] is_last_of_name(tokens, j) && tokens[j].name == (
        #[trigger] items[i]).key ==> convert_model(tokens[j].value) == Ok::<
            ValueModel,
            ErrorModel,
        >(items[i].value)
}

spec fn last_place(tokens: Seq<NamedTokenModel>, name: Seq<char>) -> int
    decreases tokens.len(),
{
    if tokens.len() == 0 {
        -1
    } else if tokens.last().name == name {
        tokens.len() - 1
    } else {
        last_place(tokens.drop_last(), name)
    }
}

proof fn lemma_last_place(tokens: Seq<NamedTokenModel>, name: Seq<char>)
    ensures
        -1 <= last_place(tokens, name) < tokens.len(),
        last_place(tokens, name) >= 0 ==> tokens[last_place(tokens, name)].name == name,
        forall|i: int|
            last_place(tokens, name) < i < tokens.len() ==> (#[trigger] tokens[i]).name != name,
    decreases tokens.len(),
{
    if tokens.len() > 0 {
        let shorter = tokens.drop_last();
        lemma_last_place(shorter, name);
        let last = last_place(tokens, name);
        assert forall|i: int| last < i < tokens.len() implies (#[trigger] tokens[i]).name
            != name by {
            if i < shorter.len() {
                assert(shorter[i] == tokens[i]);
            }
        }
    }
}

proof fn lemma_get_found(items: Seq<ItemModel>, name: Seq<char>)
    requires
        dict_get(items, name) is Some,
    ensures
        has_key(items, name),
{
    lemma_key_index(items, name);
    let found = key_index(items, name) as int;
    assert(items[found].key == name);
}

proof fn lemma_get_at(items: Seq<ItemModel>, i: int)
    requires
        distinct_keys(items),
        0 <= i < items.len(),
    ensures
        dict_get(items, items[i].key) == Some(items[i].value),
{
    lemma_key_index(items, items[i].key);
    let found = key_index(items, items[i].key) as int;
    if found < i {
        assert(items[found].key != items[i].key);
    }
    assert(found == i);
}

/// Named tokens are given back as the dictionary for them exactly if each token is given
/// back; otherwise the first token that is not says why.
pub proof fn named_tokens_are_given_back(tokens: Seq<NamedTokenModel>, first: int)
    requires
        0 <= first <= tokens.len(),
        forall|i: int| 0 <= i < first ==> convert_model((#[trigger] tokens[i]).value) is Ok,
        first < tokens.len() ==> convert_model(tokens[first].value) is Err,
    ensures
        match convert_named_model(tokens) {
            Ok(items) => first == tokens.len() && is_dictionary_of(items, tokens),
            Err(e) => first < tokens.len() && convert_model(tokens[first].value) == Err::<
                ValueModel,
                ErrorModel,
            >(e),
        },
        match convert_named_model(tokens) {
            Ok(items) => convert_model(TokenModel::Tuple(tokens)) == Ok::<ValueModel, ErrorModel>(
                ValueModel::Dict(items),
            ),
            Err(e) => convert_model(TokenModel::Tuple(tokens)) == Err::<ValueModel, ErrorModel>(e),
        },
{
    lemma_named_first(tokens, first);
    if let Ok(items) = convert_named_model(tokens) {
        given_back_is_dictionary(tokens);
    }
}

proof fn lemma_named_first(tokens: Seq<NamedTokenModel>, first: int)
    requires
        0 <= first <= tokens.len(),
        forall|i: int| 0 <= i < first ==> convert_model((#[trigger] tokens[i]).value) is Ok,
        first < tokens.len() ==> convert_model(tokens[first].value) is Err,
    ensures
        match convert_named_model(tokens) {
            Ok(items) => first == tokens.len(),
            Err(e) => first < tokens.len() && convert_model(tokens[first].value) == Err::<
                ValueModel,
                ErrorModel,
            >(e),
        },
    decreases tokens.len(),
{
    if tokens.len() > 0 {
        let shorter = tokens.drop_last();
        let cut = if first < shorter.len() { first } else { shorter.len() as int };
        assert forall|i: int| 0 <= i < cut implies convert_model(
            (#[trigger] shorter[i]).value,
        ) is Ok by {
            assert(shorter[i] == tokens[i]);
        }
        if cut < shorter.len() {
            assert(shorter[cut] == tokens[first]);
        }
        lemma_named_first(shorter, cut);
        assert(tokens.last() == tokens[tokens.len() - 1]);
        if first == tokens.len() {
            assert(convert_model(tokens[tokens.len() - 1].value) is Ok);
        }
    }
}

/// Whatever named tokens are given back as is the dictionary for them.
pub proof fn given_back_is_dictionary(tokens: Seq<NamedTokenModel>)
    ensures
        convert_named_model(tokens) matches Ok(items) ==> is_dictionary_of(items, tokens),
{
    if let Ok(items) = convert_named_model(tokens) {
        let none = Seq::<char>::empty();
        lemma_last_place(tokens, none);
        last_token_is_kept(tokens, none, last_place(tokens, none));
        assert forall|i: int| 0 <= i < tokens.len() implies has_key(
            items,
            (#[trigger] tokens[i]).name,
        ) by {
            let name = tokens[i].name;
            lemma_last_place(tokens, name);
            last_token_is_kept(tokens, name, last_place(tokens, name));
            lemma_get_found(items, name);
        }
        assert forall|i: int| 0 <= i < items.len() implies exists|j: int|
            0 <= j < tokens.len() && (#[trigger] tokens[j]).name == (#[trigger] items[i]).key by {
            let name = items[i].key;
            lemma_get_at(items, i);
            lemma_last_place(tokens, name);
            let last = last_place(tokens, name);
            last_token_is_kept(tokens, name, last);
            assert(tokens[last].name == items[i].key);
        }
        assert forall|i: int, j: int|
            0 <= i < items.len() && #[trigger] is_last_of_name(tokens, j) && tokens[j].name == (
            #[trigger] items[i]).key implies convert_model(tokens[j].value) == Ok::<
            ValueModel,
            ErrorModel,
        >(items[i].value) by {
            lemma_get_at(items, i);
            last_token_is_kept(tokens, items[i].key, j);
        }
    }
}

/// Where no two tokens have one name, the entries stand in the order of the tokens.
pub proof fn entries_stand_in_order(tokens: Seq<NamedTokenModel>)
    requires
        forall|i: int, j: int|
            0 <= i < j < tokens.len() ==> (#[trigger] tokens[i]).name != (
            #[trigger] tokens[j]).name,
    ensures
        convert_named_model(tokens) matches Ok(items) ==> {
            &&& items.len() == tokens.len()
            &&& forall|i: int|
                #![trigger items[i]]
                0 <= i < tokens.len() ==> items[i].key == tokens[i].name && convert_model(
                    tokens[i].value,
                ) == Ok::<ValueModel, ErrorModel>(items[i].value)
        },
    decreases tokens.len(),
{
    if tokens.len() > 0 {
        let shorter = tokens.drop_last();
        assert forall|i: int, j: int| 0 <= i < j < shorter.len() implies (
        #[trigger] shorter[i]).name != (#[trigger] shorter[j]).name by {
            assert(shorter[i] == tokens[i] && shorter[j] == tokens[j]);
        }
        entries_stand_in_order(shorter);
        if let Ok(items) = convert_named_model(tokens) {
            let before = convert_named_model(shorter)->Ok_0;
            let name = tokens.last().name;
            let end = tokens.len() - 1;
            lemma_key_index(before, name);
            let found = key_index(before, name) as int;
            if found < before.len() {
                assert(before[found].key == shorter[found].name);
                assert(shorter[found] == tokens[found]);
                assert(tokens[found].name != tokens[end].name);
            }
            assert forall|i: int| #![trigger items[i]] 0 <= i < tokens.len() implies items[i].key
                == tokens[i].name && convert_model(tokens[i].value) == Ok::<
                ValueModel,
                ErrorModel,
            >(items[i].value) by {
                if i < shorter.len() {
                    assert(items[i] == before[i]);
                    assert(shorter[i] == tokens[i]);
                }
            }
        }
    }
}

} // verus!
