//! Objects that come back as they went in.

use crate::conversion_laws::last_token_is_kept;
use crate::convert::{
    convert_entries_model, convert_entry_model, convert_list_model, convert_model,
    convert_named_model,
};
use crate::decode::converted_model;
use crate::error::ErrorModel;
use crate::function::FunctionModel;
use crate::init_data::{
    all_zero, init_data_model, init_key_model, kept_under, plan_items_model, plan_start_model,
    planned_data_is_kept, DataItemModel, InitValueModel, InitWriteModel, KeyEntry,
    PUBLIC_KEY_SLOT,
};
use crate::keys::{is_public_key, lower_hex, lower_text_round_trip};
use crate::param::{KindModel, ParamModel};
use crate::parse::{
    parse_entries_model, parse_entry_model, parse_key_model, parse_list_model, parse_model,
    parse_params_model, RefusalModel,
};
use crate::parsing_laws::lemma_entries_read;
use crate::round_trip::{
    lemma_convert_entries_all, lemma_convert_list_all, lemma_convert_named_all,
    lemma_parse_entries_all, lemma_parse_list_elements, lemma_parse_params_elements,
};
use crate::token::{goes_before, in_order, MapEntryModel, NamedTokenModel};
use crate::value::{
    as_integer, dict_get, distinct_keys, key_index, lemma_key_index, ItemModel, ValueModel,
};
use crate::version::AbiVersion;
use vstd::prelude::*;

verus! {

/// Whether Python takes two objects to be equal: `bool` is a kind of `int`, and
/// dictionaries are equal in whatever order their entries stand.
pub open spec fn same_object(a: ValueModel, b: ValueModel) -> bool
    decreases a,
{
    match (as_integer(a), as_integer(b)) {
        (Some(m), Some(n)) => m == n,
        _ => match (a, b) {
            (ValueModel::List(x), ValueModel::List(y)) => same_objects(x, y),
            (ValueModel::Tuple(x), ValueModel::Tuple(y)) => same_objects(x, y),
            (ValueModel::Dict(x), ValueModel::Dict(y)) => same_items(x, y),
            _ => a == b,
        },
    }
}

/// Whether two sequences of objects are equal, place by place.
pub open spec fn same_objects(a: Seq<ValueModel>, b: Seq<ValueModel>) -> bool
    decreases a,
{
    &&& a.len() == b.len()
    &&& forall|i: int| 0 <= i < a.len() ==> same_object(#[trigger] a[i], b[i])
}

/// Whether two dictionaries hold equal objects under the same keys.
pub open spec fn same_items(a: Seq<ItemModel>, b: Seq<ItemModel>) -> bool
    decreases a,
{
    &&& forall|i: int|
        #![trigger a[i]]
        0 <= i < a.len() ==> dict_get(b, a[i].key) is Some && same_object(
            a[i].value,
            dict_get(b, a[i].key)->0,
        )
    &&& forall|i: int| 0 <= i < b.len() ==> dict_get(a, (#[trigger] b[i]).key) is Some
}

/// Whether an object is the form in which a value of a type is given back: mappings are
/// pairs that strictly ascend by key, dictionaries have just the names of their type, and
/// public keys are in lower case.
pub open spec fn canonical(kind: KindModel, value: ValueModel) -> bool
    decreases kind,
{
    match kind {
        KindModel::Tuple(params) => value matches ValueModel::Dict(items) ==> canonical_items(
            params,
            items,
        ),
        KindModel::Array(ty) => value matches ValueModel::List(values) ==> forall|i: int|
            0 <= i < values.len() ==> canonical(*ty, #[trigger] values[i]),
        KindModel::FixedArray(ty, _) => value matches ValueModel::List(values) ==> forall|i: int|
            0 <= i < values.len() ==> canonical(*ty, #[trigger] values[i]),
        KindModel::Mapping(key_ty, value_ty) => value matches ValueModel::List(items) ==> {
            &&& pairs_ascend(*key_ty, items)
            &&& forall|i: int|
                0 <= i < items.len() ==> canonical(*value_ty, (#[trigger] items[i])->Tuple_0[1])
        },
        KindModel::PublicKey => value matches ValueModel::Str(text) ==> lower_hex(text),
        KindModel::Optional(ty) => !(value is PyNone) ==> canonical(*ty, value),
        KindModel::Ref(ty) => canonical(*ty, value),
        _ => true,
    }
}

/// Whether objects are pairs whose keys strictly ascend.
pub open spec fn pairs_ascend(key_ty: KindModel, items: Seq<ValueModel>) -> bool {
    &&& forall|i: int|
        0 <= i < items.len() ==> (#[trigger] items[i] matches ValueModel::Tuple(pair) && pair.len()
            == 2)
    &&& forall|i: int, j: int|
        0 <= i < j < items.len() ==> keys_ascend(
            key_ty,
            (#[trigger] items[i])->Tuple_0[0],
            (#[trigger] items[j])->Tuple_0[0],
        )
}

/// Whether the key that one object gives stands before the key that another gives.
pub open spec fn keys_ascend(key_ty: KindModel, a: ValueModel, b: ValueModel) -> bool {
    match (parse_key_model(key_ty, a), parse_key_model(key_ty, b)) {
        (Ok(x), Ok(y)) => goes_before(x, y),
        _ => true,
    }
}

/// Whether a dictionary has just the names of parameters, and under each an object in
/// canonical form.
pub open spec fn canonical_items(params: Seq<ParamModel>, items: Seq<ItemModel>) -> bool
    decreases params,
{
    &&& distinct_keys(items)
    &&& forall|i: int|
        0 <= i < items.len() ==> exists|j: int|
            0 <= j < params.len() && (#[trigger] params[j]).name == (#[trigger] items[i]).key
    &&& forall|j: int|
        #![trigger params[j]]
        0 <= j < params.len() ==> (dict_get(items, params[j].name) matches Some(value)
            ==> canonical(params[j].kind, value))
}

proof fn lemma_dict_get_at(items: Seq<ItemModel>, i: int)
    requires
        distinct_keys(items),
        0 <= i < items.len(),
    ensures
        dict_get(items, items[i].key) == Some(items[i].value),
{
    lemma_key_index(items, items[i].key);
    let found = key_index(items, items[i].key) as int;
    if found < i {
        assert(items[found].key != items[i].key);
    }
    assert(found == i);
}

spec fn last_named(tokens: Seq<NamedTokenModel>, name: Seq<char>) -> int
    decreases tokens.len(),
{
    if tokens.len() == 0 {
        -1
    } else if tokens.last().name == name {
        tokens.len() - 1
    } else {
        last_named(tokens.drop_last(), name)
    }
}

proof fn lemma_last_named(tokens: Seq<NamedTokenModel>, name: Seq<char>)
    ensures
        -1 <= last_named(tokens, name) < tokens.len(),
        last_named(tokens, name) >= 0 ==> tokens[last_named(tokens, name)].name == name,
        forall|i: int|
            last_named(tokens, name) < i < tokens.len() ==> (#[trigger] tokens[i]).name != name,
    decreases tokens.len(),
{
    if tokens.len() > 0 {
        let shorter = tokens.drop_last();
        lemma_last_named(shorter, name);
        let last = last_named(tokens, name);
        assert forall|i: int| last < i < tokens.len() implies (#[trigger] tokens[i]).name
            != name by {
            if i < shorter.len() {
                assert(shorter[i] == tokens[i]);
            }
        }
    }
}

/// Named tokens that each give back the object of their name in a dictionary, and that
/// leave out none of its names, give back the dictionary.
proof fn lemma_named_come_back(items: Seq<ItemModel>, tokens: Seq<NamedTokenModel>)
    requires
        distinct_keys(items),
        forall|i: int|
            #![trigger tokens[i]]
            0 <= i < tokens.len() ==> {
                &&& dict_get(items, tokens[i].name) is Some
                &&& convert_model(tokens[i].value) is Ok
                &&& same_object(
                    dict_get(items, tokens[i].name)->0,
                    convert_model(tokens[i].value)->Ok_0,
                )
            },
        forall|i: int|
            0 <= i < items.len() ==> exists|j: int|
                0 <= j < tokens.len() && (#[trigger] tokens[j]).name == (#[trigger] items[i]).key,
    ensures
        convert_named_model(tokens) matches Ok(again) && same_items(items, again),
{
    lemma_convert_named_all(tokens);
    let again = convert_named_model(tokens)->Ok_0;
    assert forall|i: int| #![trigger items[i]] 0 <= i < items.len() implies dict_get(
        again,
        items[i].key,
    ) is Some && same_object(items[i].value, dict_get(again, items[i].key)->0) by {
        let name = items[i].key;
        lemma_dict_get_at(items, i);
        lemma_last_named(tokens, name);
        let last = last_named(tokens, name);
        let j = choose|j: int| 0 <= j < tokens.len() && (#[trigger] tokens[j]).name == name;
        assert(tokens[j].name == name);
        assert(last >= 0);
        last_token_is_kept(tokens, name, last);
        assert(tokens[last].name == name);
    }
    assert forall|i: int| 0 <= i < again.len() implies dict_get(
        items,
        (#[trigger] again[i]).key,
    ) is Some by {
        let name = again[i].key;
        lemma_last_named(tokens, name);
        let last = last_named(tokens, name);
        last_token_is_kept(tokens, name, last);
        lemma_dict_get_at(again, i);
        assert(last >= 0);
        assert(tokens[last].name == name);
    }
}

/// An object in canonical form comes back as it went in: whatever token is read from it is
/// given back as an object that is equal to it.
pub proof fn canonical_object_comes_back(
    kind: KindModel,
    value: ValueModel,
    refusals: Seq<RefusalModel>,
)
    requires
        canonical(kind, value),
        parse_model(kind, value, refusals) is Ok,
    ensures
        convert_model(parse_model(kind, value, refusals)->Ok_0) matches Ok(again) && same_object(
            value,
            again,
        ),
    decreases kind, 0nat,
{
    match kind {
        KindModel::Tuple(params) => {
            canonical_items_come_back(params, value->Dict_0, refusals);
        },
        KindModel::Array(ty) => {
            canonical_list_comes_back(*ty, value->List_0, refusals);
        },
        KindModel::FixedArray(ty, _) => {
            canonical_list_comes_back(*ty, value->List_0, refusals);
        },
        KindModel::Mapping(key_ty, value_ty) => {
            canonical_pairs_come_back(*key_ty, *value_ty, value->List_0, refusals);
        },
        KindModel::PublicKey => {
            if let ValueModel::Str(text) = value {
                lower_text_round_trip(text);
            }
        },
        KindModel::Optional(ty) => {
            if !(value is PyNone) {
                canonical_object_comes_back(*ty, value, refusals);
            }
        },
        KindModel::Ref(ty) => {
            canonical_object_comes_back(*ty, value, refusals);
        },
        _ => {},
    }
}

proof fn canonical_list_comes_back(
    ty: KindModel,
    values: Seq<ValueModel>,
    refusals: Seq<RefusalModel>,
)
    requires
        forall|i: int| 0 <= i < values.len() ==> canonical(ty, #[trigger] values[i]),
        parse_list_model(ty, values, refusals) is Ok,
    ensures
        convert_list_model(parse_list_model(ty, values, refusals)->Ok_0) matches Ok(again)
            && same_objects(values, again),
    decreases ty, 1nat,
{
    let tokens = parse_list_model(ty, values, refusals)->Ok_0;
    lemma_parse_list_elements(ty, values, refusals);
    assert forall|i: int| 0 <= i < tokens.len() implies convert_model(
        #[trigger] tokens[i],
    ) matches Ok(again) && same_object(values[i], again) by {
        assert(canonical(ty, values[i]));
        canonical_object_comes_back(ty, values[i], refusals);
    }
    lemma_convert_list_all(tokens);
    let again = convert_list_model(tokens)->Ok_0;
    assert forall|i: int| 0 <= i < values.len() implies same_object(
        #[trigger] values[i],
        again[i],
    ) by {
        assert(convert_model(tokens[i]) == Ok::<ValueModel, ErrorModel>(again[i]));
    }
}

proof fn canonical_pairs_come_back(
    key_ty: KindModel,
    value_ty: KindModel,
    items: Seq<ValueModel>,
    refusals: Seq<RefusalModel>,
)
    requires
        pairs_ascend(key_ty, items),
        forall|i: int|
            0 <= i < items.len() ==> canonical(value_ty, (#[trigger] items[i])->Tuple_0[1]),
        parse_entries_model(key_ty, value_ty, items, refusals) is Ok,
    ensures
        convert_entries_model(
            parse_entries_model(key_ty, value_ty, items, refusals)->Ok_0,
        ) matches Ok(again) && same_objects(items, again),
    decreases value_ty, 1nat,
{
    let entries = Seq::new(
        items.len(),
        |i: int| parse_entry_model(key_ty, value_ty, items[i], refusals)->Ok_0,
    );
    assert forall|i: int| #![trigger entries[i]] 0 <= i < entries.len() implies parse_entry_model(
        key_ty,
        value_ty,
        items[i],
        refusals,
    ) == Ok::<MapEntryModel, ErrorModel>(entries[i]) by {
        lemma_entries_read(key_ty, value_ty, items, refusals, i);
    }
    assert(in_order(entries)) by {
        assert forall|i: int, j: int| 0 <= i < j < entries.len() implies goes_before(
            (#[trigger] entries[i]).key,
            (#[trigger] entries[j]).key,
        ) by {
            assert(keys_ascend(key_ty, items[i]->Tuple_0[0], items[j]->Tuple_0[0]));
        }
    }
    lemma_parse_entries_all(key_ty, value_ty, items, entries, refusals);
    assert forall|i: int| 0 <= i < entries.len() implies convert_entry_model(
        #[trigger] entries[i],
    ) matches Ok(again) && same_object(items[i], again) by {
        let pair = items[i]->Tuple_0;
        assert(items[i] is Tuple && pair.len() == 2);
        assert(canonical(value_ty, items[i]->Tuple_0[1]));
        canonical_object_comes_back(value_ty, pair[1], refusals);
        let again = convert_entry_model(entries[i])->Ok_0->Tuple_0;
        assert(same_object(pair[0], again[0]));
        assert(same_object(pair[1], again[1]));
        assert(same_objects(pair, again));
    }
    lemma_convert_entries_all(entries);
    let again = convert_entries_model(entries)->Ok_0;
    assert forall|i: int| 0 <= i < items.len() implies same_object(#[trigger] items[i], again[i]) by {
        assert(convert_entry_model(entries[i]) == Ok::<ValueModel, ErrorModel>(again[i]));
    }
}

/// A dictionary in canonical form comes back as it went in: whatever tokens are read from
/// it for parameters are given back as a dictionary that is equal to it.
pub proof fn canonical_items_come_back(
    params: Seq<ParamModel>,
    items: Seq<ItemModel>,
    refusals: Seq<RefusalModel>,
)
    requires
        canonical_items(params, items),
        parse_params_model(params, items, refusals) is Ok,
    ensures
        convert_named_model(parse_params_model(params, items, refusals)->Ok_0) matches Ok(again)
            && same_items(items, again),
    decreases params, 0nat,
{
    let tokens = parse_params_model(params, items, refusals)->Ok_0;
    lemma_parse_params_elements(params, items, refusals);
    assert forall|i: int| #![trigger tokens[i]] 0 <= i < tokens.len() implies {
        &&& dict_get(items, tokens[i].name) is Some
        &&& convert_model(tokens[i].value) is Ok
        &&& same_object(
            dict_get(items, tokens[i].name)->0,
            convert_model(tokens[i].value)->Ok_0,
        )
    } by {
        let value = dict_get(items, params[i].name)->0;
        assert(canonical(params[i].kind, value));
        canonical_object_comes_back(params[i].kind, value, refusals);
    }
    assert forall|i: int| 0 <= i < items.len() implies exists|j: int|
        0 <= j < tokens.len() && (#[trigger] tokens[j]).name == (#[trigger] items[i]).key by {
        let j = choose|j: int|
            0 <= j < params.len() && (#[trigger] params[j]).name == items[i].key;
        assert(tokens[j].name == items[i].key);
    }
    lemma_named_come_back(items, tokens);
}

/// The input of a function comes back as it went in: where the tokens that an input in
/// canonical form is packed with are those that come back from decoding the body, the
/// decoded input is equal to it.
pub proof fn input_comes_back(
    function: FunctionModel,
    input: Seq<ItemModel>,
    refusals: Seq<RefusalModel>,
    decoded: Result<Seq<NamedTokenModel>, Seq<char>>,
)
    requires
        canonical_items(function.inputs, input),
        parse_params_model(function.inputs, input, refusals) is Ok,
        decoded == Ok::<Seq<NamedTokenModel>, Seq<char>>(
            parse_params_model(function.inputs, input, refusals)->Ok_0,
        ),
    ensures
        converted_model(decoded) matches Ok(again) && same_items(input, again),
{
    canonical_items_come_back(function.inputs, input, refusals);
}

/// Whether a dictionary has just the names of the values of initial data, and under each an
/// object in canonical form.
pub open spec fn canonical_data(items: Seq<DataItemModel>, data: Seq<ItemModel>) -> bool {
    &&& distinct_keys(data)
    &&& forall|i: int|
        0 <= i < data.len() ==> exists|j: int|
            0 <= j < items.len() && (#[trigger] items[j]).name == (#[trigger] data[i]).key
    &&& forall|j: int|
        #![trigger items[j]]
        0 <= j < items.len() ==> (dict_get(data, items[j].name) matches Some(value) ==> canonical(
            items[j].kind,
            value,
        ))
}

/// Whether looking the public key up finds what is kept.
pub open spec fn finds_key(entry: KeyEntry, kept: Option<InitValueModel>) -> bool {
    match kept {
        None => entry == KeyEntry::Ok(None),
        Some(InitValueModel::PublicKey(bytes)) => entry matches Ok(Some(Ok(found))) && found@
            == bytes,
        Some(InitValueModel::Token(_)) => true,
    }
}

/// Whether a named token is that of an item, with the value that is kept under its key.
pub open spec fn finds_item(
    token: NamedTokenModel,
    item: DataItemModel,
    writes: Seq<InitWriteModel>,
) -> bool {
    token.name == item.name && kept_under(writes, item.key) == Some(
        InitValueModel::Token(token.value),
    )
}

/// Whether named tokens are those of the items, with the values that are kept under their
/// keys, in whatever order.
pub open spec fn finds_items(
    tokens: Seq<NamedTokenModel>,
    items: Seq<DataItemModel>,
    writes: Seq<InitWriteModel>,
) -> bool {
    &&& forall|i: int|
        0 <= i < tokens.len() ==> exists|j: int|
            0 <= j < items.len() && finds_item(#[trigger] tokens[i], #[trigger] items[j], writes)
    &&& forall|j: int|
        0 <= j < items.len() ==> exists|i: int|
            0 <= i < tokens.len() && finds_item(#[trigger] tokens[i], #[trigger] items[j], writes)
}

/// A token that is found for an item gives back the object that the item was given as.
proof fn lemma_item_comes_back(
    abi_version: AbiVersion,
    public_key: Option<Seq<u8>>,
    items: Seq<DataItemModel>,
    data: Seq<ItemModel>,
    refusals: Seq<RefusalModel>,
    token: NamedTokenModel,
    j: int,
)
    requires
        0 <= j < items.len(),
        forall|i: int| j < i < items.len() ==> (#[trigger] items[i]).key != items[j].key,
        dict_get(data, items[j].name) matches Some(value) ==> canonical(items[j].kind, value),
        plan_items_model(
            plan_start_model(abi_version, public_key, None),
            items,
            data,
            refusals,
        ).failure is None,
        finds_item(
            token,
            items[j],
            plan_items_model(
                plan_start_model(abi_version, public_key, None),
                items,
                data,
                refusals,
            ).writes,
        ),
    ensures
        dict_get(data, token.name) is Some,
        convert_model(token.value) is Ok,
        same_object(dict_get(data, token.name)->0, convert_model(token.value)->Ok_0),
{
    planned_data_is_kept(abi_version, public_key, None, items, data, refusals, items[j].key, j);
    let value = dict_get(data, items[j].name)->0;
    canonical_object_comes_back(items[j].kind, value, refusals);
}

/// The tokens that are found for items give back the dictionary that they were given in.
proof fn lemma_items_come_back(
    items: Seq<DataItemModel>,
    data: Seq<ItemModel>,
    writes: Seq<InitWriteModel>,
    tokens: Seq<NamedTokenModel>,
)
    requires
        canonical_data(items, data),
        finds_items(tokens, items, writes),
        forall|i: int|
            #![trigger tokens[i]]
            0 <= i < tokens.len() ==> {
                &&& dict_get(data, tokens[i].name) is Some
                &&& convert_model(tokens[i].value) is Ok
                &&& same_object(
                    dict_get(data, tokens[i].name)->0,
                    convert_model(tokens[i].value)->Ok_0,
                )
            },
    ensures
        convert_named_model(tokens) matches Ok(again) && same_items(data, again),
{
    assert forall|i: int| 0 <= i < data.len() implies exists|j: int|
        0 <= j < tokens.len() && (#[trigger] tokens[j]).name == (#[trigger] data[i]).key by {
        let j = choose|j: int| 0 <= j < items.len() && (#[trigger] items[j]).name == data[i].key;
        let k = choose|k: int|
            0 <= k < tokens.len() && finds_item(#[trigger] tokens[k], items[j], writes);
        assert(tokens[k].name == data[i].key);
    }
    lemma_named_come_back(data, tokens);
}

/// The public key that is found is the one that was given.
proof fn lemma_key_comes_back(public_key: Option<Seq<u8>>, entry: KeyEntry)
    requires
        public_key matches Some(key) ==> is_public_key(key) && !all_zero(key),
        finds_key(
            entry,
            match public_key {
                Some(key) => Some(InitValueModel::PublicKey(key)),
                None => None,
            },
        ),
    ensures
        init_key_model(entry) == Ok::<Option<Seq<u8>>, ErrorModel>(public_key),
{
}

/// Initial data comes back as it went in: where data in canonical form is planned without
/// an exception and without data that exists, and what is kept is found again, the public
/// key and the values that are read are those that were given. Left out are a key of zeros
/// alone, which stands for none, and items that share a key or have that of the public key.
pub proof fn init_data_comes_back(
    abi_version: AbiVersion,
    public_key: Option<Seq<u8>>,
    items: Seq<DataItemModel>,
    data: Seq<ItemModel>,
    refusals: Seq<RefusalModel>,
    entry: KeyEntry,
    tokens: Seq<NamedTokenModel>,
)
    requires
        canonical_data(items, data),
        public_key matches Some(key) ==> is_public_key(key) && !all_zero(key),
        forall|i: int| 0 <= i < items.len() ==> (#[trigger] items[i]).key != PUBLIC_KEY_SLOT,
        forall|i: int, j: int|
            0 <= i < j < items.len() ==> (#[trigger] items[i]).key != (#[trigger] items[j]).key,
        plan_items_model(
            plan_start_model(abi_version, public_key, None),
            items,
            data,
            refusals,
        ).failure is None,
        finds_key(
            entry,
            kept_under(
                plan_items_model(
                    plan_start_model(abi_version, public_key, None),
                    items,
                    data,
                    refusals,
                ).writes,
                PUBLIC_KEY_SLOT,
            ),
        ),
        finds_items(
            tokens,
            items,
            plan_items_model(plan_start_model(abi_version, public_key, None), items, data, refusals).writes,
        ),
    ensures
        init_data_model(entry, Ok(tokens)) matches Ok(read) && read.public_key == public_key
            && same_items(data, read.values),
{
    let writes = plan_items_model(
        plan_start_model(abi_version, public_key, None),
        items,
        data,
        refusals,
    ).writes;
    planned_data_is_kept(
        abi_version,
        public_key,
        None,
        items,
        data,
        refusals,
        PUBLIC_KEY_SLOT,
        -1,
    );
    lemma_key_comes_back(public_key, entry);
    assert forall|i: int| #![trigger tokens[i]] 0 <= i < tokens.len() implies {
        &&& dict_get(data, tokens[i].name) is Some
        &&& convert_model(tokens[i].value) is Ok
        &&& same_object(
            dict_get(data, tokens[i].name)->0,
            convert_model(tokens[i].value)->Ok_0,
        )
    } by {
        let j = choose|j: int|
            0 <= j < items.len() && finds_item(tokens[i], #[trigger] items[j], writes);
        lemma_item_comes_back(abi_version, public_key, items, data, refusals, tokens[i], j);
    }
    lemma_items_come_back(items, data, writes, tokens);
}

} // verus!
