//! How reading objects and making them fit together.

use crate::convert::{
    convert_entries_model, convert_entry_model, convert_key_model, convert_list_model,
    convert_model, convert_named_model,
};
use crate::error::ErrorModel;
use crate::keys::{is_public_key, key_text_round_trip};
use crate::ledger::account_address;
use crate::param::{KindModel, ParamModel};
use crate::parse::{
    parse_entries_model, parse_entry_model, parse_key_model, parse_list_model, parse_model,
    parse_params_model, refusal_of, RefusalModel,
};
use crate::token::{
    entry_index, goes_before, in_order, insert_index, key_order_is_total, lemma_entry_index,
    lemma_insert_in_order, lemma_insert_index, map_insert, MapEntryModel, MapKeyModel,
    NamedTokenModel, TokenModel,
};
use crate::value::{dict_get, key_index, lemma_key_index, ItemModel, ValueModel};
use vstd::prelude::*;

verus! {

/// No two parameters have one name.
pub open spec fn distinct_names(params: Seq<ParamModel>) -> bool {
    forall|i: int, j: int|
        0 <= i < j < params.len() ==> (#[trigger] params[i]).name != (#[trigger] params[j]).name
}

/// The components of every tuple in a type have names of their own.
pub open spec fn valid_kind(kind: KindModel) -> bool
    decreases kind,
{
    match kind {
        KindModel::Tuple(params) => valid_params(params),
        KindModel::Array(ty) => valid_kind(*ty),
        KindModel::FixedArray(ty, _) => valid_kind(*ty),
        KindModel::Mapping(_, ty) => valid_kind(*ty),
        KindModel::Optional(ty) => valid_kind(*ty),
        KindModel::Ref(ty) => valid_kind(*ty),
        _ => true,
    }
}

/// The parameters, and the components of every tuple in their types, have names of
/// their own.
pub open spec fn valid_params(params: Seq<ParamModel>) -> bool
    decreases params,
{
    &&& distinct_names(params)
    &&& forall|i: int| 0 <= i < params.len() ==> valid_kind((#[trigger] params[i]).kind)
}

/// Whether a key is one for the type of the keys of a dictionary.
pub open spec fn key_typed(kind: KindModel, key: MapKeyModel) -> bool {
    match (kind, key) {
        (KindModel::Uint(size), MapKeyModel::Uint(_, s)) => s == size,
        (KindModel::Int(size), MapKeyModel::Int(_, s)) => s == size,
        (KindModel::Address, MapKeyModel::Address(address)) => account_address(address) is Some,
        _ => false,
    }
}

/// Whether a token is one for a parameter of a type.
pub open spec fn well_typed(
    kind: KindModel,
    token: TokenModel,
    refusals: Seq<RefusalModel>,
) -> bool
    decreases kind,
{
    match (kind, token) {
        (KindModel::Uint(size), TokenModel::Uint(_, s)) => s == size,
        (KindModel::Int(size), TokenModel::Int(_, s)) => s == size,
        (KindModel::VarUint(size), TokenModel::VarUint(s, _)) => s == size,
        (KindModel::VarInt(size), TokenModel::VarInt(s, _)) => s == size,
        (KindModel::Bool, TokenModel::Bool(_)) => true,
        (KindModel::Tuple(params), TokenModel::Tuple(tokens)) => well_typed_named(
            params,
            tokens,
            refusals,
        ),
        (KindModel::Array(ty), TokenModel::Array(t, tokens)) => {
            &&& t == *ty
            &&& forall|i: int|
                0 <= i < tokens.len() ==> well_typed(*ty, #[trigger] tokens[i], refusals)
        },
        (KindModel::FixedArray(ty, len), TokenModel::FixedArray(t, tokens)) => {
            &&& t == *ty
            &&& tokens.len() == len
            &&& forall|i: int|
                0 <= i < tokens.len() ==> well_typed(*ty, #[trigger] tokens[i], refusals)
        },
        (KindModel::Cell, TokenModel::Cell(_)) => true,
        (KindModel::Mapping(key_ty, value_ty), TokenModel::Mapping(k, v, entries)) => {
            &&& k == *key_ty
            &&& v == *value_ty
            &&& in_order(entries)
            &&& forall|i: int|
                0 <= i < entries.len() ==> key_typed(*key_ty, (#[trigger] entries[i]).key)
            &&& forall|i: int|
                0 <= i < entries.len() ==> well_typed(
                    *value_ty,
                    (#[trigger] entries[i]).value,
                    refusals,
                )
        },
        (KindModel::Address, TokenModel::Address(address)) => account_address(address) is Some,
        (KindModel::Bytes, TokenModel::Bytes(_)) => true,
        (KindModel::FixedBytes(len), TokenModel::FixedBytes(bytes)) => bytes.len() == len,
        (KindModel::String, TokenModel::String(_)) => true,
        (KindModel::Token, TokenModel::Token(amount)) => refusal_of(refusals, amount) is None,
        (KindModel::Time, TokenModel::Time(_)) => true,
        (KindModel::Expire, TokenModel::Expire(_)) => true,
        (KindModel::PublicKey, TokenModel::PublicKey(key)) => key matches Some(bytes)
            ==> is_public_key(bytes),
        (KindModel::Optional(ty), TokenModel::Optional(t, inner)) => {
            &&& t == *ty
            &&& inner matches Some(value) ==> well_typed(*ty, *value, refusals)
        },
        (KindModel::Ref(ty), TokenModel::Ref(inner)) => well_typed(*ty, *inner, refusals),
        _ => false,
    }
}

/// Whether named tokens are those for parameters: one for each, in order, under its name.
pub open spec fn well_typed_named(
    params: Seq<ParamModel>,
    tokens: Seq<NamedTokenModel>,
    refusals: Seq<RefusalModel>,
) -> bool
    decreases params,
{
    &&& tokens.len() == params.len()
    &&& forall|i: int| 0 <= i < params.len() ==> (#[trigger] tokens[i]).name == params[i].name
    &&& forall|i: int|
        #![trigger tokens[i]]
        0 <= i < params.len() ==> well_typed(params[i].kind, tokens[i].value, refusals)
}

/// No optional value in a token is there and looks like `None`. An optional value that
/// is there and looks like `None` cannot be told from one that is not there.
pub open spec fn reads_back(token: TokenModel) -> bool
    decreases token,
{
    match token {
        TokenModel::Tuple(tokens) => reads_back_named(tokens),
        TokenModel::Array(_, tokens) => forall|i: int|
            0 <= i < tokens.len() ==> reads_back(#[trigger] tokens[i]),
        TokenModel::FixedArray(_, tokens) => forall|i: int|
            0 <= i < tokens.len() ==> reads_back(#[trigger] tokens[i]),
        TokenModel::Mapping(_, _, entries) => forall|i: int|
            0 <= i < entries.len() ==> reads_back((#[trigger] entries[i]).value),
        TokenModel::Optional(_, inner) => inner matches Some(value) ==> {
            &&& convert_model(*value) != Ok::<ValueModel, ErrorModel>(ValueModel::PyNone)
            &&& reads_back(*value)
        },
        TokenModel::Ref(inner) => reads_back(*inner),
        _ => true,
    }
}

/// [`reads_back`] of each of a sequence of named tokens.
pub open spec fn reads_back_named(tokens: Seq<NamedTokenModel>) -> bool
    decreases tokens,
{
    forall|i: int| 0 <= i < tokens.len() ==> reads_back((#[trigger] tokens[i]).value)
}

pub(crate) proof fn lemma_parse_list_elements(
    ty: KindModel,
    values: Seq<ValueModel>,
    refusals: Seq<RefusalModel>,
)
    ensures
        parse_list_model(ty, values, refusals) matches Ok(tokens) ==> {
            &&& tokens.len() == values.len()
            &&& forall|i: int|
                #![trigger tokens[i]]
                0 <= i < tokens.len() ==> parse_model(ty, values[i], refusals) == Ok::<
                    TokenModel,
                    ErrorModel,
                >(tokens[i])
        },
    decreases values.len(),
{
    if values.len() > 0 {
        lemma_parse_list_elements(ty, values.drop_last(), refusals);
        if let Ok(tokens) = parse_list_model(ty, values, refusals) {
            let shorter = parse_list_model(ty, values.drop_last(), refusals)->Ok_0;
            assert forall|i: int| #![trigger tokens[i]] 0 <= i < tokens.len() implies parse_model(
                ty,
                values[i],
                refusals,
            ) == Ok::<TokenModel, ErrorModel>(tokens[i]) by {
                if i < shorter.len() {
                    assert(tokens[i] == shorter[i]);
                    assert(values.drop_last()[i] == values[i]);
                }
            }
        }
    }
}

proof fn lemma_parse_list_all(
    ty: KindModel,
    values: Seq<ValueModel>,
    tokens: Seq<TokenModel>,
    refusals: Seq<RefusalModel>,
)
    requires
        tokens.len() == values.len(),
        forall|i: int|
            #![trigger tokens[i]]
            0 <= i < tokens.len() ==> parse_model(ty, values[i], refusals) == Ok::<
                TokenModel,
                ErrorModel,
            >(tokens[i]),
    ensures
        parse_list_model(ty, values, refusals) == Ok::<Seq<TokenModel>, ErrorModel>(tokens),
    decreases values.len(),
{
    if values.len() > 0 {
        let shorter = tokens.drop_last();
        assert forall|i: int| #![trigger shorter[i]] 0 <= i < shorter.len() implies parse_model(
            ty,
            values.drop_last()[i],
            refusals,
        ) == Ok::<TokenModel, ErrorModel>(shorter[i]) by {
            assert(shorter[i] == tokens[i]);
        }
        lemma_parse_list_all(ty, values.drop_last(), shorter, refusals);
        assert(tokens.last() == tokens[tokens.len() - 1]);
        assert(shorter.push(tokens.last()) =~= tokens);
    } else {
        assert(tokens =~= Seq::<TokenModel>::empty());
    }
}

pub(crate) proof fn lemma_convert_list_all(tokens: Seq<TokenModel>)
    requires
        forall|i: int| 0 <= i < tokens.len() ==> convert_model(#[trigger] tokens[i]) is Ok,
    ensures
        convert_list_model(tokens) matches Ok(values) && {
            &&& values.len() == tokens.len()
            &&& forall|i: int|
                0 <= i < tokens.len() ==> convert_model(#[trigger] tokens[i]) == Ok::<
                    ValueModel,
                    ErrorModel,
                >(values[i])
        },
    decreases tokens.len(),
{
    if tokens.len() > 0 {
        let shorter = tokens.drop_last();
        assert forall|i: int| 0 <= i < shorter.len() implies convert_model(
            #[trigger] shorter[i],
        ) is Ok by {
            assert(shorter[i] == tokens[i]);
        }
        lemma_convert_list_all(shorter);
        assert(tokens.last() == tokens[tokens.len() - 1]);
        let values = convert_list_model(tokens)->Ok_0;
        assert forall|i: int| 0 <= i < tokens.len() implies convert_model(#[trigger] tokens[i])
            == Ok::<ValueModel, ErrorModel>(values[i]) by {
            if i < shorter.len() {
                assert(shorter[i] == tokens[i]);
            }
        }
    }
}

pub(crate) proof fn lemma_parse_params_elements(
    params: Seq<ParamModel>,
    items: Seq<ItemModel>,
    refusals: Seq<RefusalModel>,
)
    ensures
        parse_params_model(params, items, refusals) matches Ok(tokens) ==> {
            &&& tokens.len() == params.len()
            &&& forall|i: int|
                #![trigger tokens[i]]
                0 <= i < tokens.len() ==> {
                    &&& tokens[i].name == params[i].name
                    &&& dict_get(items, params[i].name) matches Some(value) && parse_model(
                        params[i].kind,
                        value,
                        refusals,
                    ) == Ok::<TokenModel, ErrorModel>(tokens[i].value)
                }
        },
    decreases params.len(),
{
    if params.len() > 0 {
        lemma_parse_params_elements(params.drop_last(), items, refusals);
        if let Ok(tokens) = parse_params_model(params, items, refusals) {
            let shorter = parse_params_model(params.drop_last(), items, refusals)->Ok_0;
            assert forall|i: int| #![trigger tokens[i]] 0 <= i < tokens.len() implies {
                &&& tokens[i].name == params[i].name
                &&& dict_get(items, params[i].name) matches Some(value) && parse_model(
                    params[i].kind,
                    value,
                    refusals,
                ) == Ok::<TokenModel, ErrorModel>(tokens[i].value)
            } by {
                if i < shorter.len() {
                    assert(tokens[i] == shorter[i]);
                    assert(params.drop_last()[i] == params[i]);
                }
            }
        }
    }
}

proof fn lemma_parse_params_all(
    params: Seq<ParamModel>,
    items: Seq<ItemModel>,
    tokens: Seq<NamedTokenModel>,
    refusals: Seq<RefusalModel>,
)
    requires
        tokens.len() == params.len(),
        forall|i: int|
            #![trigger tokens[i]]
            0 <= i < tokens.len() ==> {
                &&& tokens[i].name == params[i].name
                &&& dict_get(items, params[i].name) matches Some(value) && parse_model(
                    params[i].kind,
                    value,
                    refusals,
                ) == Ok::<TokenModel, ErrorModel>(tokens[i].value)
            },
    ensures
        parse_params_model(params, items, refusals) == Ok::<Seq<NamedTokenModel>, ErrorModel>(
            tokens,
        ),
    decreases params.len(),
{
    if params.len() > 0 {
        let shorter = tokens.drop_last();
        assert forall|i: int| #![trigger shorter[i]] 0 <= i < shorter.len() implies {
            &&& shorter[i].name == params.drop_last()[i].name
            &&& dict_get(items, params.drop_last()[i].name) matches Some(value) && parse_model(
                params.drop_last()[i].kind,
                value,
                refusals,
            ) == Ok::<TokenModel, ErrorModel>(shorter[i].value)
        } by {
            assert(shorter[i] == tokens[i]);
        }
        lemma_parse_params_all(params.drop_last(), items, shorter, refusals);
        assert(tokens.last() == tokens[tokens.len() - 1]);
        assert(shorter.push(tokens.last()) =~= tokens);
    } else {
        assert(tokens =~= Seq::<NamedTokenModel>::empty());
    }
}

pub(crate) proof fn lemma_convert_named_all(tokens: Seq<NamedTokenModel>)
    requires
        forall|i: int| 0 <= i < tokens.len() ==> convert_model((#[trigger] tokens[i]).value) is Ok,
    ensures
        convert_named_model(tokens) is Ok,
    decreases tokens.len(),
{
    if tokens.len() > 0 {
        let shorter = tokens.drop_last();
        assert forall|i: int| 0 <= i < shorter.len() implies convert_model(
            (#[trigger] shorter[i]).value,
        ) is Ok by {
            assert(shorter[i] == tokens[i]);
        }
        lemma_convert_named_all(shorter);
        assert(tokens.last() == tokens[tokens.len() - 1]);
    }
}

/// Named tokens with names of their own give one entry each, in order.
proof fn lemma_convert_named_items(tokens: Seq<NamedTokenModel>)
    requires
        forall|i: int| 0 <= i < tokens.len() ==> convert_model((#[trigger] tokens[i]).value) is Ok,
        forall|i: int, j: int|
            0 <= i < j < tokens.len() ==> (#[trigger] tokens[i]).name != (
            #[trigger] tokens[j]).name,
    ensures
        convert_named_model(tokens) matches Ok(items) && {
            &&& items.len() == tokens.len()
            &&& forall|i: int|
                #![trigger items[i]]
                #![trigger tokens[i]]
                0 <= i < tokens.len() ==> {
                    &&& items[i].key == tokens[i].name
                    &&& convert_model(tokens[i].value) == Ok::<ValueModel, ErrorModel>(
                        items[i].value,
                    )
                }
        },
    decreases tokens.len(),
{
    if tokens.len() > 0 {
        let shorter = tokens.drop_last();
        assert forall|i: int| 0 <= i < shorter.len() implies convert_model(
            (#[trigger] shorter[i]).value,
        ) is Ok by {
            assert(shorter[i] == tokens[i]);
        }
        assert forall|i: int, j: int| 0 <= i < j < shorter.len() implies (
        #[trigger] shorter[i]).name != (#[trigger] shorter[j]).name by {
            assert(shorter[i] == tokens[i] && shorter[j] == tokens[j]);
        }
        lemma_convert_named_items(shorter);
        let last = tokens.len() - 1;
        assert(tokens.last() == tokens[last]);
        let before = convert_named_model(shorter)->Ok_0;
        let name = tokens.last().name;
        lemma_key_index(before, name);
        let found = key_index(before, name) as int;
        if found < before.len() {
            assert(before[found].key == shorter[found].name);
            assert(shorter[found] == tokens[found]);
            assert(tokens[found].name != tokens[last].name);
        }
        let items = convert_named_model(tokens)->Ok_0;
        assert forall|i: int|
            #![trigger items[i]]
            #![trigger tokens[i]]
            0 <= i < tokens.len() implies {
            &&& items[i].key == tokens[i].name
            &&& convert_model(tokens[i].value) == Ok::<ValueModel, ErrorModel>(items[i].value)
        } by {
            if i < shorter.len() {
                assert(shorter[i] == tokens[i]);
                assert(items[i] == before[i]);
            }
        }
    }
}

/// Entries read from a list are in order, and their keys and values are of the types
/// that are asked for.
proof fn lemma_parse_entries_typed(
    key_ty: KindModel,
    value_ty: KindModel,
    items: Seq<ValueModel>,
    refusals: Seq<RefusalModel>,
)
    requires
        forall|i: int|
            0 <= i < items.len() ==> (parse_entry_model(
                key_ty,
                value_ty,
                #[trigger] items[i],
                refusals,
            ) matches Ok(entry) ==> well_typed(value_ty, entry.value, refusals) && reads_back(
                entry.value,
            )),
    ensures
        parse_entries_model(key_ty, value_ty, items, refusals) matches Ok(entries) ==> {
            &&& in_order(entries)
            &&& forall|i: int|
                0 <= i < entries.len() ==> key_typed(key_ty, (#[trigger] entries[i]).key)
            &&& forall|i: int|
                0 <= i < entries.len() ==> well_typed(
                    value_ty,
                    (#[trigger] entries[i]).value,
                    refusals,
                )
            &&& forall|i: int|
                0 <= i < entries.len() ==> reads_back((#[trigger] entries[i]).value)
        },
    decreases items.len(),
{
    if items.len() > 0 {
        let shorter = items.drop_last();
        assert forall|i: int| 0 <= i < shorter.len() implies (parse_entry_model(
            key_ty,
            value_ty,
            #[trigger] shorter[i],
            refusals,
        ) matches Ok(entry) ==> well_typed(value_ty, entry.value, refusals) && reads_back(
            entry.value,
        )) by {
            assert(shorter[i] == items[i]);
        }
        lemma_parse_entries_typed(key_ty, value_ty, shorter, refusals);
        if let Ok(entries) = parse_entries_model(key_ty, value_ty, items, refusals) {
            let before = parse_entries_model(key_ty, value_ty, shorter, refusals)->Ok_0;
            assert(items.last() == items[items.len() - 1]);
            let entry = parse_entry_model(key_ty, value_ty, items.last(), refusals)->Ok_0;
            lemma_insert_in_order(before, entry.key, entry.value);
            lemma_entry_index(before, entry.key);
            lemma_insert_index(before, entry.key);
            let found = entry_index(before, entry.key) as int;
            let at = insert_index(before, entry.key) as int;
            assert forall|i: int| 0 <= i < entries.len() implies key_typed(
                key_ty,
                (#[trigger] entries[i]).key,
            ) && well_typed(value_ty, entries[i].value, refusals) && reads_back(
                entries[i].value,
            ) by {
                if found < before.len() {
                    if i != found {
                        assert(entries[i] == before[i]);
                    }
                } else if i < at {
                    assert(entries[i] == before[i]);
                } else if i > at {
                    assert(entries[i] == before[i - 1]);
                }
            }
        }
    }
}

/// Whatever is read from an object is a token for the type that it was read for. No
/// optional value in it is there and looks like `None`, and it converts to `None` itself
/// only if it was read from `None`.
pub proof fn parsed_is_well_typed(
    kind: KindModel,
    value: ValueModel,
    refusals: Seq<RefusalModel>,
)
    ensures
        parse_model(kind, value, refusals) matches Ok(token) ==> {
            &&& well_typed(kind, token, refusals)
            &&& reads_back(token)
            &&& !(value is PyNone) ==> convert_model(token) != Ok::<ValueModel, ErrorModel>(
                ValueModel::PyNone,
            )
        },
    decreases kind, 0nat,
{
    if let Ok(token) = parse_model(kind, value, refusals) {
        match kind {
            KindModel::Tuple(params) => {
                parsed_params_are_well_typed(params, value->Dict_0, refusals);
            },
            KindModel::Array(ty) => {
                parsed_list_is_well_typed(*ty, value->List_0, refusals);
            },
            KindModel::FixedArray(ty, len) => {
                parsed_list_is_well_typed(*ty, value->List_0, refusals);
            },
            KindModel::Mapping(key_ty, value_ty) => {
                let items = value->List_0;
                assert forall|i: int| 0 <= i < items.len() implies (parse_entry_model(
                    *key_ty,
                    *value_ty,
                    #[trigger] items[i],
                    refusals,
                ) matches Ok(entry) ==> well_typed(*value_ty, entry.value, refusals)
                    && reads_back(entry.value)) by {
                    if items[i] is Tuple && items[i]->Tuple_0.len() > 1 {
                        parsed_is_well_typed(*value_ty, items[i]->Tuple_0[1], refusals);
                    }
                }
                lemma_parse_entries_typed(*key_ty, *value_ty, items, refusals);
            },
            KindModel::Optional(ty) => {
                if !(value is PyNone) {
                    parsed_is_well_typed(*ty, value, refusals);
                }
            },
            KindModel::Ref(ty) => {
                parsed_is_well_typed(*ty, value, refusals);
            },
            _ => {},
        }
    }
}

proof fn parsed_list_is_well_typed(
    ty: KindModel,
    values: Seq<ValueModel>,
    refusals: Seq<RefusalModel>,
)
    ensures
        parse_list_model(ty, values, refusals) matches Ok(tokens) ==> {
            &&& tokens.len() == values.len()
            &&& forall|i: int|
                0 <= i < tokens.len() ==> well_typed(ty, #[trigger] tokens[i], refusals)
            &&& forall|i: int| 0 <= i < tokens.len() ==> reads_back(#[trigger] tokens[i])
        },
    decreases ty, 1nat,
{
    if let Ok(tokens) = parse_list_model(ty, values, refusals) {
        lemma_parse_list_elements(ty, values, refusals);
        assert forall|i: int| 0 <= i < tokens.len() implies well_typed(
            ty,
            #[trigger] tokens[i],
            refusals,
        ) && reads_back(tokens[i]) by {
            parsed_is_well_typed(ty, values[i], refusals);
        }
    }
}

/// Whatever is read from a dictionary for parameters are the tokens for those
/// parameters: one for each, in order, under its name.
pub proof fn parsed_params_are_well_typed(
    params: Seq<ParamModel>,
    items: Seq<ItemModel>,
    refusals: Seq<RefusalModel>,
)
    ensures
        parse_params_model(params, items, refusals) matches Ok(tokens) ==> {
            &&& well_typed_named(params, tokens, refusals)
            &&& reads_back_named(tokens)
        },
    decreases params, 0nat,
{
    if let Ok(tokens) = parse_params_model(params, items, refusals) {
        lemma_parse_params_elements(params, items, refusals);
        assert forall|i: int| #![trigger tokens[i]] 0 <= i < params.len() implies well_typed(
            params[i].kind,
            tokens[i].value,
            refusals,
        ) && reads_back(tokens[i].value) by {
            let value = dict_get(items, params[i].name)->0;
            parsed_is_well_typed(params[i].kind, value, refusals);
        }
    }
}

/// A token that is one for its type converts: only addresses that name no account have
/// no object.
pub proof fn well_typed_converts(
    kind: KindModel,
    token: TokenModel,
    refusals: Seq<RefusalModel>,
)
    requires
        well_typed(kind, token, refusals),
    ensures
        convert_model(token) is Ok,
    decreases kind, 0nat,
{
    match (kind, token) {
        (KindModel::Tuple(params), TokenModel::Tuple(tokens)) => {
            well_typed_named_converts(params, tokens, refusals);
        },
        (KindModel::Array(ty), TokenModel::Array(_, tokens)) => {
            assert forall|i: int| 0 <= i < tokens.len() implies convert_model(
                #[trigger] tokens[i],
            ) is Ok by {
                well_typed_converts(*ty, tokens[i], refusals);
            }
            lemma_convert_list_all(tokens);
        },
        (KindModel::FixedArray(ty, _), TokenModel::FixedArray(_, tokens)) => {
            assert forall|i: int| 0 <= i < tokens.len() implies convert_model(
                #[trigger] tokens[i],
            ) is Ok by {
                well_typed_converts(*ty, tokens[i], refusals);
            }
            lemma_convert_list_all(tokens);
        },
        (KindModel::Mapping(key_ty, value_ty), TokenModel::Mapping(_, _, entries)) => {
            assert forall|i: int| 0 <= i < entries.len() implies convert_entry_model(
                #[trigger] entries[i],
            ) is Ok by {
                well_typed_converts(*value_ty, entries[i].value, refusals);
                assert(key_typed(*key_ty, entries[i].key));
            }
            lemma_convert_entries_all(entries);
        },
        (KindModel::Optional(ty), TokenModel::Optional(_, inner)) => {
            if let Some(value) = inner {
                well_typed_converts(*ty, *value, refusals);
            }
        },
        (KindModel::Ref(ty), TokenModel::Ref(inner)) => {
            well_typed_converts(*ty, *inner, refusals);
        },
        _ => {},
    }
}

/// The tokens for parameters convert.
pub proof fn well_typed_named_converts(
    params: Seq<ParamModel>,
    tokens: Seq<NamedTokenModel>,
    refusals: Seq<RefusalModel>,
)
    requires
        well_typed_named(params, tokens, refusals),
    ensures
        convert_named_model(tokens) is Ok,
        forall|i: int| 0 <= i < tokens.len() ==> convert_model((#[trigger] tokens[i]).value) is Ok,
    decreases params, 0nat,
{
    assert forall|i: int| 0 <= i < tokens.len() implies convert_model(
        (#[trigger] tokens[i]).value,
    ) is Ok by {
        well_typed_converts(params[i].kind, tokens[i].value, refusals);
    }
    lemma_convert_named_all(tokens);
}

pub(crate) proof fn lemma_convert_entries_all(entries: Seq<MapEntryModel>)
    requires
        forall|i: int| 0 <= i < entries.len() ==> convert_entry_model(#[trigger] entries[i]) is Ok,
    ensures
        convert_entries_model(entries) matches Ok(values) && {
            &&& values.len() == entries.len()
            &&& forall|i: int|
                #![trigger entries[i]]
                #![trigger values[i]]
                0 <= i < entries.len() ==> convert_entry_model(entries[i]) == Ok::<
                    ValueModel,
                    ErrorModel,
                >(values[i])
        },
    decreases entries.len(),
{
    if entries.len() > 0 {
        let shorter = entries.drop_last();
        assert forall|i: int| 0 <= i < shorter.len() implies convert_entry_model(
            #[trigger] shorter[i],
        ) is Ok by {
            assert(shorter[i] == entries[i]);
        }
        lemma_convert_entries_all(shorter);
        assert(entries.last() == entries[entries.len() - 1]);
        let values = convert_entries_model(entries)->Ok_0;
        let before = convert_entries_model(shorter)->Ok_0;
        assert forall|i: int|
            #![trigger entries[i]]
            #![trigger values[i]]
            0 <= i < entries.len() implies convert_entry_model(entries[i]) == Ok::<
            ValueModel,
            ErrorModel,
        >(values[i]) by {
            if i < shorter.len() {
                assert(shorter[i] == entries[i]);
                assert(values[i] == before[i]);
            }
        }
    }
}

/// A list of entries that is in order reads as those entries.
pub(crate) proof fn lemma_parse_entries_all(
    key_ty: KindModel,
    value_ty: KindModel,
    items: Seq<ValueModel>,
    entries: Seq<MapEntryModel>,
    refusals: Seq<RefusalModel>,
)
    requires
        items.len() == entries.len(),
        in_order(entries),
        forall|i: int|
            #![trigger entries[i]]
            0 <= i < entries.len() ==> parse_entry_model(key_ty, value_ty, items[i], refusals)
                == Ok::<MapEntryModel, ErrorModel>(entries[i]),
    ensures
        parse_entries_model(key_ty, value_ty, items, refusals) == Ok::<
            Seq<MapEntryModel>,
            ErrorModel,
        >(entries),
    decreases items.len(),
{
    if items.len() > 0 {
        let shorter = entries.drop_last();
        assert forall|i: int| #![trigger shorter[i]] 0 <= i < shorter.len() implies
            parse_entry_model(key_ty, value_ty, items.drop_last()[i], refusals) == Ok::<
            MapEntryModel,
            ErrorModel,
        >(shorter[i]) by {
            assert(shorter[i] == entries[i]);
        }
        assert(in_order(shorter)) by {
            assert forall|i: int, j: int| 0 <= i < j < shorter.len() implies goes_before(
                (#[trigger] shorter[i]).key,
                (#[trigger] shorter[j]).key,
            ) by {
                assert(shorter[i] == entries[i] && shorter[j] == entries[j]);
            }
        }
        lemma_parse_entries_all(key_ty, value_ty, items.drop_last(), shorter, refusals);
        let last = entries.len() - 1;
        assert(entries.last() == entries[last]);
        let entry = entries.last();
        lemma_entry_index(shorter, entry.key);
        lemma_insert_index(shorter, entry.key);
        let found = entry_index(shorter, entry.key) as int;
        if found < shorter.len() {
            assert(shorter[found] == entries[found]);
            assert(goes_before(entries[found].key, entries[last].key));
            key_order_is_total(entries[last].key, entries[last].key, entries[last].key);
        }
        let at = insert_index(shorter, entry.key) as int;
        if at < shorter.len() {
            assert(shorter[at] == entries[at]);
            assert(goes_before(entries[at].key, entries[last].key));
            key_order_is_total(entries[at].key, entries[last].key, entries[last].key);
        }
        assert(map_insert(shorter, entry.key, entry.value) =~= entries);
    } else {
        assert(entries =~= Seq::<MapEntryModel>::empty());
    }
}

/// A token for a type converts to an object from which the same token is read. Left out
/// are tokens that hold an optional value that is there and looks like `None`.
pub proof fn round_trip(kind: KindModel, token: TokenModel, refusals: Seq<RefusalModel>)
    requires
        valid_kind(kind),
        well_typed(kind, token, refusals),
        reads_back(token),
    ensures
        convert_model(token) matches Ok(value) && parse_model(kind, value, refusals) == Ok::<
            TokenModel,
            ErrorModel,
        >(token),
    decreases kind, 0nat,
{
    match (kind, token) {
        (KindModel::Tuple(params), TokenModel::Tuple(tokens)) => {
            round_trip_named(params, tokens, refusals);
        },
        (KindModel::Array(ty), TokenModel::Array(_, tokens)) => {
            round_trip_list(*ty, tokens, refusals);
        },
        (KindModel::FixedArray(ty, len), TokenModel::FixedArray(_, tokens)) => {
            round_trip_list(*ty, tokens, refusals);
        },
        (KindModel::Mapping(key_ty, value_ty), TokenModel::Mapping(_, _, entries)) => {
            assert forall|i: int| 0 <= i < entries.len() implies convert_entry_model(
                #[trigger] entries[i],
            ) matches Ok(item) && parse_entry_model(*key_ty, *value_ty, item, refusals) == Ok::<
                MapEntryModel,
                ErrorModel,
            >(entries[i]) by {
                assert(key_typed(*key_ty, entries[i].key));
                round_trip(*value_ty, entries[i].value, refusals);
                let key = convert_key_model(entries[i].key)->Ok_0;
                assert(parse_key_model(*key_ty, key) == Ok::<MapKeyModel, ErrorModel>(
                    entries[i].key,
                ));
            }
            lemma_convert_entries_all(entries);
            let items = convert_entries_model(entries)->Ok_0;
            lemma_parse_entries_all(*key_ty, *value_ty, items, entries, refusals);
        },
        (KindModel::PublicKey, TokenModel::PublicKey(key)) => {
            if let Some(bytes) = key {
                key_text_round_trip(bytes);
            }
        },
        (KindModel::Optional(ty), TokenModel::Optional(_, inner)) => {
            if let Some(value) = inner {
                round_trip(*ty, *value, refusals);
            }
        },
        (KindModel::Ref(ty), TokenModel::Ref(inner)) => {
            round_trip(*ty, *inner, refusals);
        },
        _ => {},
    }
}

proof fn round_trip_list(ty: KindModel, tokens: Seq<TokenModel>, refusals: Seq<RefusalModel>)
    requires
        valid_kind(ty),
        forall|i: int| 0 <= i < tokens.len() ==> well_typed(ty, #[trigger] tokens[i], refusals),
        forall|i: int| 0 <= i < tokens.len() ==> reads_back(#[trigger] tokens[i]),
    ensures
        convert_list_model(tokens) matches Ok(values) && values.len() == tokens.len()
            && parse_list_model(ty, values, refusals) == Ok::<Seq<TokenModel>, ErrorModel>(tokens),
    decreases ty, 1nat,
{
    assert forall|i: int| 0 <= i < tokens.len() implies convert_model(
        #[trigger] tokens[i],
    ) matches Ok(value) && parse_model(ty, value, refusals) == Ok::<TokenModel, ErrorModel>(
        tokens[i],
    ) by {
        round_trip(ty, tokens[i], refusals);
    }
    lemma_convert_list_all(tokens);
    let values = convert_list_model(tokens)->Ok_0;
    lemma_parse_list_all(ty, values, tokens, refusals);
}

/// The tokens for parameters convert to a dictionary from which the same tokens are
/// read. Left out are tokens that hold an optional value that is there and looks like
/// `None`.
pub proof fn round_trip_named(
    params: Seq<ParamModel>,
    tokens: Seq<NamedTokenModel>,
    refusals: Seq<RefusalModel>,
)
    requires
        valid_params(params),
        well_typed_named(params, tokens, refusals),
        reads_back_named(tokens),
    ensures
        convert_named_model(tokens) matches Ok(items) && parse_params_model(
            params,
            items,
            refusals,
        ) == Ok::<Seq<NamedTokenModel>, ErrorModel>(tokens),
    decreases params, 0nat,
{
    assert forall|i: int| 0 <= i < tokens.len() implies convert_model(
        (#[trigger] tokens[i]).value,
    ) matches Ok(value) && parse_model(params[i].kind, value, refusals) == Ok::<
        TokenModel,
        ErrorModel,
    >(tokens[i].value) by {
        assert(valid_kind(params[i].kind));
        round_trip(params[i].kind, tokens[i].value, refusals);
    }
    assert forall|i: int, j: int| 0 <= i < j < tokens.len() implies (#[trigger] tokens[i]).name
        != (#[trigger] tokens[j]).name by {
        assert(params[i].name != params[j].name);
    }
    lemma_convert_named_items(tokens);
    let items = convert_named_model(tokens)->Ok_0;
    assert forall|i: int| #![trigger tokens[i]] 0 <= i < tokens.len() implies {
        &&& tokens[i].name == params[i].name
        &&& dict_get(items, params[i].name) matches Some(value) && parse_model(
            params[i].kind,
            value,
            refusals,
        ) == Ok::<TokenModel, ErrorModel>(tokens[i].value)
    } by {
        let name = params[i].name;
        lemma_key_index(items, name);
        let found = key_index(items, name) as int;
        assert(items[i].key == name);
        assert(found <= i);
        if found < i {
            assert(items[found].key == tokens[found].name);
            assert(tokens[found].name != tokens[i].name);
        }
    }
    lemma_parse_params_all(params, items, tokens, refusals);
}

/// What is read from an object converts, and from the object that it converts to the
/// same token is read again.
pub proof fn parsed_reads_again(kind: KindModel, value: ValueModel, refusals: Seq<RefusalModel>)
    requires
        valid_kind(kind),
        parse_model(kind, value, refusals) is Ok,
    ensures
        ({
            let token = parse_model(kind, value, refusals)->Ok_0;
            convert_model(token) matches Ok(again) && parse_model(kind, again, refusals) == Ok::<
                TokenModel,
                ErrorModel,
            >(token)
        }),
{
    parsed_is_well_typed(kind, value, refusals);
    round_trip(kind, parse_model(kind, value, refusals)->Ok_0, refusals);
}

/// What is read from a dictionary for parameters converts, and from the dictionary that
/// it converts to the same tokens are read again.
pub proof fn parsed_params_read_again(
    params: Seq<ParamModel>,
    items: Seq<ItemModel>,
    refusals: Seq<RefusalModel>,
)
    requires
        valid_params(params),
        parse_params_model(params, items, refusals) is Ok,
    ensures
        ({
            let tokens = parse_params_model(params, items, refusals)->Ok_0;
            convert_named_model(tokens) matches Ok(again) && parse_params_model(
                params,
                again,
                refusals,
            ) == Ok::<Seq<NamedTokenModel>, ErrorModel>(tokens)
        }),
{
    parsed_params_are_well_typed(params, items, refusals);
    round_trip_named(params, parse_params_model(params, items, refusals)->Ok_0, refusals);
}

} // verus!
