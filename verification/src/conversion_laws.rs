//! What holds of giving tokens back as Python objects, whatever the tokens are.

use crate::convert::{
    convert_entries_model, convert_entry_model, convert_list_model, convert_model,
    convert_named_model,
};
use crate::error::{ErrorModel, ReasonModel};
use crate::ledger::account_address;
use crate::param::KindModel;
use crate::round_trip::key_typed;
use crate::token::{
    goes_before, in_order, MapEntryModel, MapKeyModel, NamedTokenModel, TokenModel,
};
use crate::value::{as_integer, dict_get, dict_get_after_set, distinct_keys, ValueModel};
use vstd::prelude::*;

verus! {

/// The exception for an address that is not of an account.
pub open spec fn address_error() -> ErrorModel {
    ErrorModel::Runtime(ReasonModel::AddressType)
}

/// Whether every address in a token is of an account, at any depth and in keys.
pub open spec fn only_accounts(token: TokenModel) -> bool
    decreases token,
{
    match token {
        TokenModel::Tuple(tokens) => only_accounts_named(tokens),
        TokenModel::Array(_, tokens) => only_accounts_list(tokens),
        TokenModel::FixedArray(_, tokens) => only_accounts_list(tokens),
        TokenModel::Mapping(_, _, entries) => only_accounts_entries(entries),
        TokenModel::Address(address) => account_address(address) is Some,
        TokenModel::Optional(_, inner) => inner matches Some(value) ==> only_accounts(*value),
        TokenModel::Ref(inner) => only_accounts(*inner),
        _ => true,
    }
}

/// [`only_accounts`] of each of a sequence of tokens.
pub open spec fn only_accounts_list(tokens: Seq<TokenModel>) -> bool
    decreases tokens,
{
    forall|i: int| 0 <= i < tokens.len() ==> only_accounts(#[trigger] tokens[i])
}

/// [`only_accounts`] of each of a sequence of named tokens.
pub open spec fn only_accounts_named(tokens: Seq<NamedTokenModel>) -> bool
    decreases tokens,
{
    forall|i: int| 0 <= i < tokens.len() ==> only_accounts((#[trigger] tokens[i]).value)
}

/// [`only_accounts`] of the key and the value of each of a sequence of entries.
pub open spec fn only_accounts_entries(entries: Seq<MapEntryModel>) -> bool
    decreases entries,
{
    &&& forall|i: int|
        0 <= i < entries.len() ==> ((#[trigger] entries[i]).key matches MapKeyModel::Address(address)
            ==> account_address(address) is Some)
    &&& forall|i: int| 0 <= i < entries.len() ==> only_accounts((#[trigger] entries[i]).value)
}

/// A token is given back exactly if every address that it holds is of an account, and
/// otherwise there is no other exception than the one that says so.
pub proof fn only_addresses_fail(token: TokenModel)
    ensures
        match convert_model(token) {
            Ok(_) => only_accounts(token),
            Err(e) => !only_accounts(token) && e == address_error(),
        },
    decreases token, 0nat,
{
    match token {
        TokenModel::Tuple(tokens) => only_addresses_fail_named(tokens),
        TokenModel::Array(_, tokens) => only_addresses_fail_list(tokens),
        TokenModel::FixedArray(_, tokens) => only_addresses_fail_list(tokens),
        TokenModel::Mapping(_, _, entries) => only_addresses_fail_entries(entries),
        TokenModel::Optional(_, Some(inner)) => only_addresses_fail(*inner),
        TokenModel::Ref(inner) => only_addresses_fail(*inner),
        _ => {},
    }
}

proof fn only_addresses_fail_list(tokens: Seq<TokenModel>)
    ensures
        match convert_list_model(tokens) {
            Ok(_) => only_accounts_list(tokens),
            Err(e) => !only_accounts_list(tokens) && e == address_error(),
        },
    decreases tokens, 0nat,
{
    if tokens.len() > 0 {
        let shorter = tokens.drop_last();
        only_addresses_fail_list(shorter);
        only_addresses_fail(tokens.last());
        assert(tokens.last() == tokens[tokens.len() - 1]);
        assert(forall|i: int| 0 <= i < shorter.len() ==> shorter[i] == #[trigger] tokens[i]);
        if only_accounts_list(tokens) {
            assert(only_accounts_list(shorter));
        }
    }
}

/// Named tokens are given back exactly if every address that they hold is of an account,
/// and otherwise there is no other exception than the one that says so.
pub proof fn only_addresses_fail_named(tokens: Seq<NamedTokenModel>)
    ensures
        match convert_named_model(tokens) {
            Ok(_) => only_accounts_named(tokens),
            Err(e) => !only_accounts_named(tokens) && e == address_error(),
        },
    decreases tokens, 0nat,
{
    if tokens.len() > 0 {
        let shorter = tokens.drop_last();
        only_addresses_fail_named(shorter);
        only_addresses_fail(tokens.last().value);
        assert(tokens.last() == tokens[tokens.len() - 1]);
        assert(forall|i: int| 0 <= i < shorter.len() ==> shorter[i] == #[trigger] tokens[i]);
        if only_accounts_named(tokens) {
            assert(only_accounts_named(shorter));
        }
    }
}

proof fn only_addresses_fail_entries(entries: Seq<MapEntryModel>)
    ensures
        match convert_entries_model(entries) {
            Ok(_) => only_accounts_entries(entries),
            Err(e) => !only_accounts_entries(entries) && e == address_error(),
        },
    decreases entries, 0nat,
{
    if entries.len() > 0 {
        let shorter = entries.drop_last();
        only_addresses_fail_entries(shorter);
        only_addresses_fail(entries.last().value);
        assert(entries.last() == entries[entries.len() - 1]);
        assert(forall|i: int| 0 <= i < shorter.len() ==> shorter[i] == #[trigger] entries[i]);
        assert(convert_entry_model(entries.last()) matches Err(e) ==> e == address_error());
        if only_accounts_entries(entries) {
            assert(only_accounts_entries(shorter));
        }
    }
}

/// The integer that the object for an entry has in the place of its key.
pub open spec fn integer_key(item: ValueModel) -> Option<int> {
    match item {
        ValueModel::Tuple(elements) => if elements.len() > 0 {
            as_integer(elements[0])
        } else {
            None
        },
        _ => None,
    }
}

/// A dictionary in order whose keys are of one type of integers is given back as a list of
/// pairs whose keys strictly ascend.
pub proof fn integer_keys_ascend(key_ty: KindModel, entries: Seq<MapEntryModel>)
    requires
        in_order(entries),
        key_ty is Uint || key_ty is Int,
        forall|i: int| 0 <= i < entries.len() ==> key_typed(key_ty, (#[trigger] entries[i]).key),
    ensures
        convert_entries_model(entries) matches Ok(items) ==> {
            &&& items.len() == entries.len()
            &&& forall|i: int|
                0 <= i < items.len() ==> integer_key(#[trigger] items[i]) is Some
            &&& forall|i: int, j: int|
                0 <= i < j < items.len() ==> integer_key(#[trigger] items[i])->0 < integer_key(
                    #[trigger] items[j],
                )->0
        },
{
    lemma_entries_given_back(entries);
    if let Ok(items) = convert_entries_model(entries) {
        assert forall|i: int| 0 <= i < items.len() implies integer_key(
            #[trigger] items[i],
        ) == Some(key_number(entries[i].key)) by {
            assert(key_typed(key_ty, entries[i].key));
            assert(convert_entry_model(entries[i]) == Ok::<ValueModel, ErrorModel>(items[i]));
        }
        assert forall|i: int, j: int| 0 <= i < j < items.len() implies integer_key(
            #[trigger] items[i],
        )->0 < integer_key(#[trigger] items[j])->0 by {
            assert(key_typed(key_ty, entries[i].key) && key_typed(key_ty, entries[j].key));
            assert(goes_before(entries[i].key, entries[j].key));
        }
    }
}

spec fn key_number(key: MapKeyModel) -> int {
    match key {
        MapKeyModel::Uint(number, _) => number as int,
        MapKeyModel::Int(number, _) => number,
        MapKeyModel::Address(_) => 0,
    }
}

proof fn lemma_entries_given_back(entries: Seq<MapEntryModel>)
    ensures
        convert_entries_model(entries) matches Ok(items) ==> {
            &&& items.len() == entries.len()
            &&& forall|i: int|
                #![trigger items[i]]
                #![trigger entries[i]]
                0 <= i < items.len() ==> convert_entry_model(entries[i]) == Ok::<
                    ValueModel,
                    ErrorModel,
                >(items[i])
        },
    decreases entries.len(),
{
    if entries.len() > 0 {
        let shorter = entries.drop_last();
        lemma_entries_given_back(shorter);
        if let Ok(items) = convert_entries_model(entries) {
            let before = convert_entries_model(shorter)->Ok_0;
            assert forall|i: int|
                #![trigger items[i]]
                #![trigger entries[i]]
                0 <= i < items.len() implies convert_entry_model(entries[i]) == Ok::<
                ValueModel,
                ErrorModel,
            >(items[i]) by {
                if i < before.len() {
                    assert(items[i] == before[i]);
                    assert(shorter[i] == entries[i]);
                }
            }
        }
    }
}

/// The dictionary for named tokens has each name once, and holds under each the object for
/// the last token of that name, and nothing else.
pub proof fn last_token_is_kept(tokens: Seq<NamedTokenModel>, name: Seq<char>, last: int)
    requires
        convert_named_model(tokens) is Ok,
        -1 <= last < tokens.len(),
        last >= 0 ==> tokens[last].name == name,
        forall|i: int| last < i < tokens.len() ==> (#[trigger] tokens[i]).name != name,
    ensures
        distinct_keys(convert_named_model(tokens)->Ok_0),
        last >= 0 ==> convert_model(tokens[last].value) is Ok,
        dict_get(convert_named_model(tokens)->Ok_0, name) == (if last < 0 {
            None
        } else {
            Some(convert_model(tokens[last].value)->Ok_0)
        }),
    decreases tokens.len(),
{
    if tokens.len() > 0 {
        let shorter = tokens.drop_last();
        let end = tokens.len() - 1;
        let before = convert_named_model(shorter)->Ok_0;
        assert(tokens.last() == tokens[end]);
        if last < end {
            assert forall|i: int| last < i < shorter.len() implies (#[trigger] shorter[i]).name
                != name by {
                assert(shorter[i] == tokens[i]);
            }
            if last >= 0 {
                assert(shorter[last] == tokens[last]);
            }
            last_token_is_kept(shorter, name, last);
            assert(tokens[end].name != name);
        } else {
            lemma_names_are_distinct(shorter);
        }
        dict_get_after_set(before, tokens.last().name, convert_model(tokens.last().value)->Ok_0);
    }
}

proof fn lemma_names_are_distinct(tokens: Seq<NamedTokenModel>)
    requires
        convert_named_model(tokens) is Ok,
    ensures
        distinct_keys(convert_named_model(tokens)->Ok_0),
    decreases tokens.len(),
{
    if tokens.len() > 0 {
        lemma_names_are_distinct(tokens.drop_last());
        dict_get_after_set(
            convert_named_model(tokens.drop_last())->Ok_0,
            tokens.last().name,
            convert_model(tokens.last().value)->Ok_0,
        );
    }
}

} // verus!
