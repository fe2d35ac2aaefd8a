//! What initial data is made of, and what is read from it.

use crate::convert::convert_named_model;
use crate::error::{ErrorModel, ReasonModel};
use crate::giving_laws::{given_back_is_dictionary, is_dictionary_of};
use crate::init_data::{
    init_data_model, init_key_model, kept_under, plan_items_model, plan_start_model, set_all,
    DataItemModel, InitValueModel, InitWriteModel, KeyEntry,
};
use crate::keys::{is_public_key, key_error_text};
use crate::parse::{parse_model, RefusalModel};
use crate::token::{NamedTokenModel, TokenModel};
use crate::value::{dict_get, ItemModel};
use crate::version::AbiVersion;
use vstd::prelude::*;

verus! {

/// Whether the object of an item is there and is read for its type.
pub open spec fn item_is_read(
    item: DataItemModel,
    data: Seq<ItemModel>,
    refusals: Seq<RefusalModel>,
) -> bool {
    dict_get(data, item.name) matches Some(value) && parse_model(item.kind, value, refusals) is Ok
}

/// A plan begins with the data that exists, packs for the version that was asked for, sets
/// the public key under zero where one was given, and then sets for each item, in order, the
/// token that is read for it under its key. It stops at the first item that is not there or
/// not read, and ends in the exception that says so.
pub proof fn plan_sets_the_key_and_each_item(
    abi_version: AbiVersion,
    public_key: Option<Seq<u8>>,
    existing: Option<Result<Seq<u8>, Seq<char>>>,
    items: Seq<DataItemModel>,
    data: Seq<ItemModel>,
    refusals: Seq<RefusalModel>,
    first: int,
)
    requires
        0 <= first <= items.len(),
        forall|i: int| 0 <= i < first ==> item_is_read(#[trigger] items[i], data, refusals),
        first < items.len() ==> !item_is_read(items[first], data, refusals),
    ensures
        ({
            let plan = plan_items_model(
                plan_start_model(abi_version, public_key, existing),
                items,
                data,
                refusals,
            );
            let shift: int = if public_key is Some { 1 } else { 0 };
            &&& plan.abi_version == abi_version
            &&& plan.root == (match existing {
                Some(Ok(cell)) => Some(cell),
                _ => None,
            })
            &&& plan.writes.len() == shift + first
            &&& public_key matches Some(key) ==> plan.writes[0].key == 0 && plan.writes[0].value
                == InitValueModel::PublicKey(key)
            &&& forall|i: int|
                #![trigger items[i]]
                0 <= i < first ==> {
                    &&& plan.writes[shift + i].key == items[i].key
                    &&& plan.writes[shift + i].value matches InitValueModel::Token(token)
                    &&& parse_model(items[i].kind, dict_get(data, items[i].name)->0, refusals)
                        == Ok::<TokenModel, ErrorModel>(token)
                }
            &&& plan.failure is None <==> first == items.len()
            &&& plan.failure matches Some(e) ==> (match dict_get(data, items[first].name) {
                None => e == ErrorModel::Value(ReasonModel::ParamNotFound(items[first].name)),
                Some(value) => parse_model(items[first].kind, value, refusals) == Err::<
                    TokenModel,
                    ErrorModel,
                >(e),
            })
        }),
    decreases items.len(),
{
    if items.len() > 0 {
        let shorter = items.drop_last();
        let cut = if first < shorter.len() { first } else { shorter.len() as int };
        assert forall|i: int| 0 <= i < cut implies item_is_read(
            #[trigger] shorter[i],
            data,
            refusals,
        ) by {
            assert(shorter[i] == items[i]);
        }
        if cut < shorter.len() {
            assert(shorter[cut] == items[first]);
        }
        plan_sets_the_key_and_each_item(
            abi_version,
            public_key,
            existing,
            shorter,
            data,
            refusals,
            cut,
        );
        let start = plan_start_model(abi_version, public_key, existing);
        let before = plan_items_model(start, shorter, data, refusals);
        let plan = plan_items_model(start, items, data, refusals);
        let shift: int = if public_key is Some { 1 } else { 0 };
        let end = items.len() - 1;
        assert(items.last() == items[end]);
        if first == items.len() {
            assert(item_is_read(items[end], data, refusals));
        }
        assert forall|i: int| #![trigger items[i]] 0 <= i < first implies {
            &&& plan.writes[shift + i].key == items[i].key
            &&& plan.writes[shift + i].value matches InitValueModel::Token(token)
            &&& parse_model(items[i].kind, dict_get(data, items[i].name)->0, refusals) == Ok::<
                TokenModel,
                ErrorModel,
            >(token)
        } by {
            if i < cut {
                assert(shorter[i] == items[i]);
                assert(plan.writes[shift + i] == before.writes[shift + i]);
            }
        }
    }
}

/// Under a key there is kept the value that was set last under it, and nothing where none
/// was set.
pub proof fn last_value_is_kept(writes: Seq<InitWriteModel>, key: u64, last: int)
    requires
        -1 <= last < writes.len(),
        last >= 0 ==> writes[last].key == key,
        forall|i: int| last < i < writes.len() ==> (#[trigger] writes[i]).key != key,
    ensures
        kept_under(writes, key) == (if last >= 0 {
            Some(writes[last].value)
        } else {
            None
        }),
    decreases writes.len(),
{
    if writes.len() > 0 {
        let shorter = writes.drop_last();
        let end = writes.len() - 1;
        if last < end {
            assert(writes[end].key != key);
            assert forall|i: int| last < i < shorter.len() implies (#[trigger] shorter[i]).key
                != key by {
                assert(shorter[i] == writes[i]);
            }
            if last >= 0 {
                assert(shorter[last] == writes[last]);
            }
            last_value_is_kept(shorter, key, last);
        }
    }
}

/// Setting values leaves what is held under other keys, and holds under each key the value
/// that was set last.
pub proof fn set_values_are_held(
    held: Map<u64, InitValueModel>,
    writes: Seq<InitWriteModel>,
    key: u64,
    last: int,
)
    requires
        -1 <= last < writes.len(),
        last >= 0 ==> writes[last].key == key,
        forall|i: int| last < i < writes.len() ==> (#[trigger] writes[i]).key != key,
    ensures
        last >= 0 ==> set_all(held, writes).contains_key(key) && set_all(held, writes)[key]
            == writes[last].value,
        last < 0 ==> set_all(held, writes).contains_key(key) == held.contains_key(key) && (
        held.contains_key(key) ==> set_all(held, writes)[key] == held[key]),
    decreases writes.len(),
{
    if writes.len() > 0 {
        let shorter = writes.drop_last();
        let end = writes.len() - 1;
        if last < end {
            assert(writes[end].key != key);
            assert forall|i: int| last < i < shorter.len() implies (#[trigger] shorter[i]).key
                != key by {
                assert(shorter[i] == writes[i]);
            }
            if last >= 0 {
                assert(shorter[last] == writes[last]);
            }
            set_values_are_held(held, shorter, key, last);
        }
    }
}

/// Whether bytes are zeros alone.
pub open spec fn zeros(bytes: Seq<u8>) -> bool {
    bytes =~= Seq::new(bytes.len(), |i: int| 0u8)
}

/// The public key is the one that was found. There is none where nothing was found or where
/// zeros alone were; bytes that are no key, and either step of the lookup that fails, are a
/// `ValueError`.
pub proof fn found_key_is_read(bytes: [u8; 32], words: String, entry: KeyEntry)
    ensures
        entry == KeyEntry::Ok(None) ==> init_key_model(entry) == Ok::<
            Option<Seq<u8>>,
            ErrorModel,
        >(None),
        entry == KeyEntry::Err(words) ==> init_key_model(entry) == Err::<
            Option<Seq<u8>>,
            ErrorModel,
        >(ErrorModel::Value(ReasonModel::Reported(words@))),
        entry == KeyEntry::Ok(Some(Err(words))) ==> init_key_model(entry) == Err::<
            Option<Seq<u8>>,
            ErrorModel,
        >(ErrorModel::Value(ReasonModel::Reported(words@))),
        entry == KeyEntry::Ok(Some(Ok(bytes))) ==> {
            &&& zeros(bytes@) ==> init_key_model(entry) == Ok::<Option<Seq<u8>>, ErrorModel>(None)
            &&& !zeros(bytes@) && is_public_key(bytes@) ==> init_key_model(entry) == Ok::<
                Option<Seq<u8>>,
                ErrorModel,
            >(Some(bytes@))
            &&& !zeros(bytes@) && !is_public_key(bytes@) ==> init_key_model(entry) == Err::<
                Option<Seq<u8>>,
                ErrorModel,
            >(ErrorModel::Value(ReasonModel::Reported(key_error_text(bytes@))))
        },
{
}

/// Initial data that is read holds the key that was found and the dictionary for the tokens
/// that came back. The key decides first; tokens that do not come back are a `ValueError`.
pub proof fn init_data_holds_what_was_found(
    entry: KeyEntry,
    tokens: Result<Seq<NamedTokenModel>, Seq<char>>,
)
    ensures
        match init_data_model(entry, tokens) {
            Ok(data) => {
                &&& init_key_model(entry) == Ok::<Option<Seq<u8>>, ErrorModel>(data.public_key)
                &&& tokens matches Ok(found)
                &&& is_dictionary_of(data.values, found)
            },
            Err(e) => match init_key_model(entry) {
                Err(first) => e == first,
                Ok(_) => match tokens {
                    Err(words) => e == ErrorModel::Value(ReasonModel::Reported(words)),
                    Ok(found) => convert_named_model(found) == Err::<Seq<ItemModel>, ErrorModel>(e),
                },
            },
        },
{
    if let Ok(found) = tokens {
        given_back_is_dictionary(found);
    }
}

} // verus!
