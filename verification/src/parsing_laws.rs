//! What holds of reading Python objects, whatever the objects are.

use crate::error::{ErrorModel, ReasonModel};
use crate::param::{KindModel, ParamModel};
use crate::parse::{
    parse_entries_model, parse_entry_model, parse_list_model, parse_model, parse_params_model,
    RefusalModel,
};
use crate::token::{
    equal_dictionaries_are_one, in_order, lemma_insert_in_order, map_get, map_get_after_insert,
    MapEntryModel, MapKeyModel, NamedTokenModel, TokenModel,
};
use crate::value::{dict_get, ItemModel, ValueModel};
use vstd::prelude::*;

verus! {

/// What a dictionary gives for one parameter.
pub open spec fn param_outcome(
    param: ParamModel,
    items: Seq<ItemModel>,
    refusals: Seq<RefusalModel>,
) -> Result<TokenModel, ErrorModel> {
    match dict_get(items, param.name) {
        Some(value) => parse_model(param.kind, value, refusals),
        None => Err(ErrorModel::Runtime(ReasonModel::ParamNotFound(param.name))),
    }
}

/// Parameters are read exactly if each of them is, and then each token stands in the place
/// of its parameter and under its name; otherwise the first parameter that is not read
/// says why.
pub proof fn params_are_read_each(
    params: Seq<ParamModel>,
    items: Seq<ItemModel>,
    refusals: Seq<RefusalModel>,
    first: int,
)
    requires
        0 <= first <= params.len(),
        forall|i: int|
            0 <= i < first ==> param_outcome(#[trigger] params[i], items, refusals) is Ok,
        first < params.len() ==> param_outcome(params[first], items, refusals) is Err,
    ensures
        match parse_params_model(params, items, refusals) {
            Ok(tokens) => first == params.len() && tokens == Seq::new(
                params.len(),
                |i: int|
                    NamedTokenModel {
                        name: params[i].name,
                        value: param_outcome(params[i], items, refusals)->Ok_0,
                    },
            ),
            Err(e) => first < params.len() && param_outcome(params[first], items, refusals)
                == Err::<TokenModel, ErrorModel>(e),
        },
    decreases params.len(),
{
    if params.len() > 0 {
        let shorter = params.drop_last();
        let cut = if first < shorter.len() { first } else { shorter.len() as int };
        assert forall|i: int| 0 <= i < cut implies param_outcome(
            #[trigger] shorter[i],
            items,
            refusals,
        ) is Ok by {
            assert(shorter[i] == params[i]);
        }
        if cut < shorter.len() {
            assert(shorter[cut] == params[first]);
        }
        params_are_read_each(shorter, items, refusals, cut);
        assert(params.last() == params[params.len() - 1]);
        if first == params.len() {
            assert(param_outcome(params[params.len() - 1], items, refusals) is Ok);
            assert(parse_params_model(params, items, refusals)->Ok_0 =~= Seq::new(
                params.len(),
                |i: int|
                    NamedTokenModel {
                        name: params[i].name,
                        value: param_outcome(params[i], items, refusals)->Ok_0,
                    },
            ));
        }
    }
}

/// Only the items that parameters name are read: dictionaries that agree on those give the
/// same tokens or the same exception.
pub proof fn only_named_items_are_read(
    params: Seq<ParamModel>,
    items: Seq<ItemModel>,
    others: Seq<ItemModel>,
    refusals: Seq<RefusalModel>,
)
    requires
        forall|i: int|
            0 <= i < params.len() ==> dict_get(items, (#[trigger] params[i]).name) == dict_get(
                others,
                params[i].name,
            ),
    ensures
        parse_params_model(params, items, refusals) == parse_params_model(params, others, refusals),
    decreases params.len(),
{
    if params.len() > 0 {
        let shorter = params.drop_last();
        assert forall|i: int| 0 <= i < shorter.len() implies dict_get(
            items,
            (#[trigger] shorter[i]).name,
        ) == dict_get(others, shorter[i].name) by {
            assert(shorter[i] == params[i]);
        }
        only_named_items_are_read(shorter, items, others, refusals);
        assert(params.last() == params[params.len() - 1]);
    }
}

/// The objects of a list are read exactly if each of them is, and then each token stands in
/// the place of its object; otherwise the first object that is not read says why.
pub proof fn lists_are_read_each(
    ty: KindModel,
    values: Seq<ValueModel>,
    refusals: Seq<RefusalModel>,
    first: int,
)
    requires
        0 <= first <= values.len(),
        forall|i: int| 0 <= i < first ==> parse_model(ty, #[trigger] values[i], refusals) is Ok,
        first < values.len() ==> parse_model(ty, values[first], refusals) is Err,
    ensures
        match parse_list_model(ty, values, refusals) {
            Ok(tokens) => first == values.len() && tokens == Seq::new(
                values.len(),
                |i: int| parse_model(ty, values[i], refusals)->Ok_0,
            ),
            Err(e) => first < values.len() && parse_model(ty, values[first], refusals) == Err::<
                TokenModel,
                ErrorModel,
            >(e),
        },
    decreases values.len(),
{
    if values.len() > 0 {
        let shorter = values.drop_last();
        let cut = if first < shorter.len() { first } else { shorter.len() as int };
        assert forall|i: int| 0 <= i < cut implies parse_model(
            ty,
            #[trigger] shorter[i],
            refusals,
        ) is Ok by {
            assert(shorter[i] == values[i]);
        }
        if cut < shorter.len() {
            assert(shorter[cut] == values[first]);
        }
        lists_are_read_each(ty, shorter, refusals, cut);
        assert(values.last() == values[values.len() - 1]);
        if first == values.len() {
            assert(parse_model(ty, values[values.len() - 1], refusals) is Ok);
            assert(parse_list_model(ty, values, refusals)->Ok_0 =~= Seq::new(
                values.len(),
                |i: int| parse_model(ty, values[i], refusals)->Ok_0,
            ));
        }
    }
}

/// The objects of a list are read as entries exactly if each of them is; otherwise the
/// first object that is not read says why.
pub proof fn entries_are_read_each(
    key_ty: KindModel,
    value_ty: KindModel,
    items: Seq<ValueModel>,
    refusals: Seq<RefusalModel>,
    first: int,
)
    requires
        0 <= first <= items.len(),
        forall|i: int|
            0 <= i < first ==> parse_entry_model(
                key_ty,
                value_ty,
                #[trigger] items[i],
                refusals,
            ) is Ok,
        first < items.len() ==> parse_entry_model(
            key_ty,
            value_ty,
            items[first],
            refusals,
        ) is Err,
    ensures
        match parse_entries_model(key_ty, value_ty, items, refusals) {
            Ok(_) => first == items.len(),
            Err(e) => first < items.len() && parse_entry_model(
                key_ty,
                value_ty,
                items[first],
                refusals,
            ) == Err::<MapEntryModel, ErrorModel>(e),
        },
    decreases items.len(),
{
    if items.len() > 0 {
        let shorter = items.drop_last();
        let cut = if first < shorter.len() { first } else { shorter.len() as int };
        assert forall|i: int| 0 <= i < cut implies parse_entry_model(
            key_ty,
            value_ty,
            #[trigger] shorter[i],
            refusals,
        ) is Ok by {
            assert(shorter[i] == items[i]);
        }
        if cut < shorter.len() {
            assert(shorter[cut] == items[first]);
        }
        entries_are_read_each(key_ty, value_ty, shorter, refusals, cut);
        assert(items.last() == items[items.len() - 1]);
        if first == items.len() {
            assert(parse_entry_model(key_ty, value_ty, items[items.len() - 1], refusals) is Ok);
        }
    }
}

/// Where entries are read, each object is.
pub(crate) proof fn lemma_entries_read(
    key_ty: KindModel,
    value_ty: KindModel,
    items: Seq<ValueModel>,
    refusals: Seq<RefusalModel>,
    i: int,
)
    requires
        parse_entries_model(key_ty, value_ty, items, refusals) is Ok,
        0 <= i < items.len(),
    ensures
        parse_entry_model(key_ty, value_ty, items[i], refusals) is Ok,
    decreases items.len(),
{
    if i < items.len() - 1 {
        lemma_entries_read(key_ty, value_ty, items.drop_last(), refusals, i);
    }
}

/// Whether an object of a list gives an entry with a key.
pub open spec fn gives_key(
    key_ty: KindModel,
    value_ty: KindModel,
    item: ValueModel,
    refusals: Seq<RefusalModel>,
    key: MapKeyModel,
) -> bool {
    parse_entry_model(key_ty, value_ty, item, refusals) matches Ok(entry) && entry.key == key
}

/// The dictionary that is read from a list is in order, and it holds under each key the
/// value of the last object that gives an entry with that key, and nothing else.
pub proof fn last_entry_is_kept(
    key_ty: KindModel,
    value_ty: KindModel,
    items: Seq<ValueModel>,
    refusals: Seq<RefusalModel>,
    key: MapKeyModel,
    last: int,
)
    requires
        parse_entries_model(key_ty, value_ty, items, refusals) is Ok,
        -1 <= last < items.len(),
        last >= 0 ==> gives_key(key_ty, value_ty, items[last], refusals, key),
        forall|i: int|
            last < i < items.len() ==> !gives_key(
                key_ty,
                value_ty,
                #[trigger] items[i],
                refusals,
                key,
            ),
    ensures
        in_order(parse_entries_model(key_ty, value_ty, items, refusals)->Ok_0),
        map_get(parse_entries_model(key_ty, value_ty, items, refusals)->Ok_0, key) == (if last
            < 0 {
            None
        } else {
            Some(parse_entry_model(key_ty, value_ty, items[last], refusals)->Ok_0.value)
        }),
    decreases items.len(),
{
    if items.len() > 0 {
        let shorter = items.drop_last();
        let before = parse_entries_model(key_ty, value_ty, shorter, refusals)->Ok_0;
        let entry = parse_entry_model(key_ty, value_ty, items.last(), refusals)->Ok_0;
        let end = items.len() - 1;
        assert(items.last() == items[end]);
        let earlier = if last < end { last } else { last_giver(
            key_ty,
            value_ty,
            shorter,
            refusals,
            key,
        ) };
        if last == end {
            lemma_last_giver(key_ty, value_ty, shorter, refusals, key);
        } else {
            assert forall|i: int| earlier < i < shorter.len() implies !gives_key(
                key_ty,
                value_ty,
                #[trigger] shorter[i],
                refusals,
                key,
            ) by {
                assert(shorter[i] == items[i]);
            }
            if earlier >= 0 {
                assert(shorter[earlier] == items[earlier]);
            }
        }
        last_entry_is_kept(key_ty, value_ty, shorter, refusals, key, earlier);
        lemma_insert_in_order(before, entry.key, entry.value);
        map_get_after_insert(before, entry.key, entry.value, key);
        if last < end {
            assert(!gives_key(key_ty, value_ty, items[end], refusals, key));
        }
    } else {
        assert(parse_entries_model(key_ty, value_ty, items, refusals)->Ok_0 =~= Seq::<
            MapEntryModel,
        >::empty());
    }
}

/// No two objects of a list give entries with one key.
pub open spec fn distinct_entries(
    key_ty: KindModel,
    value_ty: KindModel,
    items: Seq<ValueModel>,
    refusals: Seq<RefusalModel>,
) -> bool {
    forall|i: int, j: int, key: MapKeyModel|
        0 <= i < items.len() && 0 <= j < items.len() && #[trigger] gives_key(
            key_ty,
            value_ty,
            items[i],
            refusals,
            key,
        ) && #[trigger] gives_key(key_ty, value_ty, items[j], refusals, key) ==> i == j
}

/// Lists of the same entries give the same dictionary, in whatever order the entries stand.
pub proof fn order_of_entries_does_not_matter(
    key_ty: KindModel,
    value_ty: KindModel,
    items: Seq<ValueModel>,
    others: Seq<ValueModel>,
    refusals: Seq<RefusalModel>,
)
    requires
        parse_entries_model(key_ty, value_ty, items, refusals) is Ok,
        distinct_entries(key_ty, value_ty, items, refusals),
        forall|i: int| 0 <= i < items.len() ==> others.contains(#[trigger] items[i]),
        forall|i: int| 0 <= i < others.len() ==> items.contains(#[trigger] others[i]),
    ensures
        parse_entries_model(key_ty, value_ty, others, refusals) == parse_entries_model(
            key_ty,
            value_ty,
            items,
            refusals,
        ),
{
    assert forall|i: int| 0 <= i < others.len() implies parse_entry_model(
        key_ty,
        value_ty,
        #[trigger] others[i],
        refusals,
    ) is Ok by {
        assert(items.contains(others[i]));
        let k = choose|k: int| 0 <= k < items.len() && items[k] == others[i];
        lemma_entries_read(key_ty, value_ty, items, refusals, k);
    }
    entries_are_read_each(key_ty, value_ty, others, refusals, others.len() as int);
    let a = parse_entries_model(key_ty, value_ty, items, refusals)->Ok_0;
    let b = parse_entries_model(key_ty, value_ty, others, refusals)->Ok_0;
    assert forall|key: MapKeyModel| #[trigger] map_get(a, key) == map_get(b, key) by {
        let last = last_giver(key_ty, value_ty, items, refusals, key);
        let end = last_giver(key_ty, value_ty, others, refusals, key);
        lemma_last_giver(key_ty, value_ty, items, refusals, key);
        lemma_last_giver(key_ty, value_ty, others, refusals, key);
        last_entry_is_kept(key_ty, value_ty, items, refusals, key, last);
        last_entry_is_kept(key_ty, value_ty, others, refusals, key, end);
        if last >= 0 {
            assert(others.contains(items[last]));
            let k = choose|k: int| 0 <= k < others.len() && others[k] == items[last];
            assert(gives_key(key_ty, value_ty, others[k], refusals, key));
            assert(end >= 0);
        }
        if end >= 0 {
            assert(items.contains(others[end]));
            let k = choose|k: int| 0 <= k < items.len() && items[k] == others[end];
            assert(gives_key(key_ty, value_ty, items[k], refusals, key));
            assert(last >= 0);
            assert(gives_key(key_ty, value_ty, items[last], refusals, key));
            assert(k == last);
        }
    }
    let key = arbitrary::<MapKeyModel>();
    lemma_last_giver(key_ty, value_ty, items, refusals, key);
    lemma_last_giver(key_ty, value_ty, others, refusals, key);
    last_entry_is_kept(
        key_ty,
        value_ty,
        items,
        refusals,
        key,
        last_giver(key_ty, value_ty, items, refusals, key),
    );
    last_entry_is_kept(
        key_ty,
        value_ty,
        others,
        refusals,
        key,
        last_giver(key_ty, value_ty, others, refusals, key),
    );
    equal_dictionaries_are_one(a, b);
}

spec fn last_giver(
    key_ty: KindModel,
    value_ty: KindModel,
    items: Seq<ValueModel>,
    refusals: Seq<RefusalModel>,
    key: MapKeyModel,
) -> int
    decreases items.len(),
{
    if items.len() == 0 {
        -1
    } else if gives_key(key_ty, value_ty, items.last(), refusals, key) {
        items.len() - 1
    } else {
        last_giver(key_ty, value_ty, items.drop_last(), refusals, key)
    }
}

proof fn lemma_last_giver(
    key_ty: KindModel,
    value_ty: KindModel,
    items: Seq<ValueModel>,
    refusals: Seq<RefusalModel>,
    key: MapKeyModel,
)
    ensures
        ({
            let last = last_giver(key_ty, value_ty, items, refusals, key);
            &&& -1 <= last < items.len()
            &&& last >= 0 ==> gives_key(key_ty, value_ty, items[last], refusals, key)
            &&& forall|i: int|
                last < i < items.len() ==> !gives_key(
                    key_ty,
                    value_ty,
                    #[trigger] items[i],
                    refusals,
                    key,
                )
        }),
    decreases items.len(),
{
    if items.len() > 0 {
        let shorter = items.drop_last();
        lemma_last_giver(key_ty, value_ty, shorter, refusals, key);
        let last = last_giver(key_ty, value_ty, items, refusals, key);
        if last >= 0 && last < shorter.len() {
            assert(shorter[last] == items[last]);
        }
        assert forall|i: int| last < i < items.len() implies !gives_key(
            key_ty,
            value_ty,
            #[trigger] items[i],
            refusals,
            key,
        ) by {
            if i < shorter.len() {
                assert(shorter[i] == items[i]);
            }
        }
    }
}

} // verus!
