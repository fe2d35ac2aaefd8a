//! The initial data of a contract.

use crate::convert::{convert_named_model, convert_tokens};
use crate::decode::returned_tokens;
use crate::error::{
    handle_value_error, reported_value, AbiError, ErrorModel, Reason, ReasonModel,
};
use crate::headers::optional_key;
use crate::keys::{is_public_key, key_error_text, PublicKey};
use crate::ledger::Cell;
use crate::param::{kind_model, KindModel, Param};
use crate::parse::{parse_model, parse_token, refusals_model, Refusal, RefusalModel};
use crate::token::{NamedTokenModel, Token, TokenModel, TokenValue};
use crate::value::{dict_get, Dict, ItemModel};
use crate::version::AbiVersion;
use vstd::prelude::*;

verus! {

/// The key under which the public key is kept in initial data, and looked up.
pub const PUBLIC_KEY_SLOT: u64 = 0;

/// A value in the initial data of a contract: under which name it is given, and under
/// which key it is kept.
#[derive(Debug, PartialEq, Eq)]
pub struct DataItem {
    pub name: String,
    pub key: u64,
    pub value: Param,
}

/// [`DataItem`] over models.
pub struct DataItemModel {
    pub name: Seq<char>,
    pub key: u64,
    pub kind: KindModel,
}

impl View for DataItem {
    type V = DataItemModel;

    open spec fn view(&self) -> DataItemModel {
        DataItemModel { name: self.name@, key: self.key, kind: kind_model(self.value.kind) }
    }
}

/// The models of items, in order.
pub open spec fn data_items_model(items: Seq<DataItem>) -> Seq<DataItemModel> {
    Seq::new(items.len(), |i: int| items[i]@)
}

/// What is kept under a key.
#[derive(Debug, PartialEq, Eq)]
pub enum InitValue {
    /// The bytes of a public key.
    PublicKey(PublicKey),
    /// A value, to be packed.
    Token(TokenValue),
}

/// A value that is to be kept under a key.
#[derive(Debug, PartialEq, Eq)]
pub struct InitWrite {
    pub key: u64,
    pub value: InitValue,
}

/// [`InitValue`] over models.
pub enum InitValueModel {
    PublicKey(Seq<u8>),
    Token(TokenModel),
}

/// [`InitWrite`] over models.
pub struct InitWriteModel {
    pub key: u64,
    pub value: InitValueModel,
}

impl View for InitWrite {
    type V = InitWriteModel;

    open spec fn view(&self) -> InitWriteModel {
        InitWriteModel {
            key: self.key,
            value: match self.value {
                InitValue::PublicKey(key) => InitValueModel::PublicKey(key@),
                InitValue::Token(token) => InitValueModel::Token(token@),
            },
        }
    }
}

/// The models of writes, in order.
pub open spec fn writes_model(writes: Seq<InitWrite>) -> Seq<InitWriteModel> {
    Seq::new(writes.len(), |i: int| writes[i]@)
}

/// How initial data is made: the version of the ABI that values are packed for, the
/// dictionary to begin with, the values to set in it one after the other, and the exception
/// to end in once they are set, if there is one.
#[derive(Debug, PartialEq, Eq)]
pub struct InitPlan {
    pub abi_version: AbiVersion,
    pub root: Option<Cell>,
    pub writes: Vec<InitWrite>,
    pub failure: Option<AbiError>,
}

/// [`InitPlan`] over models.
pub struct InitPlanModel {
    pub abi_version: AbiVersion,
    pub root: Option<Seq<u8>>,
    pub writes: Seq<InitWriteModel>,
    pub failure: Option<ErrorModel>,
}

impl View for InitPlan {
    type V = InitPlanModel;

    open spec fn view(&self) -> InitPlanModel {
        InitPlanModel {
            abi_version: self.abi_version,
            root: match self.root {
                Some(cell) => Some(cell@),
                None => None,
            },
            writes: writes_model(self.writes@),
            failure: match self.failure {
                Some(e) => Some(e@),
                None => None,
            },
        }
    }
}

/// The token for an item, from the dictionary that it is given in.
pub open spec fn item_token_model(
    item: DataItemModel,
    data: Seq<ItemModel>,
    refusals: Seq<RefusalModel>,
) -> Result<TokenModel, ErrorModel> {
    match dict_get(data, item.name) {
        Some(value) => parse_model(item.kind, value, refusals),
        None => Err(ErrorModel::Value(ReasonModel::ParamNotFound(item.name))),
    }
}

/// A plan after one item more: an exception that it already ends in stays.
pub open spec fn plan_item_model(
    before: InitPlanModel,
    item: DataItemModel,
    data: Seq<ItemModel>,
    refusals: Seq<RefusalModel>,
) -> InitPlanModel {
    if before.failure is Some {
        before
    } else {
        match item_token_model(item, data, refusals) {
            Ok(token) => InitPlanModel {
                writes: before.writes.push(
                    InitWriteModel { key: item.key, value: InitValueModel::Token(token) },
                ),
                ..before
            },
            Err(e) => InitPlanModel { failure: Some(e), ..before },
        }
    }
}

/// A plan for items, in order.
pub open spec fn plan_items_model(
    start: InitPlanModel,
    items: Seq<DataItemModel>,
    data: Seq<ItemModel>,
    refusals: Seq<RefusalModel>,
) -> InitPlanModel
    decreases items.len(),
{
    if items.len() == 0 {
        start
    } else {
        plan_item_model(
            plan_items_model(start, items.drop_last(), data, refusals),
            items.last(),
            data,
            refusals,
        )
    }
}

/// The plan before any item: data that exists and refers to a dictionary is begun with,
/// and a public key is kept under [`PUBLIC_KEY_SLOT`].
pub open spec fn plan_start_model(
    abi_version: AbiVersion,
    public_key: Option<Seq<u8>>,
    existing: Option<Result<Seq<u8>, Seq<char>>>,
) -> InitPlanModel {
    InitPlanModel {
        abi_version,
        root: match existing {
            Some(Ok(cell)) => Some(cell),
            _ => None,
        },
        writes: match public_key {
            Some(key) => seq![
                InitWriteModel { key: PUBLIC_KEY_SLOT, value: InitValueModel::PublicKey(key) },
            ],
            None => Seq::empty(),
        },
        failure: None,
    }
}

/// What came back from reading the first reference of data that exists.
pub open spec fn existing_root(existing: Option<Result<Cell, String>>) -> Option<
    Result<Seq<u8>, Seq<char>>,
> {
    match existing {
        Some(Ok(cell)) => Some(Ok(cell@)),
        Some(Err(words)) => Some(Err(words@)),
        None => None,
    }
}

proof fn lemma_plan_failed(
    start: InitPlanModel,
    items: Seq<DataItemModel>,
    n: int,
    data: Seq<ItemModel>,
    refusals: Seq<RefusalModel>,
)
    requires
        0 <= n <= items.len(),
        plan_items_model(start, items.take(n), data, refusals).failure is Some,
    ensures
        plan_items_model(start, items, data, refusals) == plan_items_model(
            start,
            items.take(n),
            data,
            refusals,
        ),
    decreases items.len(),
{
    if n == items.len() {
        assert(items.take(n) =~= items);
    } else {
        assert(items.drop_last().take(n) =~= items.take(n));
        lemma_plan_failed(start, items.drop_last(), n, data, refusals);
    }
}

/// How initial data is made for items, from the dictionary that they are given in.
/// `existing` is what came back from reading the first reference of data that exists.
pub fn plan_init_data(
    abi_version: AbiVersion,
    items: &[DataItem],
    data: &Dict,
    public_key: Option<&PublicKey>,
    existing: Option<Result<Cell, String>>,
    refusals: &[Refusal],
) -> (plan: InitPlan)
    ensures
        plan@ == plan_items_model(
            plan_start_model(
                abi_version,
                optional_key(public_key),
                existing_root(existing),
            ),
            data_items_model(items@),
            data@,
            refusals_model(refusals@),
        ),
{
    let ghost start = plan_start_model(
        abi_version,
        optional_key(public_key),
        existing_root(existing),
    );
    let ghost model = data_items_model(items@);
    let ghost amounts = refusals_model(refusals@);
    let root: Option<Cell> = match existing {
        Some(Ok(cell)) => Some(cell),
        _ => None,
    };
    let mut writes: Vec<InitWrite> = Vec::new();
    match public_key {
        Some(key) => {
            writes.push(InitWrite {
                key: PUBLIC_KEY_SLOT,
                value: InitValue::PublicKey(key.clone()),
            });
        },
        None => {},
    }
    proof {
        assert(writes_model(writes@) =~= start.writes);
        assert(model.take(0) =~= Seq::<DataItemModel>::empty());
    }
    let ghost root_model = start.root;
    let mut i: usize = 0;
    while i < items.len()
        invariant
            i <= items@.len(),
            model == data_items_model(items@),
            amounts == refusals_model(refusals@),
            root_model == (match root {
                Some(cell) => Some(cell@),
                None => None,
            }),
            plan_items_model(start, model.take(i as int), data@, amounts) == (InitPlanModel {
                abi_version,
                root: root_model,
                writes: writes_model(writes@),
                failure: None,
            }),
            start == plan_start_model(
                abi_version,
                optional_key(public_key),
                existing_root(existing),
            ),
        decreases items@.len() - i,
    {
        let item: &DataItem = &items[i];
        proof {
            assert(model.take(i + 1).drop_last() =~= model.take(i as int));
            assert(model.take(i + 1).last() == item@);
        }
        let failure: AbiError = match data.get_item(item.name.as_str()) {
            Some(value) => match parse_token(&item.value.kind, value, refusals) {
                Ok(token) => {
                    let ghost before = writes@;
                    let write: InitWrite = InitWrite {
                        key: item.key,
                        value: InitValue::Token(token),
                    };
                    writes.push(write);
                    assert(writes_model(writes@) =~= writes_model(before).push(write@));
                    i = i + 1;
                    continue;
                },
                Err(e) => e,
            },
            None => AbiError::Value(Reason::ParamNotFound(item.name.clone())),
        };
        proof {
            lemma_plan_failed(start, model, i + 1, data@, amounts);
        }
        return InitPlan { abi_version, root, writes, failure: Some(failure) };
    }
    assert(model.take(i as int) =~= model);
    InitPlan { abi_version, root, writes, failure: None }
}

/// What is kept under a key after values were set: the last of those set under it.
pub open spec fn kept_under(writes: Seq<InitWriteModel>, key: u64) -> Option<InitValueModel>
    decreases writes.len(),
{
    if writes.len() == 0 {
        None
    } else if writes.last().key == key {
        Some(writes.last().value)
    } else {
        kept_under(writes.drop_last(), key)
    }
}

/// Where a plan ends in no exception, there is kept under a key the token of the last item
/// with that key, to be packed for the version that is asked for; where no item has it, the
/// public key is kept under [`PUBLIC_KEY_SLOT`], and nothing under any other key.
pub proof fn planned_data_is_kept(
    abi_version: AbiVersion,
    public_key: Option<Seq<u8>>,
    existing: Option<Result<Seq<u8>, Seq<char>>>,
    items: Seq<DataItemModel>,
    data: Seq<ItemModel>,
    refusals: Seq<RefusalModel>,
    key: u64,
    last: int,
)
    requires
        plan_items_model(
            plan_start_model(abi_version, public_key, existing),
            items,
            data,
            refusals,
        ).failure is None,
        -1 <= last < items.len(),
        last >= 0 ==> items[last].key == key,
        forall|i: int| last < i < items.len() ==> (#[trigger] items[i]).key != key,
    ensures
        ({
            let plan = plan_items_model(
                plan_start_model(abi_version, public_key, existing),
                items,
                data,
                refusals,
            );
            &&& plan.abi_version == abi_version
            &&& kept_under(plan.writes, key) == (if last >= 0 {
                Some(InitValueModel::Token(item_token_model(items[last], data, refusals)->Ok_0))
            } else if key == PUBLIC_KEY_SLOT && public_key is Some {
                Some(InitValueModel::PublicKey(public_key->0))
            } else {
                None
            })
        }),
        last >= 0 ==> item_token_model(items[last], data, refusals) is Ok,
    decreases items.len(),
{
    let start = plan_start_model(abi_version, public_key, existing);
    let plan = plan_items_model(start, items, data, refusals);
    existing_data_is_only_begun_with(
        abi_version,
        public_key,
        existing,
        existing,
        items,
        data,
        refusals,
    );
    if items.len() == 0 {
        if public_key is Some {
            assert(start.writes.drop_last() =~= Seq::<InitWriteModel>::empty());
            assert(start.writes.last().key == PUBLIC_KEY_SLOT);
        }
    } else {
        let shorter = items.drop_last();
        let end = items.len() - 1;
        let before = plan_items_model(start, shorter, data, refusals);
        assert(items.last() == items[end]);
        assert(before.failure is None);
        assert(plan.writes.drop_last() =~= before.writes);
        assert(plan.writes.last().key == items[end].key);
        if last < end {
            assert(items[end].key != key);
            assert forall|i: int| last < i < shorter.len() implies (#[trigger] shorter[i]).key
                != key by {
                assert(shorter[i] == items[i]);
            }
            if last >= 0 {
                assert(shorter[last] == items[last]);
            }
            planned_data_is_kept(abi_version, public_key, existing, shorter, data, refusals, key, last);
        }
    }
}

/// What a dictionary holds after values were set in it, one after the other.
pub open spec fn set_all(
    held: Map<u64, InitValueModel>,
    writes: Seq<InitWriteModel>,
) -> Map<u64, InitValueModel>
    decreases writes.len(),
{
    if writes.len() == 0 {
        held
    } else {
        set_all(held, writes.drop_last()).insert(writes.last().key, writes.last().value)
    }
}

proof fn lemma_set_all(held: Map<u64, InitValueModel>, writes: Seq<InitWriteModel>, key: u64)
    ensures
        match kept_under(writes, key) {
            Some(value) => set_all(held, writes).contains_key(key) && set_all(held, writes)[key]
                == value,
            None => set_all(held, writes).contains_key(key) == held.contains_key(key) && set_all(
                held,
                writes,
            )[key] == held[key],
        },
    decreases writes.len(),
{
    if writes.len() > 0 {
        lemma_set_all(held, writes.drop_last(), key);
    }
}

/// The values that are set and the exception do not depend on the data that exists.
pub proof fn existing_data_is_only_begun_with(
    abi_version: AbiVersion,
    public_key: Option<Seq<u8>>,
    existing: Option<Result<Seq<u8>, Seq<char>>>,
    other: Option<Result<Seq<u8>, Seq<char>>>,
    items: Seq<DataItemModel>,
    data: Seq<ItemModel>,
    refusals: Seq<RefusalModel>,
)
    ensures
        ({
            let start = plan_start_model(abi_version, public_key, existing);
            let plan = plan_items_model(start, items, data, refusals);
            let again = plan_items_model(
                plan_start_model(abi_version, public_key, other),
                items,
                data,
                refusals,
            );
            &&& again.writes == plan.writes
            &&& again.failure == plan.failure
            &&& again.abi_version == plan.abi_version
            &&& plan.abi_version == abi_version
            &&& plan.root == start.root
        }),
    decreases items.len(),
{
    if items.len() > 0 {
        existing_data_is_only_begun_with(
            abi_version,
            public_key,
            existing,
            other,
            items.drop_last(),
            data,
            refusals,
        );
    }
}

/// Setting the same data over its own result changes nothing: planned again for the data
/// that was made, the values that are set leave what a dictionary holds as it is.
pub proof fn planning_again_changes_nothing(
    held: Map<u64, InitValueModel>,
    abi_version: AbiVersion,
    public_key: Option<Seq<u8>>,
    existing: Option<Result<Seq<u8>, Seq<char>>>,
    made: Seq<u8>,
    items: Seq<DataItemModel>,
    data: Seq<ItemModel>,
    refusals: Seq<RefusalModel>,
)
    ensures
        ({
            let plan = plan_items_model(
                plan_start_model(abi_version, public_key, existing),
                items,
                data,
                refusals,
            );
            let again = plan_items_model(
                plan_start_model(abi_version, public_key, Some(Ok(made))),
                items,
                data,
                refusals,
            );
            &&& again.root == Some(made)
            &&& again.failure == plan.failure
            &&& set_all(set_all(held, plan.writes), again.writes) == set_all(held, plan.writes)
        }),
{
    existing_data_is_only_begun_with(
        abi_version,
        public_key,
        Some(Ok(made)),
        existing,
        items,
        data,
        refusals,
    );
    let writes = plan_items_model(
        plan_start_model(abi_version, public_key, existing),
        items,
        data,
        refusals,
    ).writes;
    let once = set_all(held, writes);
    let twice = set_all(once, writes);
    assert forall|key: u64| #[trigger] twice.dom().contains(key) == once.dom().contains(key) by {
        lemma_set_all(held, writes, key);
        lemma_set_all(once, writes, key);
    }
    assert forall|key: u64| twice.dom().contains(key) implies #[trigger] twice[key] == once[key] by {
        lemma_set_all(held, writes, key);
        lemma_set_all(once, writes, key);
    }
    assert(twice.dom() =~= once.dom());
    assert(twice =~= once);
}

/// Whether all bytes are zero.
pub open spec fn all_zero(bytes: Seq<u8>) -> bool {
    forall|i: int| 0 <= i < bytes.len() ==> #[trigger] bytes[i] == 0
}

fn is_zero(bytes: &[u8]) -> (zero: bool)
    ensures
        zero == all_zero(bytes@),
{
    let mut i: usize = 0;
    while i < bytes.len()
        invariant
            i <= bytes@.len(),
            forall|j: int| 0 <= j < i ==> #[trigger] bytes@[j] == 0,
        decreases bytes@.len() - i,
    {
        if bytes[i] != 0 {
            return false;
        }
        i = i + 1;
    }
    true
}

/// What came back from looking [`PUBLIC_KEY_SLOT`] up: nothing, or the 32 bytes that are read
/// from what was found; each of the two steps may fail.
pub type KeyEntry = Result<Option<Result<[u8; 32], String>>, String>;

/// The public key in initial data, from what came back from looking it up. Bytes that are
/// all zero stand for no key.
pub open spec fn init_key_model(entry: KeyEntry) -> Result<Option<Seq<u8>>, ErrorModel> {
    match entry {
        Err(words) => Err(reported_value(words@)),
        Ok(None) => Ok(None),
        Ok(Some(Err(words))) => Err(reported_value(words@)),
        Ok(Some(Ok(bytes))) => if all_zero(bytes@) {
            Ok(None)
        } else if is_public_key(bytes@) {
            Ok(Some(bytes@))
        } else {
            Err(reported_value(key_error_text(bytes@)))
        },
    }
}

/// The public key in initial data.
pub fn decode_init_key(entry: KeyEntry) -> (key: Result<Option<PublicKey>, AbiError>)
    ensures
        match key {
            Ok(Some(k)) => init_key_model(entry) == Ok::<Option<Seq<u8>>, ErrorModel>(Some(k@)),
            Ok(None) => init_key_model(entry) == Ok::<Option<Seq<u8>>, ErrorModel>(None),
            Err(e) => init_key_model(entry) == Err::<Option<Seq<u8>>, ErrorModel>(e@),
        },
{
    let found: Option<Result<[u8; 32], String>> = match handle_value_error(entry) {
        Ok(found) => found,
        Err(e) => {
            return Err(e);
        },
    };
    match found {
        None => Ok(None),
        Some(read) => {
            let bytes: [u8; 32] = match handle_value_error(read) {
                Ok(bytes) => bytes,
                Err(e) => {
                    return Err(e);
                },
            };
            if is_zero(bytes.as_slice()) {
                return Ok(None);
            }
            match handle_value_error(PublicKey::from_bytes(bytes.as_slice())) {
                Ok(key) => Ok(Some(key)),
                Err(e) => Err(e),
            }
        },
    }
}

/// A public key that was kept is read back, unless all its bytes are zero.
pub proof fn kept_key_is_read_back(bytes: [u8; 32])
    requires
        is_public_key(bytes@),
        !all_zero(bytes@),
    ensures
        init_key_model(Ok(Some(Ok(bytes)))) == Ok::<Option<Seq<u8>>, ErrorModel>(Some(bytes@)),
{
}

/// The initial data of a contract: its public key and its values.
#[derive(Debug, PartialEq, Eq)]
pub struct InitData {
    pub public_key: Option<PublicKey>,
    pub values: Dict,
}

/// [`InitData`] over models.
pub struct InitDataModel {
    pub public_key: Option<Seq<u8>>,
    pub values: Seq<ItemModel>,
}

impl View for InitData {
    type V = InitDataModel;

    open spec fn view(&self) -> InitDataModel {
        InitDataModel {
            public_key: match self.public_key {
                Some(key) => Some(key@),
                None => None,
            },
            values: self.values@,
        }
    }
}

/// The initial data of a contract, from what came back from looking the public key up and
/// from decoding the values. The key decides first.
pub open spec fn init_data_model(
    entry: KeyEntry,
    tokens: Result<Seq<NamedTokenModel>, Seq<char>>,
) -> Result<InitDataModel, ErrorModel> {
    match init_key_model(entry) {
        Err(e) => Err(e),
        Ok(public_key) => match tokens {
            Err(words) => Err(reported_value(words)),
            Ok(ts) => match convert_named_model(ts) {
                Ok(values) => Ok(InitDataModel { public_key, values }),
                Err(e) => Err(e),
            },
        },
    }
}

/// The initial data of a contract.
pub fn read_init_data(entry: KeyEntry, tokens: Result<Vec<Token>, String>) -> (data: Result<
    InitData,
    AbiError,
>)
    ensures
        match data {
            Ok(d) => init_data_model(entry, returned_tokens(tokens)) == Ok::<
                InitDataModel,
                ErrorModel,
            >(d@),
            Err(e) => init_data_model(entry, returned_tokens(tokens)) == Err::<
                InitDataModel,
                ErrorModel,
            >(e@),
        },
{
    let public_key: Option<PublicKey> = match decode_init_key(entry) {
        Ok(key) => key,
        Err(e) => {
            return Err(e);
        },
    };
    let tokens: Vec<Token> = match handle_value_error(tokens) {
        Ok(tokens) => tokens,
        Err(e) => {
            return Err(e);
        },
    };
    match convert_tokens(tokens) {
        Ok(values) => Ok(InitData { public_key, values }),
        Err(e) => Err(e),
    }
}

} // verus!
