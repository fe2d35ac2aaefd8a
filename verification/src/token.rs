//! The values of parameters, as they are packed into cells and read from them.

use crate::keys::PublicKey;
use crate::ledger::{Cell, MsgAddress, MsgAddressModel};
use crate::numbers::{BigInt, BigUint};
use crate::order::{address_order, address_order_is_total, order_addresses};
use crate::param::{kind_model, KindModel, ParamType};
use core::cmp::Ordering;
use vstd::prelude::*;

verus! {

/// An unsigned integer and its number of bits.
#[derive(Debug, PartialEq, Eq)]
pub struct Uint {
    pub number: BigUint,
    pub size: usize,
}

/// A signed integer and its number of bits.
#[derive(Debug, PartialEq, Eq)]
pub struct Int {
    pub number: BigInt,
    pub size: usize,
}

/// The key of an entry of a dictionary.
#[derive(Debug, PartialEq, Eq)]
pub enum MapKeyTokenValue {
    Uint(Uint),
    Int(Int),
    Address(MsgAddress),
}

/// An entry of a dictionary.
#[derive(Debug, PartialEq, Eq)]
pub struct MapEntry {
    pub key: MapKeyTokenValue,
    pub value: TokenValue,
}

/// The entries of a dictionary: no key occurs twice.
#[derive(Debug, PartialEq, Eq)]
pub struct MapEntries {
    pub(crate) entries: Vec<MapEntry>,
}

/// The value of a parameter.
#[derive(Debug, PartialEq, Eq)]
pub enum TokenValue {
    Uint(Uint),
    Int(Int),
    VarUint(usize, BigUint),
    VarInt(usize, BigInt),
    Bool(bool),
    Tuple(Vec<Token>),
    Array(ParamType, Vec<TokenValue>),
    FixedArray(ParamType, Vec<TokenValue>),
    Cell(Cell),
    /// The types of keys and values, and the entries. Those that are read from an object
    /// stand in the order of their keys.
    Mapping(ParamType, ParamType, MapEntries),
    Address(MsgAddress),
    Bytes(Vec<u8>),
    FixedBytes(Vec<u8>),
    String(String),
    Token(u128),
    Time(u64),
    Expire(u32),
    PublicKey(Option<PublicKey>),
    Optional(ParamType, Option<Box<TokenValue>>),
    Ref(Box<TokenValue>),
}

/// A named value.
#[derive(Debug, PartialEq, Eq)]
pub struct Token {
    pub name: String,
    pub value: TokenValue,
}

/// [`MapKeyTokenValue`] over mathematical integers and sequences.
pub enum MapKeyModel {
    Uint(nat, usize),
    Int(int, usize),
    Address(MsgAddressModel),
}

/// [`MapEntry`] over models.
pub struct MapEntryModel {
    pub key: MapKeyModel,
    pub value: TokenModel,
}

/// [`TokenValue`] over mathematical integers and sequences.
pub enum TokenModel {
    Uint(nat, usize),
    Int(int, usize),
    VarUint(usize, nat),
    VarInt(usize, int),
    Bool(bool),
    Tuple(Seq<NamedTokenModel>),
    Array(KindModel, Seq<TokenModel>),
    FixedArray(KindModel, Seq<TokenModel>),
    Cell(Seq<u8>),
    Mapping(KindModel, KindModel, Seq<MapEntryModel>),
    Address(MsgAddressModel),
    Bytes(Seq<u8>),
    FixedBytes(Seq<u8>),
    String(Seq<char>),
    Token(u128),
    Time(u64),
    Expire(u32),
    PublicKey(Option<Seq<u8>>),
    Optional(KindModel, Option<Box<TokenModel>>),
    Ref(Box<TokenModel>),
}

/// [`Token`] over models.
pub struct NamedTokenModel {
    pub name: Seq<char>,
    pub value: TokenModel,
}

impl View for MapKeyTokenValue {
    type V = MapKeyModel;

    open spec fn view(&self) -> MapKeyModel {
        match self {
            MapKeyTokenValue::Uint(n) => MapKeyModel::Uint(n.number@, n.size),
            MapKeyTokenValue::Int(n) => MapKeyModel::Int(n.number@, n.size),
            MapKeyTokenValue::Address(a) => MapKeyModel::Address(a@),
        }
    }
}

/// The model of a value.
pub open spec fn token_model(value: TokenValue) -> TokenModel
    decreases value,
{
    match value {
        TokenValue::Uint(n) => TokenModel::Uint(n.number@, n.size),
        TokenValue::Int(n) => TokenModel::Int(n.number@, n.size),
        TokenValue::VarUint(size, n) => TokenModel::VarUint(size, n@),
        TokenValue::VarInt(size, n) => TokenModel::VarInt(size, n@),
        TokenValue::Bool(b) => TokenModel::Bool(b),
        TokenValue::Tuple(tokens) => TokenModel::Tuple(named_tokens_model(tokens@)),
        TokenValue::Array(ty, values) => TokenModel::Array(
            kind_model(ty),
            token_values_model(values@),
        ),
        TokenValue::FixedArray(ty, values) => TokenModel::FixedArray(
            kind_model(ty),
            token_values_model(values@),
        ),
        TokenValue::Cell(cell) => TokenModel::Cell(cell@),
        TokenValue::Mapping(key, value, entries) => TokenModel::Mapping(
            kind_model(key),
            kind_model(value),
            mapping_model(entries),
        ),
        TokenValue::Address(a) => TokenModel::Address(a@),
        TokenValue::Bytes(b) => TokenModel::Bytes(b@),
        TokenValue::FixedBytes(b) => TokenModel::FixedBytes(b@),
        TokenValue::String(s) => TokenModel::String(s@),
        TokenValue::Token(n) => TokenModel::Token(n),
        TokenValue::Time(n) => TokenModel::Time(n),
        TokenValue::Expire(n) => TokenModel::Expire(n),
        TokenValue::PublicKey(key) => TokenModel::PublicKey(
            match key {
                Some(k) => Some(k@),
                None => None,
            },
        ),
        TokenValue::Optional(ty, inner) => TokenModel::Optional(
            kind_model(ty),
            match inner {
                Some(t) => Some(Box::new(token_model(*t))),
                None => None,
            },
        ),
        TokenValue::Ref(inner) => TokenModel::Ref(Box::new(token_model(*inner))),
    }
}

/// The models of values, in order.
pub open spec fn token_values_model(values: Seq<TokenValue>) -> Seq<TokenModel>
    decreases values,
{
    Seq::new(
        values.len(),
        |i: int| if 0 <= i < values.len() { token_model(values[i]) } else { arbitrary() },
    )
}

/// The models of named values, in order.
pub open spec fn named_tokens_model(tokens: Seq<Token>) -> Seq<NamedTokenModel>
    decreases tokens,
{
    Seq::new(
        tokens.len(),
        |i: int|
            if 0 <= i < tokens.len() {
                NamedTokenModel { name: tokens[i].name@, value: token_model(tokens[i].value) }
            } else {
                arbitrary()
            },
    )
}

/// The models of entries, in order.
pub open spec fn entries_model(entries: Seq<MapEntry>) -> Seq<MapEntryModel>
    decreases entries,
{
    Seq::new(
        entries.len(),
        |i: int|
            if 0 <= i < entries.len() {
                MapEntryModel { key: entries[i].key@, value: token_model(entries[i].value) }
            } else {
                arbitrary()
            },
    )
}

/// The models of the entries of a dictionary.
pub closed spec fn mapping_model(mapping: MapEntries) -> Seq<MapEntryModel>
    decreases mapping,
{
    entries_model(mapping.entries@)
}

impl View for MapEntries {
    type V = Seq<MapEntryModel>;

    open spec fn view(&self) -> Seq<MapEntryModel> {
        mapping_model(*self)
    }
}

pub(crate) proof fn lemma_mapping_model(mapping: MapEntries)
    ensures
        mapping@ == entries_model(mapping.entries@),
{
}

impl View for TokenValue {
    type V = TokenModel;

    open spec fn view(&self) -> TokenModel {
        token_model(*self)
    }
}

impl View for Token {
    type V = NamedTokenModel;

    open spec fn view(&self) -> NamedTokenModel {
        NamedTokenModel { name: self.name@, value: token_model(self.value) }
    }
}

impl View for MapEntry {
    type V = MapEntryModel;

    open spec fn view(&self) -> MapEntryModel {
        MapEntryModel { key: self.key@, value: token_model(self.value) }
    }
}

/// What [`token_values_model`] holds at each place.
pub proof fn lemma_token_values_model(values: Seq<TokenValue>)
    ensures
        token_values_model(values).len() == values.len(),
        forall|i: int|
            0 <= i < values.len() ==> #[trigger] token_values_model(values)[i] == token_model(
                values[i],
            ),
{
    assert forall|i: int| 0 <= i < values.len() implies #[trigger] token_values_model(values)[i]
        == token_model(values[i]) by {}
}

/// What [`named_tokens_model`] holds at each place.
pub proof fn lemma_named_tokens_model(tokens: Seq<Token>)
    ensures
        named_tokens_model(tokens).len() == tokens.len(),
        forall|i: int|
            0 <= i < tokens.len() ==> #[trigger] named_tokens_model(tokens)[i] == tokens[i]@,
{
    assert forall|i: int| 0 <= i < tokens.len() implies #[trigger] named_tokens_model(tokens)[i]
        == tokens[i]@ by {}
}

/// What [`entries_model`] holds at each place.
pub proof fn lemma_entries_model(entries: Seq<MapEntry>)
    ensures
        entries_model(entries).len() == entries.len(),
        forall|i: int|
            0 <= i < entries.len() ==> #[trigger] entries_model(entries)[i] == entries[i]@,
{
    assert forall|i: int| 0 <= i < entries.len() implies #[trigger] entries_model(entries)[i]
        == entries[i]@ by {}
}

/// The place of a kind of key among the kinds.
pub open spec fn key_rank(key: MapKeyModel) -> int {
    match key {
        MapKeyModel::Uint(_, _) => 0,
        MapKeyModel::Int(_, _) => 1,
        MapKeyModel::Address(_) => 2,
    }
}

/// Whether a key stands before another in a dictionary: integers ascend, and addresses
/// stand in the order of [`address_order`].
pub open spec fn goes_before(a: MapKeyModel, b: MapKeyModel) -> bool {
    match (a, b) {
        (
            MapKeyModel::Uint(m, s),
            MapKeyModel::Uint(n, t),
        ) => m < n || (m == n && s < t),
        (
            MapKeyModel::Int(m, s),
            MapKeyModel::Int(n, t),
        ) => m < n || (m == n && s < t),
        (MapKeyModel::Address(x), MapKeyModel::Address(y)) => address_order(x, y) < 0,
        _ => key_rank(a) < key_rank(b),
    }
}

/// Keys are in a total order: of two that differ just one stands before the other, no key
/// stands before itself, and what stands before a key stands before whatever that key
/// stands before.
pub proof fn key_order_is_total(a: MapKeyModel, b: MapKeyModel, c: MapKeyModel)
    ensures
        !goes_before(a, a),
        goes_before(a, b) ==> !goes_before(b, a),
        a != b ==> goes_before(a, b) || goes_before(b, a),
        goes_before(a, b) && goes_before(b, c) ==> goes_before(a, c),
{
    if let MapKeyModel::Address(x) = a {
        address_order_is_total(x, x, x);
        if let MapKeyModel::Address(y) = b {
            address_order_is_total(x, y, if let MapKeyModel::Address(z) = c { z } else { y });
        }
    }
}

/// No key occurs twice.
pub open spec fn distinct_map_keys(entries: Seq<MapEntryModel>) -> bool {
    forall|i: int, j: int|
        0 <= i < j < entries.len() ==> (#[trigger] entries[i]).key != (#[trigger] entries[j]).key
}

/// Where the first entry with a key stands; the length if there is none.
pub open spec fn entry_index(entries: Seq<MapEntryModel>, key: MapKeyModel) -> nat
    decreases entries.len(),
{
    if entries.len() == 0 {
        0
    } else {
        let before = entry_index(entries.drop_last(), key);
        if before < entries.len() - 1 || entries.last().key == key {
            before
        } else {
            entries.len()
        }
    }
}

/// Where a new key goes: before the first key that it stands before, or at the end.
pub open spec fn insert_index(entries: Seq<MapEntryModel>, key: MapKeyModel) -> nat
    decreases entries.len(),
{
    if entries.len() == 0 {
        0
    } else {
        let before = insert_index(entries.drop_last(), key);
        if before < entries.len() - 1 || goes_before(key, entries.last().key) {
            before
        } else {
            entries.len()
        }
    }
}

/// A dictionary after a value is set for a key: the value takes the place of the one
/// that the key had, or the key comes to stand where its order puts it.
pub open spec fn map_insert(
    entries: Seq<MapEntryModel>,
    key: MapKeyModel,
    value: TokenModel,
) -> Seq<MapEntryModel> {
    let index = entry_index(entries, key);
    let entry = MapEntryModel { key, value };
    if index < entries.len() {
        entries.update(index as int, entry)
    } else {
        entries.insert(insert_index(entries, key) as int, entry)
    }
}

/// Every key stands before those behind it.
pub open spec fn in_order(entries: Seq<MapEntryModel>) -> bool {
    forall|i: int, j: int|
        0 <= i < j < entries.len() ==> goes_before(
            (#[trigger] entries[i]).key,
            (#[trigger] entries[j]).key,
        )
}

/// What [`entry_index`] finds.
pub proof fn lemma_entry_index(entries: Seq<MapEntryModel>, key: MapKeyModel)
    ensures
        entry_index(entries, key) <= entries.len(),
        entry_index(entries, key) < entries.len() ==> entries[entry_index(
            entries,
            key,
        ) as int].key == key,
        forall|i: int| 0 <= i < entry_index(entries, key) ==> (#[trigger] entries[i]).key != key,
    decreases entries.len(),
{
    if entries.len() > 0 {
        let shorter = entries.drop_last();
        lemma_entry_index(shorter, key);
        assert forall|i: int| 0 <= i < entry_index(entries, key) implies (
        #[trigger] entries[i]).key != key by {
            if i < shorter.len() {
                assert(shorter[i] == entries[i]);
            }
        }
    }
}

/// What [`insert_index`] finds.
pub proof fn lemma_insert_index(entries: Seq<MapEntryModel>, key: MapKeyModel)
    ensures
        insert_index(entries, key) <= entries.len(),
        insert_index(entries, key) < entries.len() ==> goes_before(
            key,
            entries[insert_index(entries, key) as int].key,
        ),
        forall|i: int|
            0 <= i < insert_index(entries, key) ==> !goes_before(key, (#[trigger] entries[i]).key),
    decreases entries.len(),
{
    if entries.len() > 0 {
        let shorter = entries.drop_last();
        lemma_insert_index(shorter, key);
        assert forall|i: int| 0 <= i < insert_index(entries, key) implies !goes_before(
            key,
            (#[trigger] entries[i]).key,
        ) by {
            if i < shorter.len() {
                assert(shorter[i] == entries[i]);
            }
        }
    }
}

/// Setting a value keeps a dictionary in order.
pub proof fn lemma_insert_in_order(
    entries: Seq<MapEntryModel>,
    key: MapKeyModel,
    value: TokenModel,
)
    requires
        in_order(entries),
    ensures
        in_order(map_insert(entries, key, value)),
{
    lemma_entry_index(entries, key);
    lemma_insert_index(entries, key);
    let after = map_insert(entries, key, value);
    let found = entry_index(entries, key) as int;
    let at = insert_index(entries, key) as int;
    assert forall|i: int, j: int| 0 <= i < j < after.len() implies goes_before(
        (#[trigger] after[i]).key,
        (#[trigger] after[j]).key,
    ) by {
        if found < entries.len() {
            assert(after[i].key == entries[i].key);
            assert(after[j].key == entries[j].key);
        } else {
            let pi = if i < at { i } else { i - 1 };
            let pj = if j < at { j } else { j - 1 };
            if i != at {
                assert(after[i] == entries[pi]);
            }
            if j != at {
                assert(after[j] == entries[pj]);
            }
            if j == at {
                assert(!goes_before(key, entries[pi].key));
                assert(entries[pi].key != key);
                key_order_is_total(entries[pi].key, key, key);
            } else if i == at {
                assert(goes_before(key, entries[at].key));
                if pj != at {
                    assert(goes_before(entries[at].key, entries[pj].key));
                }
                key_order_is_total(key, entries[at].key, entries[pj].key);
            }
        }
    }
}

/// Setting a value leaves no key to occur twice.
pub proof fn insert_keeps_keys_distinct(
    entries: Seq<MapEntryModel>,
    key: MapKeyModel,
    value: TokenModel,
)
    requires
        distinct_map_keys(entries),
    ensures
        distinct_map_keys(map_insert(entries, key, value)),
{
    lemma_entry_index(entries, key);
    lemma_insert_index(entries, key);
    let after = map_insert(entries, key, value);
    let found = entry_index(entries, key) as int;
    let at = insert_index(entries, key) as int;
    assert forall|i: int, j: int| 0 <= i < j < after.len() implies (#[trigger] after[i]).key != (
    #[trigger] after[j]).key by {
        if found < entries.len() {
            assert(after[i].key == entries[i].key);
            assert(after[j].key == entries[j].key);
        } else {
            let pi = if i < at { i } else { i - 1 };
            let pj = if j < at { j } else { j - 1 };
            if i != at {
                assert(after[i] == entries[pi]);
            }
            if j != at {
                assert(after[j] == entries[pj]);
            }
        }
    }
}

/// In a dictionary that is in order no key occurs twice.
pub proof fn ordered_keys_are_distinct(entries: Seq<MapEntryModel>)
    requires
        in_order(entries),
    ensures
        distinct_map_keys(entries),
{
    assert forall|i: int, j: int| 0 <= i < j < entries.len() implies (
    #[trigger] entries[i]).key != (#[trigger] entries[j]).key by {
        assert(goes_before(entries[i].key, entries[j].key));
        key_order_is_total(entries[i].key, entries[i].key, entries[i].key);
    }
}

/// The value for a key in a dictionary.
pub open spec fn map_get(entries: Seq<MapEntryModel>, key: MapKeyModel) -> Option<TokenModel> {
    let index = entry_index(entries, key);
    if index < entries.len() {
        Some(entries[index as int].value)
    } else {
        None
    }
}

/// The value that is set for a key is the one found under it, and what is found under any
/// other key stays.
pub proof fn map_get_after_insert(
    entries: Seq<MapEntryModel>,
    key: MapKeyModel,
    value: TokenModel,
    other: MapKeyModel,
)
    ensures
        map_get(map_insert(entries, key, value), other) == (if other == key {
            Some(value)
        } else {
            map_get(entries, other)
        }),
{
    let after = map_insert(entries, key, value);
    let found = entry_index(entries, key) as int;
    let at = insert_index(entries, key) as int;
    lemma_entry_index(entries, key);
    lemma_entry_index(entries, other);
    lemma_entry_index(after, other);
    lemma_insert_index(entries, key);
    let there = entry_index(after, other) as int;
    let place = if other == key {
        if found < entries.len() {
            found
        } else {
            at
        }
    } else {
        let before = entry_index(entries, other) as int;
        if found < entries.len() || before < at {
            before
        } else {
            before + 1
        }
    };
    if place < after.len() {
        assert(after[place].key == other);
    }
    if there < place {
        if found < entries.len() {
            assert(after[there].key == entries[there].key);
        } else if there < at {
            assert(after[there] == entries[there]);
        } else if there > at {
            assert(after[there] == entries[there - 1]);
        }
    }
    assert(there == place);
}

/// What stands in a dictionary that is in order is what is found under its key.
pub proof fn lemma_map_get_at(entries: Seq<MapEntryModel>, i: int)
    requires
        in_order(entries),
        0 <= i < entries.len(),
    ensures
        map_get(entries, entries[i].key) == Some(entries[i].value),
{
    let key = entries[i].key;
    lemma_entry_index(entries, key);
    let found = entry_index(entries, key) as int;
    key_order_is_total(key, key, key);
    if found < i {
        assert(goes_before(entries[found].key, entries[i].key));
    }
    assert(found == i);
}

/// What is found under a key stands somewhere.
proof fn lemma_map_get_found(entries: Seq<MapEntryModel>, key: MapKeyModel) -> (i: int)
    requires
        map_get(entries, key) is Some,
    ensures
        0 <= i < entries.len(),
        entries[i].key == key,
        entries[i].value == map_get(entries, key)->0,
{
    lemma_entry_index(entries, key);
    entry_index(entries, key) as int
}

/// Dictionaries in order that hold the same under every key are one dictionary.
pub proof fn equal_dictionaries_are_one(a: Seq<MapEntryModel>, b: Seq<MapEntryModel>)
    requires
        in_order(a),
        in_order(b),
        forall|key: MapKeyModel| #[trigger] map_get(a, key) == map_get(b, key),
    ensures
        a == b,
    decreases a.len(),
{
    if a.len() == 0 {
        if b.len() > 0 {
            lemma_map_get_at(b, 0);
            assert(map_get(a, b[0].key) is None);
        }
        assert(a =~= b);
    } else {
        let la = a.len() - 1;
        lemma_map_get_at(a, la);
        assert(map_get(b, a[la].key) is Some);
        let ib = lemma_map_get_found(b, a[la].key);
        let lb = b.len() - 1;
        lemma_map_get_at(b, lb);
        assert(map_get(a, b[lb].key) is Some);
        let ia = lemma_map_get_found(a, b[lb].key);
        if a[la].key != b[lb].key {
            assert(goes_before(a[ia].key, a[la].key));
            assert(goes_before(b[ib].key, b[lb].key));
            key_order_is_total(a[la].key, b[lb].key, a[la].key);
        }
        assert(a[la] == b[lb]);
        let sa = a.drop_last();
        let sb = b.drop_last();
        assert(in_order(sa)) by {
            assert forall|i: int, j: int| 0 <= i < j < sa.len() implies goes_before(
                (#[trigger] sa[i]).key,
                (#[trigger] sa[j]).key,
            ) by {
                assert(sa[i] == a[i] && sa[j] == a[j]);
            }
        }
        assert(in_order(sb)) by {
            assert forall|i: int, j: int| 0 <= i < j < sb.len() implies goes_before(
                (#[trigger] sb[i]).key,
                (#[trigger] sb[j]).key,
            ) by {
                assert(sb[i] == b[i] && sb[j] == b[j]);
            }
        }
        assert forall|key: MapKeyModel| #[trigger] map_get(sa, key) == map_get(sb, key) by {
            assert(map_get(a, key) == map_get(b, key));
            lemma_map_get_shorter(a, key);
            lemma_map_get_shorter(b, key);
        }
        equal_dictionaries_are_one(sa, sb);
        assert(a =~= sa.push(a[la]));
        assert(b =~= sb.push(b[lb]));
    }
}

proof fn lemma_map_get_shorter(entries: Seq<MapEntryModel>, key: MapKeyModel)
    requires
        in_order(entries),
        entries.len() > 0,
    ensures
        map_get(entries.drop_last(), key) == (if key == entries.last().key {
            None
        } else {
            map_get(entries, key)
        }),
{
    let shorter = entries.drop_last();
    let last = entries.len() - 1;
    lemma_entry_index(shorter, key);
    lemma_entry_index(entries, key);
    let found = entry_index(shorter, key) as int;
    key_order_is_total(key, key, key);
    if found < shorter.len() {
        assert(shorter[found] == entries[found]);
        assert(goes_before(entries[found].key, entries[last].key));
    }
}

impl MapKeyTokenValue {
    /// Whether two keys are the same.
    pub fn same(&self, other: &MapKeyTokenValue) -> (same: bool)
        ensures
            same == (self@ == other@),
    {
        match (self, other) {
            (MapKeyTokenValue::Uint(a), MapKeyTokenValue::Uint(b)) => {
                a.size == b.size && match a.number.compare(&b.number) {
                    Ordering::Equal => true,
                    _ => false,
                }
            },
            (MapKeyTokenValue::Int(a), MapKeyTokenValue::Int(b)) => {
                a.size == b.size && match a.number.compare(&b.number) {
                    Ordering::Equal => true,
                    _ => false,
                }
            },
            (MapKeyTokenValue::Address(a), MapKeyTokenValue::Address(b)) => a.same(b),
            _ => false,
        }
    }

    /// Whether a key stands before another in a dictionary.
    pub fn goes_before(&self, other: &MapKeyTokenValue) -> (before: bool)
        ensures
            before == goes_before(self@, other@),
    {
        match (self, other) {
            (MapKeyTokenValue::Uint(a), MapKeyTokenValue::Uint(b)) => {
                match a.number.compare(&b.number) {
                    Ordering::Less => true,
                    Ordering::Equal => a.size < b.size,
                    Ordering::Greater => false,
                }
            },
            (MapKeyTokenValue::Int(a), MapKeyTokenValue::Int(b)) => {
                match a.number.compare(&b.number) {
                    Ordering::Less => true,
                    Ordering::Equal => a.size < b.size,
                    Ordering::Greater => false,
                }
            },
            (MapKeyTokenValue::Address(a), MapKeyTokenValue::Address(b)) => {
                order_addresses(a, b) < 0
            },
            (MapKeyTokenValue::Uint(_), _) => true,
            (MapKeyTokenValue::Int(_), MapKeyTokenValue::Address(_)) => true,
            _ => false,
        }
    }
}

/// Sets the value for a key in the entries of a dictionary.
fn insert_entry(entries: &mut Vec<MapEntry>, key: MapKeyTokenValue, value: TokenValue)
    ensures
        entries_model(final(entries)@) == map_insert(entries_model(old(entries)@), key@, value@),
{
    let ghost before = entries_model(entries@);
    let ghost old_entries = entries@;
    proof {
        lemma_entries_model(entries@);
        lemma_entry_index(before, key@);
        lemma_insert_index(before, key@);
    }
    let len: usize = entries.len();
    let mut found: usize = 0;
    while found < len && !entries[found].key.same(&key)
        invariant
            found <= len,
            len == entries@.len(),
            entries@ == old_entries,
            before.len() == len,
            forall|j: int| 0 <= j < len ==> #[trigger] before[j] == old_entries[j]@,
            forall|j: int| 0 <= j < found ==> (#[trigger] before[j]).key != key@,
        decreases len - found,
    {
        assert(before[found as int].key != key@);
        found = found + 1;
    }
    if found < len {
        assert(before[found as int].key == key@);
        assert(entry_index(before, key@) == found);
        entries.set(found, MapEntry { key, value });
    } else {
        assert(entry_index(before, key@) == len);
        let mut at: usize = 0;
        while at < len && !key.goes_before(&entries[at].key)
            invariant
                at <= len,
                len == entries@.len(),
                entries@ == old_entries,
                before.len() == len,
                forall|j: int| 0 <= j < len ==> #[trigger] before[j] == old_entries[j]@,
                forall|j: int| 0 <= j < at ==> !goes_before(key@, (#[trigger] before[j]).key),
            decreases len - at,
        {
            assert(!goes_before(key@, before[at as int].key));
            at = at + 1;
        }
        if at < len {
            assert(goes_before(key@, before[at as int].key));
        }
        assert(insert_index(before, key@) == at);
        entries.insert(at, MapEntry { key, value });
    }
    proof {
        lemma_entries_model(entries@);
        assert(entries_model(entries@) =~= map_insert(before, key@, value@));
    }
}

impl MapEntries {
    #[verifier::type_invariant]
    spec fn inv(self) -> bool {
        distinct_map_keys(entries_model(self.entries@))
    }

    /// A dictionary without entries.
    pub fn new() -> (mapping: MapEntries)
        ensures
            mapping@ == Seq::<MapEntryModel>::empty(),
    {
        let entries: Vec<MapEntry> = Vec::new();
        assert(entries_model(entries@) =~= Seq::<MapEntryModel>::empty());
        MapEntries { entries }
    }

    /// A dictionary of entries, which stay in their places. There is none where a key occurs
    /// twice.
    pub fn from_entries(entries: Vec<MapEntry>) -> (mapping: Option<MapEntries>)
        ensures
            match mapping {
                Some(m) => m@ == entries_model(entries@) && distinct_map_keys(m@),
                None => !distinct_map_keys(entries_model(entries@)),
            },
    {
        let ghost model = entries_model(entries@);
        proof {
            lemma_entries_model(entries@);
        }
        let len: usize = entries.len();
        let mut i: usize = 0;
        while i < len
            invariant
                i <= len,
                len == entries@.len(),
                model == entries_model(entries@),
                model.len() == len,
                forall|k: int| 0 <= k < len ==> #[trigger] model[k] == entries@[k]@,
                forall|a: int, b: int|
                    0 <= a < b < i ==> (#[trigger] model[a]).key != (#[trigger] model[b]).key,
            decreases len - i,
        {
            let mut j: usize = 0;
            while j < i
                invariant
                    j <= i < len,
                    len == entries@.len(),
                    model == entries_model(entries@),
                    model.len() == len,
                    forall|k: int| 0 <= k < len ==> #[trigger] model[k] == entries@[k]@,
                    forall|k: int|
                        0 <= k < j ==> (#[trigger] model[k]).key != model[i as int].key,
                decreases i - j,
            {
                if entries[j].key.same(&entries[i].key) {
                    assert(model[j as int].key == model[i as int].key);
                    return None;
                }
                assert(model[j as int].key != model[i as int].key);
                j = j + 1;
            }
            i = i + 1;
        }
        Some(MapEntries { entries })
    }

    /// The entries.
    pub fn as_slice(&self) -> (entries: &[MapEntry])
        ensures
            entries_model(entries@) == self@,
            distinct_map_keys(self@),
    {
        proof {
            use_type_invariant(self);
        }
        self.entries.as_slice()
    }

    /// Sets the value for a key.
    pub fn insert(&mut self, key: MapKeyTokenValue, value: TokenValue)
        ensures
            final(self)@ == map_insert(old(self)@, key@, value@),
    {
        proof {
            use_type_invariant(&*self);
            insert_keeps_keys_distinct(self@, key@, value@);
        }
        let mut entries: Vec<MapEntry> = Vec::new();
        assert(entries_model(entries@) =~= Seq::<MapEntryModel>::empty());
        std::mem::swap(&mut entries, &mut self.entries);
        insert_entry(&mut entries, key, value);
        self.entries = entries;
    }
}

} // verus!
