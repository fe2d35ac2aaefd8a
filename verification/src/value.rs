//! Python objects, as far as a call reads or makes them.

use crate::error::{AbiError, ErrorModel, PyKind};
use crate::ledger::{Address, AddressModel, Cell};
use crate::numbers::{BigInt, BigUint};
use vstd::prelude::*;

verus! {

/// A Python object.
#[derive(Debug, PartialEq, Eq)]
pub enum Value {
    /// `None`.
    PyNone,
    /// `bool`.
    Bool(bool),
    /// `int`, or another object that Python takes for an index.
    Int(BigInt),
    /// `str`.
    Str(String),
    /// `bytes`.
    Bytes(Vec<u8>),
    /// `list`.
    List(Vec<Value>),
    /// `tuple`.
    Tuple(Vec<Value>),
    /// `dict`.
    Dict(Dict),
    /// A cell of the ledger.
    Cell(Cell),
    /// The address of an account.
    Address(Address),
    /// Any other object; it is none of the kinds above.
    Other,
}

/// The entries of a Python dictionary whose keys are strings, in order of insertion.
#[derive(Debug, PartialEq, Eq)]
pub struct Dict {
    items: Vec<Item>,
}

/// An entry of a dictionary.
#[derive(Debug, PartialEq, Eq)]
pub struct Item {
    pub key: String,
    pub value: Value,
}

/// [`Value`] over sequences and mathematical integers.
pub enum ValueModel {
    PyNone,
    Bool(bool),
    Int(int),
    Str(Seq<char>),
    Bytes(Seq<u8>),
    List(Seq<ValueModel>),
    Tuple(Seq<ValueModel>),
    Dict(Seq<ItemModel>),
    Cell(Seq<u8>),
    Address(AddressModel),
    Other,
}

/// [`Item`] over sequences.
pub struct ItemModel {
    pub key: Seq<char>,
    pub value: ValueModel,
}

/// The model of an object.
pub closed spec fn value_model(value: Value) -> ValueModel
    decreases value,
{
    match value {
        Value::PyNone => ValueModel::PyNone,
        Value::Bool(b) => ValueModel::Bool(b),
        Value::Int(n) => ValueModel::Int(n@),
        Value::Str(s) => ValueModel::Str(s@),
        Value::Bytes(b) => ValueModel::Bytes(b@),
        Value::List(values) => ValueModel::List(values_model(values@)),
        Value::Tuple(values) => ValueModel::Tuple(values_model(values@)),
        Value::Dict(dict) => ValueModel::Dict(items_model(dict.items@)),
        Value::Cell(cell) => ValueModel::Cell(cell@),
        Value::Address(address) => ValueModel::Address(address@),
        Value::Other => ValueModel::Other,
    }
}

/// The models of objects, in order.
pub closed spec fn values_model(values: Seq<Value>) -> Seq<ValueModel>
    decreases values,
{
    Seq::new(
        values.len(),
        |i: int| if 0 <= i < values.len() { value_model(values[i]) } else { arbitrary() },
    )
}

/// The models of entries, in order.
closed spec fn items_model(items: Seq<Item>) -> Seq<ItemModel>
    decreases items,
{
    Seq::new(
        items.len(),
        |i: int|
            if 0 <= i < items.len() {
                ItemModel { key: items[i].key@, value: value_model(items[i].value) }
            } else {
                arbitrary()
            },
    )
}

impl View for Value {
    type V = ValueModel;

    open spec fn view(&self) -> ValueModel {
        value_model(*self)
    }
}

impl View for Dict {
    type V = Seq<ItemModel>;

    closed spec fn view(&self) -> Seq<ItemModel> {
        items_model(self.items@)
    }
}

/// The model of an object, read off its form.
pub broadcast proof fn lemma_value_model(value: Value)
    ensures
        #[trigger] value_model(value) == (match value {
            Value::PyNone => ValueModel::PyNone,
            Value::Bool(b) => ValueModel::Bool(b),
            Value::Int(n) => ValueModel::Int(n@),
            Value::Str(s) => ValueModel::Str(s@),
            Value::Bytes(b) => ValueModel::Bytes(b@),
            Value::List(values) => ValueModel::List(values_model(values@)),
            Value::Tuple(values) => ValueModel::Tuple(values_model(values@)),
            Value::Dict(dict) => ValueModel::Dict(dict@),
            Value::Cell(cell) => ValueModel::Cell(cell@),
            Value::Address(address) => ValueModel::Address(address@),
            Value::Other => ValueModel::Other,
        }),
{
}

/// What [`values_model`] holds at each place.
pub proof fn lemma_values_model(values: Seq<Value>)
    ensures
        values_model(values).len() == values.len(),
        forall|i: int|
            0 <= i < values.len() ==> #[trigger] values_model(values)[i] == value_model(values[i]),
{
    assert forall|i: int| 0 <= i < values.len() implies #[trigger] values_model(values)[i]
        == value_model(values[i]) by {}
}

proof fn lemma_items_model(items: Seq<Item>)
    ensures
        items_model(items).len() == items.len(),
        forall|i: int|
            0 <= i < items.len() ==> (#[trigger] items_model(items)[i]).key == items[i].key@,
        forall|i: int|
            0 <= i < items.len() ==> (#[trigger] items_model(items)[i]).value == value_model(
                items[i].value,
            ),
{
    assert forall|i: int| 0 <= i < items.len() implies (#[trigger] items_model(items)[i]).key
        == items[i].key@ && items_model(items)[i].value == value_model(items[i].value) by {}
}

/// Where the first entry with a key stands; the length if there is none.
pub open spec fn key_index(items: Seq<ItemModel>, key: Seq<char>) -> nat
    decreases items.len(),
{
    if items.len() == 0 {
        0
    } else {
        let before = key_index(items.drop_last(), key);
        if before < items.len() - 1 || items.last().key == key {
            before
        } else {
            items.len()
        }
    }
}

/// The value that a dictionary holds for a key.
pub open spec fn dict_get(items: Seq<ItemModel>, key: Seq<char>) -> Option<ValueModel> {
    let index = key_index(items, key);
    if index < items.len() {
        Some(items[index as int].value)
    } else {
        None
    }
}

/// A dictionary after a value is set for a key: in the place of the value that it had,
/// or at the end.
pub open spec fn dict_set(
    items: Seq<ItemModel>,
    key: Seq<char>,
    value: ValueModel,
) -> Seq<ItemModel> {
    let index = key_index(items, key);
    let item = ItemModel { key, value };
    if index < items.len() {
        items.update(index as int, item)
    } else {
        items.push(item)
    }
}

/// No key occurs twice.
pub open spec fn distinct_keys(items: Seq<ItemModel>) -> bool {
    forall|i: int, j: int|
        0 <= i < j < items.len() ==> (#[trigger] items[i]).key != (#[trigger] items[j]).key
}

/// What [`key_index`] finds.
pub proof fn lemma_key_index(items: Seq<ItemModel>, key: Seq<char>)
    ensures
        key_index(items, key) <= items.len(),
        key_index(items, key) < items.len() ==> items[key_index(items, key) as int].key == key,
        forall|i: int| 0 <= i < key_index(items, key) ==> (#[trigger] items[i]).key != key,
    decreases items.len(),
{
    if items.len() > 0 {
        let shorter = items.drop_last();
        lemma_key_index(shorter, key);
        assert forall|i: int| 0 <= i < key_index(items, key) implies (#[trigger] items[i]).key
            != key by {
            if i < shorter.len() {
                assert(shorter[i] == items[i]);
            }
        }
    }
}

/// Setting a value keeps the keys distinct, and the value is found under its key.
pub proof fn dict_get_after_set(items: Seq<ItemModel>, key: Seq<char>, value: ValueModel)
    requires
        distinct_keys(items),
    ensures
        distinct_keys(dict_set(items, key, value)),
        dict_get(dict_set(items, key, value), key) == Some(value),
        forall|other: Seq<char>|
            other != key ==> #[trigger] dict_get(dict_set(items, key, value), other) == dict_get(
                items,
                other,
            ),
{
    let after = dict_set(items, key, value);
    lemma_key_index(items, key);
    lemma_key_index(after, key);
    let index = key_index(items, key) as int;
    assert(after[index].key == key);
    if key_index(after, key) != index {
        if key_index(after, key) < index {
            let k = key_index(after, key) as int;
            assert(after[k] == items[k]);
        }
    }
    assert forall|other: Seq<char>| other != key implies #[trigger] dict_get(after, other)
        == dict_get(items, other) by {
        lemma_key_index(items, other);
        lemma_key_index(after, other);
        let a = key_index(after, other) as int;
        let b = key_index(items, other) as int;
        if a < after.len() {
            assert(a != index);
            assert(after[a] == items[a]);
            assert(items[a].key == other);
            if b < a {
                assert(after[b].key != other);
            }
        }
        if b < items.len() {
            assert(b != index);
            assert(after[b] == items[b]);
            if a < b {
                assert(items[a].key != other);
            }
        }
    }
}

impl Dict {
    #[verifier::type_invariant]
    spec fn inv(self) -> bool {
        distinct_keys(items_model(self.items@))
    }

    /// A dictionary without entries.
    pub fn new() -> (dict: Dict)
        ensures
            dict@ == Seq::<ItemModel>::empty(),
    {
        let items: Vec<Item> = Vec::new();
        assert(items_model(items@) =~= Seq::<ItemModel>::empty());
        Dict { items }
    }

    /// How many entries the dictionary has.
    pub fn len(&self) -> (len: usize)
        ensures
            len == self@.len(),
    {
        proof {
            lemma_items_model(self.items@);
        }
        self.items.len()
    }

    /// The key of an entry, by its place.
    pub fn key_at(&self, index: usize) -> (key: &String)
        requires
            index < self@.len(),
        ensures
            key@ == self@[index as int].key,
    {
        proof {
            lemma_items_model(self.items@);
        }
        &self.items[index].key
    }

    /// The value of an entry, by its place.
    pub fn value_at(&self, index: usize) -> (value: &Value)
        requires
            index < self@.len(),
        ensures
            value@ == self@[index as int].value,
    {
        proof {
            lemma_items_model(self.items@);
        }
        &self.items[index].value
    }

    /// The value for a key.
    pub fn get_item(&self, key: &str) -> (value: Option<&Value>)
        ensures
            match value {
                Some(v) => dict_get(self@, key@) == Some(v@),
                None => dict_get(self@, key@) is None,
            },
    {
        proof {
            lemma_items_model(self.items@);
            lemma_key_index(self@, key@);
        }
        let wanted: String = key.to_owned();
        let mut i: usize = 0;
        while i < self.items.len()
            invariant
                wanted@ == key@,
                i <= self.items@.len(),
                self@ == items_model(self.items@),
                self@.len() == self.items@.len(),
                forall|j: int|
                    0 <= j < self@.len() ==> (#[trigger] self@[j]).key == self.items@[j].key@,
                forall|j: int|
                    0 <= j < self@.len() ==> (#[trigger] self@[j]).value == value_model(
                        self.items@[j].value,
                    ),
                forall|j: int| 0 <= j < i ==> (#[trigger] self@[j]).key != key@,
                key_index(self@, key@) <= self@.len(),
                key_index(self@, key@) < self@.len() ==> self@[key_index(
                    self@,
                    key@,
                ) as int].key == key@,
                forall|j: int|
                    0 <= j < key_index(self@, key@) ==> (#[trigger] self@[j]).key != key@,
            decreases self.items@.len() - i,
        {
            if self.items[i].key == wanted {
                assert(self@[i as int].key == key@);
                return Some(&self.items[i].value);
            }
            assert(self@[i as int].key != key@);
            i = i + 1;
        }
        None
    }

    /// Sets the value for a key.
    pub fn set_item(&mut self, key: String, value: Value)
        ensures
            final(self)@ == dict_set(old(self)@, key@, value@),
    {
        proof {
            use_type_invariant(&*self);
            dict_get_after_set(self@, key@, value@);
            lemma_key_index(self@, key@);
            lemma_items_model(self.items@);
        }
        let ghost before = self@;
        let mut items: Vec<Item> = Vec::new();
        assert(items_model(items@) =~= Seq::<ItemModel>::empty());
        std::mem::swap(&mut items, &mut self.items);
        let mut i: usize = 0;
        while i < items.len() && !(items[i].key == key)
            invariant
                i <= items@.len(),
                items_model(items@) == before,
                before.len() == items@.len(),
                forall|j: int|
                    0 <= j < before.len() ==> (#[trigger] before[j]).key == items@[j].key@,
                forall|j: int| 0 <= j < i ==> (#[trigger] before[j]).key != key@,
            decreases items@.len() - i,
        {
            assert(before[i as int].key != key@);
            i = i + 1;
        }
        let ghost old_items = items@;
        if i < items.len() {
            assert(before[i as int].key == key@);
            assert(key_index(before, key@) == i);
            items.set(i, Item { key, value });
        } else {
            assert(key_index(before, key@) == before.len());
            items.push(Item { key, value });
        }
        proof {
            lemma_items_model(old_items);
            lemma_items_model(items@);
            assert(items_model(items@) =~= dict_set(before, key@, value@));
        }
        self.items = items;
    }
}

/// The integer that Python takes an object for: `bool` is a kind of `int`.
pub open spec fn as_integer(value: ValueModel) -> Option<int> {
    match value {
        ValueModel::Bool(b) => Some(if b { 1 } else { 0 }),
        ValueModel::Int(n) => Some(n),
        _ => None,
    }
}

/// An integer read from an object.
pub open spec fn read_int(value: ValueModel) -> Result<int, ErrorModel> {
    match as_integer(value) {
        Some(n) => Ok(n),
        None => Err(ErrorModel::Type(PyKind::Int)),
    }
}

/// An integer read from an object, which has to be from zero to `max`.
pub open spec fn read_up_to(value: ValueModel, max: int) -> Result<int, ErrorModel> {
    match read_int(value) {
        Ok(n) => if 0 <= n <= max {
            Ok(n)
        } else {
            Err(ErrorModel::Overflow)
        },
        Err(e) => Err(e),
    }
}

/// An integer read from an object, which must not be negative.
pub open spec fn read_uint(value: ValueModel) -> Result<nat, ErrorModel> {
    match read_int(value) {
        Ok(n) => if 0 <= n {
            Ok(n as nat)
        } else {
            Err(ErrorModel::Overflow)
        },
        Err(e) => Err(e),
    }
}

impl Value {
    /// Whether the object is `None`.
    pub fn is_none(&self) -> (none: bool)
        ensures
            none == (self@ is PyNone),
    {
        broadcast use lemma_value_model;

        match self {
            Value::PyNone => true,
            _ => false,
        }
    }

    /// The integer that the object is.
    pub fn extract_bigint(&self) -> (number: Result<BigInt, AbiError>)
        ensures
            match number {
                Ok(n) => read_int(self@) == Ok::<int, ErrorModel>(n@),
                Err(e) => read_int(self@) == Err::<int, ErrorModel>(e@),
            },
    {
        broadcast use lemma_value_model;

        match self {
            Value::Bool(b) => Ok(BigInt::new(false, BigUint::from_u128(if *b { 1 } else { 0 }))),
            Value::Int(n) => Ok(n.clone()),
            _ => Err(AbiError::Type(PyKind::Int)),
        }
    }

    /// The integer that the object is, which must not be negative.
    pub fn extract_biguint(&self) -> (number: Result<BigUint, AbiError>)
        ensures
            match number {
                Ok(n) => read_uint(self@) == Ok::<nat, ErrorModel>(n@),
                Err(e) => read_uint(self@) == Err::<nat, ErrorModel>(e@),
            },
    {
        match self.extract_bigint() {
            Ok(n) => if n.is_negative() {
                Err(AbiError::Overflow)
            } else {
                Ok(n.magnitude())
            },
            Err(e) => Err(e),
        }
    }

    /// The integer that the object is, if it fits.
    pub fn extract_u128(&self) -> (number: Result<u128, AbiError>)
        ensures
            match number {
                Ok(n) => read_up_to(self@, u128::MAX as int) == Ok::<int, ErrorModel>(n as int),
                Err(e) => read_up_to(self@, u128::MAX as int) == Err::<int, ErrorModel>(e@),
            },
    {
        match self.extract_biguint() {
            Ok(n) => match n.to_u128() {
                Some(v) => Ok(v),
                None => Err(AbiError::Overflow),
            },
            Err(e) => Err(e),
        }
    }

    /// The integer that the object is, if it fits.
    pub fn extract_u64(&self) -> (number: Result<u64, AbiError>)
        ensures
            match number {
                Ok(n) => read_up_to(self@, u64::MAX as int) == Ok::<int, ErrorModel>(n as int),
                Err(e) => read_up_to(self@, u64::MAX as int) == Err::<int, ErrorModel>(e@),
            },
    {
        match self.extract_u128() {
            Ok(n) => if n <= u64::MAX as u128 {
                Ok(n as u64)
            } else {
                Err(AbiError::Overflow)
            },
            Err(e) => Err(e),
        }
    }

    /// The integer that the object is, if it fits.
    pub fn extract_u32(&self) -> (number: Result<u32, AbiError>)
        ensures
            match number {
                Ok(n) => read_up_to(self@, u32::MAX as int) == Ok::<int, ErrorModel>(n as int),
                Err(e) => read_up_to(self@, u32::MAX as int) == Err::<int, ErrorModel>(e@),
            },
    {
        match self.extract_u128() {
            Ok(n) => if n <= u32::MAX as u128 {
                Ok(n as u32)
            } else {
                Err(AbiError::Overflow)
            },
            Err(e) => Err(e),
        }
    }
}

} // verus!
