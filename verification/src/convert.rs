//! From tokens to Python objects.

use crate::error::{AbiError, ErrorModel, Reason, ReasonModel};
use crate::keys::hex_text;
use crate::ledger::{account_address, MsgAddress, MsgAddressModel};
use crate::numbers::{BigInt, BigUint};
use crate::token::{
    entries_model, lemma_entries_model, lemma_mapping_model, lemma_named_tokens_model,
    lemma_token_values_model,
    named_tokens_model, token_model, token_values_model, MapEntry, MapEntryModel, MapKeyModel,
    MapKeyTokenValue, NamedTokenModel, Token, TokenModel, TokenValue,
};
use crate::value::{
    dict_set, lemma_value_model, lemma_values_model, values_model, Dict, ItemModel, Value,
    ValueModel,
};
use vstd::prelude::*;

verus! {

/// The object for an address: the address of an account has one.
pub open spec fn convert_address_model(address: MsgAddressModel) -> Result<
    ValueModel,
    ErrorModel,
> {
    match account_address(address) {
        Some(account) => Ok(ValueModel::Address(account)),
        None => Err(ErrorModel::Runtime(ReasonModel::AddressType)),
    }
}

/// The object for the value of a parameter, or the first exception.
pub open spec fn convert_model(token: TokenModel) -> Result<ValueModel, ErrorModel>
    decreases token, 0nat,
{
    match token {
        TokenModel::Uint(number, _) => Ok(ValueModel::Int(number as int)),
        TokenModel::Int(number, _) => Ok(ValueModel::Int(number)),
        TokenModel::VarUint(_, number) => Ok(ValueModel::Int(number as int)),
        TokenModel::VarInt(_, number) => Ok(ValueModel::Int(number)),
        TokenModel::Bool(b) => Ok(ValueModel::Bool(b)),
        TokenModel::Tuple(tokens) => match convert_named_model(tokens) {
            Ok(items) => Ok(ValueModel::Dict(items)),
            Err(e) => Err(e),
        },
        TokenModel::Array(_, tokens) => match convert_list_model(tokens) {
            Ok(values) => Ok(ValueModel::List(values)),
            Err(e) => Err(e),
        },
        TokenModel::FixedArray(_, tokens) => match convert_list_model(tokens) {
            Ok(values) => Ok(ValueModel::List(values)),
            Err(e) => Err(e),
        },
        TokenModel::Cell(cell) => Ok(ValueModel::Cell(cell)),
        TokenModel::Mapping(_, _, entries) => match convert_entries_model(entries) {
            Ok(values) => Ok(ValueModel::List(values)),
            Err(e) => Err(e),
        },
        TokenModel::Address(address) => convert_address_model(address),
        TokenModel::Bytes(bytes) => Ok(ValueModel::Bytes(bytes)),
        TokenModel::FixedBytes(bytes) => Ok(ValueModel::Bytes(bytes)),
        TokenModel::String(text) => Ok(ValueModel::Str(text)),
        TokenModel::Token(amount) => Ok(ValueModel::Int(amount as int)),
        TokenModel::Time(time) => Ok(ValueModel::Int(time as int)),
        TokenModel::Expire(time) => Ok(ValueModel::Int(time as int)),
        TokenModel::PublicKey(key) => match key {
            Some(bytes) => Ok(ValueModel::Str(hex_text(bytes))),
            None => Ok(ValueModel::PyNone),
        },
        TokenModel::Optional(_, inner) => match inner {
            Some(value) => convert_model(*value),
            None => Ok(ValueModel::PyNone),
        },
        TokenModel::Ref(inner) => convert_model(*inner),
    }
}

/// The objects for values, in order; the first value that gives an exception decides.
pub open spec fn convert_list_model(tokens: Seq<TokenModel>) -> Result<
    Seq<ValueModel>,
    ErrorModel,
>
    decreases tokens, 0nat,
{
    if tokens.len() == 0 {
        Ok(Seq::empty())
    } else {
        match convert_list_model(tokens.drop_last()) {
            Ok(values) => match convert_model(tokens.last()) {
                Ok(value) => Ok(values.push(value)),
                Err(e) => Err(e),
            },
            Err(e) => Err(e),
        }
    }
}

/// The dictionary for named values, each set in turn.
pub open spec fn convert_named_model(tokens: Seq<NamedTokenModel>) -> Result<
    Seq<ItemModel>,
    ErrorModel,
>
    decreases tokens, 0nat,
{
    if tokens.len() == 0 {
        Ok(Seq::empty())
    } else {
        match convert_named_model(tokens.drop_last()) {
            Ok(items) => match convert_model(tokens.last().value) {
                Ok(value) => Ok(dict_set(items, tokens.last().name, value)),
                Err(e) => Err(e),
            },
            Err(e) => Err(e),
        }
    }
}

/// The object for a key.
pub open spec fn convert_key_model(key: MapKeyModel) -> Result<ValueModel, ErrorModel> {
    match key {
        MapKeyModel::Uint(number, _) => Ok(ValueModel::Int(number as int)),
        MapKeyModel::Int(number, _) => Ok(ValueModel::Int(number)),
        MapKeyModel::Address(address) => convert_address_model(address),
    }
}

/// The object for an entry: a tuple of its key and its value.
pub open spec fn convert_entry_model(entry: MapEntryModel) -> Result<ValueModel, ErrorModel>
    decreases entry, 0nat,
{
    match convert_key_model(entry.key) {
        Ok(key) => match convert_model(entry.value) {
            Ok(value) => Ok(ValueModel::Tuple(seq![key, value])),
            Err(e) => Err(e),
        },
        Err(e) => Err(e),
    }
}

/// The objects for entries, in order; the first entry that gives an exception decides.
pub open spec fn convert_entries_model(entries: Seq<MapEntryModel>) -> Result<
    Seq<ValueModel>,
    ErrorModel,
>
    decreases entries, 0nat,
{
    if entries.len() == 0 {
        Ok(Seq::empty())
    } else {
        match convert_entries_model(entries.drop_last()) {
            Ok(values) => match convert_entry_model(entries.last()) {
                Ok(value) => Ok(values.push(value)),
                Err(e) => Err(e),
            },
            Err(e) => Err(e),
        }
    }
}

proof fn lemma_list_error(tokens: Seq<TokenModel>, n: int)
    requires
        0 <= n <= tokens.len(),
        convert_list_model(tokens.take(n)) is Err,
    ensures
        convert_list_model(tokens) == convert_list_model(tokens.take(n)),
    decreases tokens.len(),
{
    if n == tokens.len() {
        assert(tokens.take(n) =~= tokens);
    } else {
        assert(tokens.drop_last().take(n) =~= tokens.take(n));
        lemma_list_error(tokens.drop_last(), n);
    }
}

proof fn lemma_named_error(tokens: Seq<NamedTokenModel>, n: int)
    requires
        0 <= n <= tokens.len(),
        convert_named_model(tokens.take(n)) is Err,
    ensures
        convert_named_model(tokens) == convert_named_model(tokens.take(n)),
    decreases tokens.len(),
{
    if n == tokens.len() {
        assert(tokens.take(n) =~= tokens);
    } else {
        assert(tokens.drop_last().take(n) =~= tokens.take(n));
        lemma_named_error(tokens.drop_last(), n);
    }
}

proof fn lemma_entries_error(entries: Seq<MapEntryModel>, n: int)
    requires
        0 <= n <= entries.len(),
        convert_entries_model(entries.take(n)) is Err,
    ensures
        convert_entries_model(entries) == convert_entries_model(entries.take(n)),
    decreases entries.len(),
{
    if n == entries.len() {
        assert(entries.take(n) =~= entries);
    } else {
        assert(entries.drop_last().take(n) =~= entries.take(n));
        lemma_entries_error(entries.drop_last(), n);
    }
}

/// The `int` for a number that is not negative.
fn python_int(number: BigUint) -> (value: Value)
    ensures
        value@ == ValueModel::Int(number@ as int),
{
    broadcast use lemma_value_model;

    Value::Int(BigInt::new(false, number))
}

/// The object for an address.
pub fn convert_addr_token(address: MsgAddress) -> (value: Result<Value, AbiError>)
    ensures
        match value {
            Ok(v) => convert_address_model(address@) == Ok::<ValueModel, ErrorModel>(v@),
            Err(e) => convert_address_model(address@) == Err::<ValueModel, ErrorModel>(e@),
        },
{
    broadcast use lemma_value_model;

    match address.into_account() {
        Some(account) => Ok(Value::Address(account)),
        None => Err(AbiError::Runtime(Reason::AddressType)),
    }
}

/// The object for the value of a parameter.
pub fn convert_token(token: TokenValue) -> (value: Result<Value, AbiError>)
    ensures
        match value {
            Ok(v) => convert_model(token@) == Ok::<ValueModel, ErrorModel>(v@),
            Err(e) => convert_model(token@) == Err::<ValueModel, ErrorModel>(e@),
        },
    decreases token, 0nat,
{
    broadcast use lemma_value_model;

    match token {
        TokenValue::Uint(n) => Ok(python_int(n.number)),
        TokenValue::Int(n) => Ok(Value::Int(n.number)),
        TokenValue::VarUint(_, number) => Ok(python_int(number)),
        TokenValue::VarInt(_, number) => Ok(Value::Int(number)),
        TokenValue::Bool(b) => Ok(Value::Bool(b)),
        TokenValue::Tuple(tokens) => match convert_tokens(tokens) {
            Ok(dict) => Ok(Value::Dict(dict)),
            Err(e) => Err(e),
        },
        TokenValue::Array(_, tokens) => match convert_list(tokens) {
            Ok(values) => Ok(Value::List(values)),
            Err(e) => Err(e),
        },
        TokenValue::FixedArray(_, tokens) => match convert_list(tokens) {
            Ok(values) => Ok(Value::List(values)),
            Err(e) => Err(e),
        },
        TokenValue::Cell(cell) => Ok(Value::Cell(cell)),
        TokenValue::Mapping(_, _, mapping) => {
            proof {
                lemma_mapping_model(mapping);
            }
            match convert_entries(mapping.entries) {
                Ok(values) => Ok(Value::List(values)),
                Err(e) => Err(e),
            }
        },
        TokenValue::Address(address) => convert_addr_token(address),
        TokenValue::Bytes(bytes) => Ok(Value::Bytes(bytes)),
        TokenValue::FixedBytes(bytes) => Ok(Value::Bytes(bytes)),
        TokenValue::String(text) => Ok(Value::Str(text)),
        TokenValue::Token(amount) => Ok(python_int(BigUint::from_u128(amount))),
        TokenValue::Time(time) => Ok(python_int(BigUint::from_u128(time as u128))),
        TokenValue::Expire(time) => Ok(python_int(BigUint::from_u128(time as u128))),
        TokenValue::PublicKey(key) => match key {
            Some(key) => Ok(Value::Str(key.to_hex())),
            None => Ok(Value::PyNone),
        },
        TokenValue::Optional(_, inner) => match inner {
            Some(value) => convert_token(*value),
            None => Ok(Value::PyNone),
        },
        TokenValue::Ref(inner) => convert_token(*inner),
    }
}

/// The objects for the values of a list.
fn convert_list(tokens: Vec<TokenValue>) -> (values: Result<Vec<Value>, AbiError>)
    ensures
        match values {
            Ok(vs) => convert_list_model(token_values_model(tokens@)) == Ok::<
                Seq<ValueModel>,
                ErrorModel,
            >(values_model(vs@)),
            Err(e) => convert_list_model(token_values_model(tokens@)) == Err::<
                Seq<ValueModel>,
                ErrorModel,
            >(e@),
        },
    decreases tokens@, 0nat,
{
    let ghost model = token_values_model(tokens@);
    proof {
        lemma_token_values_model(tokens@);
    }
    let mut values: Vec<Value> = Vec::with_capacity(tokens.len());
    proof {
        lemma_values_model(values@);
        assert(model.take(0) =~= Seq::<TokenModel>::empty());
        assert(values_model(values@) =~= Seq::<ValueModel>::empty());
    }
    for token in it: tokens
        invariant
            it.seq() == tokens@,
            model == token_values_model(tokens@),
            model.len() == tokens@.len(),
            forall|j: int| 0 <= j < tokens@.len() ==> #[trigger] model[j] == token_model(tokens@[j]),
            convert_list_model(model.take(it.index() as int)) == Ok::<
                Seq<ValueModel>,
                ErrorModel,
            >(values_model(values@)),
    {
        let ghost i = it.index() as int;
        proof {
            assert(token == tokens@[i]);
            assert(model.take(i + 1).drop_last() =~= model.take(i));
            assert(model.take(i + 1).last() == token_model(tokens@[i]));
        }
        match convert_token(token) {
            Ok(value) => {
                let ghost before = values@;
                values.push(value);
                proof {
                    lemma_values_model(before);
                    lemma_values_model(values@);
                    assert(values_model(values@) =~= values_model(before).push(value@));
                }
            },
            Err(e) => {
                proof {
                    lemma_list_error(model, i + 1);
                }
                return Err(e);
            },
        }
    }
    assert(model.take(tokens@.len() as int) =~= model);
    Ok(values)
}

/// The dictionary for named values.
pub fn convert_tokens(tokens: Vec<Token>) -> (dict: Result<Dict, AbiError>)
    ensures
        match dict {
            Ok(d) => convert_named_model(named_tokens_model(tokens@)) == Ok::<
                Seq<ItemModel>,
                ErrorModel,
            >(d@),
            Err(e) => convert_named_model(named_tokens_model(tokens@)) == Err::<
                Seq<ItemModel>,
                ErrorModel,
            >(e@),
        },
    decreases tokens@, 0nat,
{
    let ghost model = named_tokens_model(tokens@);
    proof {
        lemma_named_tokens_model(tokens@);
    }
    let mut result: Dict = Dict::new();
    assert(model.take(0) =~= Seq::<NamedTokenModel>::empty());
    for token in it: tokens
        invariant
            it.seq() == tokens@,
            model == named_tokens_model(tokens@),
            model.len() == tokens@.len(),
            forall|j: int| 0 <= j < tokens@.len() ==> #[trigger] model[j] == tokens@[j]@,
            convert_named_model(model.take(it.index() as int)) == Ok::<Seq<ItemModel>, ErrorModel>(
                result@,
            ),
    {
        let ghost i = it.index() as int;
        proof {
            assert(token == tokens@[i]);
            assert(model.take(i + 1).drop_last() =~= model.take(i));
            assert(model.take(i + 1).last() == tokens@[i]@);
        }
        match convert_token(token.value) {
            Ok(value) => result.set_item(token.name, value),
            Err(e) => {
                proof {
                    lemma_named_error(model, i + 1);
                }
                return Err(e);
            },
        }
    }
    assert(model.take(tokens@.len() as int) =~= model);
    Ok(result)
}

/// The object for an entry of a dictionary.
pub fn convert_map_entry_token(entry: MapEntry) -> (value: Result<Value, AbiError>)
    ensures
        match value {
            Ok(v) => convert_entry_model(entry@) == Ok::<ValueModel, ErrorModel>(v@),
            Err(e) => convert_entry_model(entry@) == Err::<ValueModel, ErrorModel>(e@),
        },
    decreases entry, 0nat,
{
    broadcast use lemma_value_model;

    let key: Value = match entry.key {
        MapKeyTokenValue::Uint(n) => python_int(n.number),
        MapKeyTokenValue::Int(n) => Value::Int(n.number),
        MapKeyTokenValue::Address(address) => match convert_addr_token(address) {
            Ok(value) => value,
            Err(e) => {
                return Err(e);
            },
        },
    };
    match convert_token(entry.value) {
        Ok(value) => {
            let mut elements: Vec<Value> = Vec::with_capacity(2);
            elements.push(key);
            elements.push(value);
            proof {
                lemma_values_model(elements@);
                assert(values_model(elements@) =~= seq![key@, value@]);
            }
            Ok(Value::Tuple(elements))
        },
        Err(e) => Err(e),
    }
}

/// The objects for the entries of a dictionary.
fn convert_entries(entries: Vec<MapEntry>) -> (values: Result<Vec<Value>, AbiError>)
    ensures
        match values {
            Ok(vs) => convert_entries_model(entries_model(entries@)) == Ok::<
                Seq<ValueModel>,
                ErrorModel,
            >(values_model(vs@)),
            Err(e) => convert_entries_model(entries_model(entries@)) == Err::<
                Seq<ValueModel>,
                ErrorModel,
            >(e@),
        },
    decreases entries@, 0nat,
{
    let ghost model = entries_model(entries@);
    proof {
        lemma_entries_model(entries@);
    }
    let mut values: Vec<Value> = Vec::with_capacity(entries.len());
    proof {
        lemma_values_model(values@);
        assert(model.take(0) =~= Seq::<MapEntryModel>::empty());
        assert(values_model(values@) =~= Seq::<ValueModel>::empty());
    }
    for entry in it: entries
        invariant
            it.seq() == entries@,
            model == entries_model(entries@),
            model.len() == entries@.len(),
            forall|j: int| 0 <= j < entries@.len() ==> #[trigger] model[j] == entries@[j]@,
            convert_entries_model(model.take(it.index() as int)) == Ok::<
                Seq<ValueModel>,
                ErrorModel,
            >(values_model(values@)),
    {
        let ghost i = it.index() as int;
        proof {
            assert(entry == entries@[i]);
            assert(model.take(i + 1).drop_last() =~= model.take(i));
            assert(model.take(i + 1).last() == entries@[i]@);
        }
        match convert_map_entry_token(entry) {
            Ok(value) => {
                let ghost before = values@;
                values.push(value);
                proof {
                    lemma_values_model(before);
                    lemma_values_model(values@);
                    assert(values_model(values@) =~= values_model(before).push(value@));
                }
            },
            Err(e) => {
                proof {
                    lemma_entries_error(model, i + 1);
                }
                return Err(e);
            },
        }
    }
    assert(model.take(entries@.len() as int) =~= model);
    Ok(values)
}

} // verus!
