//! From Python objects to tokens.

use crate::error::{AbiError, ErrorModel, PyKind, Reason, ReasonModel};
use crate::keys::{key_from_text, parse_key_text, KeyTextError, KeyTextErrorModel};
use crate::ledger::{copy_bytes, message_address, MsgAddress};
use crate::param::{
    lemma_params_model, param_model, params_model, KindModel, Param, ParamModel, ParamType,
};
use crate::token::{
    lemma_named_tokens_model, lemma_token_values_model, map_insert, named_tokens_model,
    token_values_model, Int, MapEntries, MapEntry, MapEntryModel, MapKeyModel, MapKeyTokenValue,
    NamedTokenModel, Token, TokenModel, TokenValue, Uint,
};
use crate::value::{
    dict_get, lemma_value_model, lemma_values_model, read_int, read_uint, read_up_to, value_model,
    values_model, Dict, ItemModel, Value, ValueModel,
};
use vstd::prelude::*;

verus! {

/// An amount that the ledger library does not take as an amount of tokens, and its
/// words. Which amounts those are, `ton_block::Grams::new` decides.
#[derive(Debug, PartialEq, Eq)]
pub struct Refusal {
    pub amount: u128,
    pub words: String,
}

/// [`Refusal`] over a sequence of characters.
pub struct RefusalModel {
    pub amount: u128,
    pub words: Seq<char>,
}

impl View for Refusal {
    type V = RefusalModel;

    open spec fn view(&self) -> RefusalModel {
        RefusalModel { amount: self.amount, words: self.words@ }
    }
}

/// The models of refusals, in order.
pub open spec fn refusals_model(refusals: Seq<Refusal>) -> Seq<RefusalModel> {
    Seq::new(refusals.len(), |i: int| refusals[i]@)
}

/// The words with which an amount is refused, if it is.
pub open spec fn refusal_of(refusals: Seq<RefusalModel>, amount: u128) -> Option<Seq<char>>
    decreases refusals.len(),
{
    if refusals.len() == 0 {
        None
    } else if refusals[0].amount == amount {
        Some(refusals[0].words)
    } else {
        refusal_of(refusals.drop_first(), amount)
    }
}

/// What an object gives for a parameter of a type: its token, or the first exception.
pub open spec fn parse_model(
    kind: KindModel,
    value: ValueModel,
    refusals: Seq<RefusalModel>,
) -> Result<TokenModel, ErrorModel>
    decreases kind, 0nat,
{
    match kind {
        KindModel::Uint(size) => match read_uint(value) {
            Ok(number) => Ok(TokenModel::Uint(number, size)),
            Err(e) => Err(e),
        },
        KindModel::Int(size) => match read_int(value) {
            Ok(number) => Ok(TokenModel::Int(number, size)),
            Err(e) => Err(e),
        },
        KindModel::VarUint(size) => match read_uint(value) {
            Ok(number) => Ok(TokenModel::VarUint(size, number)),
            Err(e) => Err(e),
        },
        KindModel::VarInt(size) => match read_int(value) {
            Ok(number) => Ok(TokenModel::VarInt(size, number)),
            Err(e) => Err(e),
        },
        KindModel::Bool => match value {
            ValueModel::Bool(b) => Ok(TokenModel::Bool(b)),
            _ => Err(ErrorModel::Type(PyKind::Bool)),
        },
        KindModel::Tuple(params) => match value {
            ValueModel::Dict(items) => match parse_params_model(params, items, refusals) {
                Ok(tokens) => Ok(TokenModel::Tuple(tokens)),
                Err(e) => Err(e),
            },
            _ => Err(ErrorModel::Type(PyKind::Dict)),
        },
        KindModel::Array(ty) => match value {
            ValueModel::List(values) => match parse_list_model(*ty, values, refusals) {
                Ok(tokens) => Ok(TokenModel::Array(*ty, tokens)),
                Err(e) => Err(e),
            },
            _ => Err(ErrorModel::Type(PyKind::List)),
        },
        KindModel::FixedArray(ty, len) => match value {
            ValueModel::List(values) => if values.len() != len {
                Err(ErrorModel::Value(ReasonModel::FixedArrayLength))
            } else {
                match parse_list_model(*ty, values, refusals) {
                    Ok(tokens) => Ok(TokenModel::FixedArray(*ty, tokens)),
                    Err(e) => Err(e),
                }
            },
            _ => Err(ErrorModel::Type(PyKind::List)),
        },
        KindModel::Cell => match value {
            ValueModel::Cell(cell) => Ok(TokenModel::Cell(cell)),
            _ => Err(ErrorModel::Type(PyKind::Cell)),
        },
        KindModel::Mapping(key_ty, value_ty) => match value {
            ValueModel::List(items) => match parse_entries_model(
                *key_ty,
                *value_ty,
                items,
                refusals,
            ) {
                Ok(entries) => Ok(TokenModel::Mapping(*key_ty, *value_ty, entries)),
                Err(e) => Err(e),
            },
            _ => Err(ErrorModel::Type(PyKind::List)),
        },
        KindModel::Address => match value {
            ValueModel::Address(address) => Ok(TokenModel::Address(message_address(address))),
            _ => Err(ErrorModel::Type(PyKind::Address)),
        },
        KindModel::Bytes => match value {
            ValueModel::Bytes(bytes) => Ok(TokenModel::Bytes(bytes)),
            _ => Err(ErrorModel::Type(PyKind::Bytes)),
        },
        KindModel::FixedBytes(len) => match value {
            ValueModel::Bytes(bytes) => if bytes.len() != len {
                Err(ErrorModel::Value(ReasonModel::FixedBytesLength))
            } else {
                Ok(TokenModel::FixedBytes(bytes))
            },
            _ => Err(ErrorModel::Type(PyKind::Bytes)),
        },
        KindModel::String => match value {
            ValueModel::Str(text) => Ok(TokenModel::String(text)),
            _ => Err(ErrorModel::Type(PyKind::Str)),
        },
        KindModel::Token => match read_up_to(value, u128::MAX as int) {
            Ok(amount) => match refusal_of(refusals, amount as u128) {
                Some(words) => Err(ErrorModel::Runtime(ReasonModel::Reported(words))),
                None => Ok(TokenModel::Token(amount as u128)),
            },
            Err(e) => Err(e),
        },
        KindModel::Time => match read_up_to(value, u64::MAX as int) {
            Ok(time) => Ok(TokenModel::Time(time as u64)),
            Err(e) => Err(e),
        },
        KindModel::Expire => match read_up_to(value, u32::MAX as int) {
            Ok(time) => Ok(TokenModel::Expire(time as u32)),
            Err(e) => Err(e),
        },
        KindModel::PublicKey => match value {
            ValueModel::PyNone => Ok(TokenModel::PublicKey(None)),
            ValueModel::Str(text) => match key_from_text(text) {
                Ok(key) => Ok(TokenModel::PublicKey(Some(key))),
                Err(KeyTextErrorModel::Hex(e)) => Err(ErrorModel::Runtime(ReasonModel::Hex(e))),
                Err(KeyTextErrorModel::Key(words)) => Err(
                    ErrorModel::Runtime(ReasonModel::Reported(words)),
                ),
            },
            _ => Err(ErrorModel::Type(PyKind::Str)),
        },
        KindModel::Optional(ty) => match value {
            ValueModel::PyNone => Ok(TokenModel::Optional(*ty, None)),
            _ => match parse_model(*ty, value, refusals) {
                Ok(inner) => Ok(TokenModel::Optional(*ty, Some(Box::new(inner)))),
                Err(e) => Err(e),
            },
        },
        KindModel::Ref(ty) => match parse_model(*ty, value, refusals) {
            Ok(inner) => Ok(TokenModel::Ref(Box::new(inner))),
            Err(e) => Err(e),
        },
    }
}

/// What the objects of a list give for the type of its elements: the first object that
/// gives an exception decides.
pub open spec fn parse_list_model(
    ty: KindModel,
    values: Seq<ValueModel>,
    refusals: Seq<RefusalModel>,
) -> Result<Seq<TokenModel>, ErrorModel>
    decreases ty, values.len() + 1,
{
    if values.len() == 0 {
        Ok(Seq::empty())
    } else {
        match parse_list_model(ty, values.drop_last(), refusals) {
            Ok(tokens) => match parse_model(ty, values.last(), refusals) {
                Ok(token) => Ok(tokens.push(token)),
                Err(e) => Err(e),
            },
            Err(e) => Err(e),
        }
    }
}

/// What a dictionary gives for parameters: a token for each, in order, under its name.
/// The first parameter that is missing or gives an exception decides.
pub open spec fn parse_params_model(
    params: Seq<ParamModel>,
    items: Seq<ItemModel>,
    refusals: Seq<RefusalModel>,
) -> Result<Seq<NamedTokenModel>, ErrorModel>
    decreases params, 0nat,
{
    if params.len() == 0 {
        Ok(Seq::empty())
    } else {
        match parse_params_model(params.drop_last(), items, refusals) {
            Ok(tokens) => {
                let param = params.last();
                match dict_get(items, param.name) {
                    Some(value) => match parse_model(param.kind, value, refusals) {
                        Ok(token) => Ok(
                            tokens.push(NamedTokenModel { name: param.name, value: token }),
                        ),
                        Err(e) => Err(e),
                    },
                    None => Err(ErrorModel::Runtime(ReasonModel::ParamNotFound(param.name))),
                }
            },
            Err(e) => Err(e),
        }
    }
}

/// What an object gives as the key of an entry: integers and addresses can be keys.
pub open spec fn parse_key_model(ty: KindModel, value: ValueModel) -> Result<
    MapKeyModel,
    ErrorModel,
> {
    match ty {
        KindModel::Uint(size) => match read_uint(value) {
            Ok(number) => Ok(MapKeyModel::Uint(number, size)),
            Err(e) => Err(e),
        },
        KindModel::Int(size) => match read_int(value) {
            Ok(number) => Ok(MapKeyModel::Int(number, size)),
            Err(e) => Err(e),
        },
        KindModel::Address => match value {
            ValueModel::Address(address) => Ok(MapKeyModel::Address(message_address(address))),
            _ => Err(ErrorModel::Type(PyKind::Address)),
        },
        _ => Err(ErrorModel::Value(ReasonModel::MapKeyType)),
    }
}

/// What an object gives as an entry: a tuple of a key and a value, of which any further
/// elements are not read.
pub open spec fn parse_entry_model(
    key_ty: KindModel,
    value_ty: KindModel,
    item: ValueModel,
    refusals: Seq<RefusalModel>,
) -> Result<MapEntryModel, ErrorModel>
    decreases value_ty, 1nat,
{
    match item {
        ValueModel::Tuple(elements) => if elements.len() == 0 {
            Err(ErrorModel::Value(ReasonModel::MapKeyMissing))
        } else {
            match parse_key_model(key_ty, elements[0]) {
                Ok(key) => if elements.len() == 1 {
                    Err(ErrorModel::Value(ReasonModel::MapValueMissing))
                } else {
                    match parse_model(value_ty, elements[1], refusals) {
                        Ok(value) => Ok(MapEntryModel { key, value }),
                        Err(e) => Err(e),
                    }
                },
                Err(e) => Err(e),
            }
        },
        _ => Err(ErrorModel::Type(PyKind::Tuple)),
    }
}

/// What the objects of a list give as the entries of a dictionary, each set in turn.
pub open spec fn parse_entries_model(
    key_ty: KindModel,
    value_ty: KindModel,
    items: Seq<ValueModel>,
    refusals: Seq<RefusalModel>,
) -> Result<Seq<MapEntryModel>, ErrorModel>
    decreases value_ty, items.len() + 2,
{
    if items.len() == 0 {
        Ok(Seq::empty())
    } else {
        match parse_entries_model(key_ty, value_ty, items.drop_last(), refusals) {
            Ok(entries) => match parse_entry_model(key_ty, value_ty, items.last(), refusals) {
                Ok(entry) => Ok(map_insert(entries, entry.key, entry.value)),
                Err(e) => Err(e),
            },
            Err(e) => Err(e),
        }
    }
}

/// An exception that some of the objects of a list give, the whole list gives.
proof fn lemma_list_error(
    ty: KindModel,
    values: Seq<ValueModel>,
    n: int,
    refusals: Seq<RefusalModel>,
)
    requires
        0 <= n <= values.len(),
        parse_list_model(ty, values.take(n), refusals) is Err,
    ensures
        parse_list_model(ty, values, refusals) == parse_list_model(ty, values.take(n), refusals),
    decreases values.len(),
{
    if n == values.len() {
        assert(values.take(n) =~= values);
    } else {
        assert(values.drop_last().take(n) =~= values.take(n));
        lemma_list_error(ty, values.drop_last(), n, refusals);
    }
}

/// An exception that some of the entries of a list give, the whole list gives.
proof fn lemma_entries_error(
    key_ty: KindModel,
    value_ty: KindModel,
    items: Seq<ValueModel>,
    n: int,
    refusals: Seq<RefusalModel>,
)
    requires
        0 <= n <= items.len(),
        parse_entries_model(key_ty, value_ty, items.take(n), refusals) is Err,
    ensures
        parse_entries_model(key_ty, value_ty, items, refusals) == parse_entries_model(
            key_ty,
            value_ty,
            items.take(n),
            refusals,
        ),
    decreases items.len(),
{
    if n == items.len() {
        assert(items.take(n) =~= items);
    } else {
        assert(items.drop_last().take(n) =~= items.take(n));
        lemma_entries_error(key_ty, value_ty, items.drop_last(), n, refusals);
    }
}

/// An exception that some of the parameters give, all of them give.
pub proof fn lemma_params_error(
    params: Seq<ParamModel>,
    items: Seq<ItemModel>,
    n: int,
    refusals: Seq<RefusalModel>,
)
    requires
        0 <= n <= params.len(),
        parse_params_model(params.take(n), items, refusals) is Err,
    ensures
        parse_params_model(params, items, refusals) == parse_params_model(
            params.take(n),
            items,
            refusals,
        ),
    decreases params.len(),
{
    if n == params.len() {
        assert(params.take(n) =~= params);
    } else {
        assert(params.drop_last().take(n) =~= params.take(n));
        lemma_params_error(params.drop_last(), items, n, refusals);
    }
}

/// Looks an amount up among those that are refused.
fn find_refusal(refusals: &[Refusal], amount: u128) -> (words: Option<String>)
    ensures
        match words {
            Some(w) => refusal_of(refusals_model(refusals@), amount) == Some(w@),
            None => refusal_of(refusals_model(refusals@), amount) is None,
        },
{
    let ghost model = refusals_model(refusals@);
    let mut i: usize = 0;
    assert(model.skip(0) =~= model);
    while i < refusals.len()
        invariant
            i <= refusals@.len(),
            model == refusals_model(refusals@),
            refusal_of(model, amount) == refusal_of(model.skip(i as int), amount),
        decreases refusals@.len() - i,
    {
        assert(model.skip(i as int).drop_first() =~= model.skip(i + 1));
        assert(model.skip(i as int)[0] == refusals@[i as int]@);
        if refusals[i].amount == amount {
            return Some(refusals[i].words.clone());
        }
        i = i + 1;
    }
    assert(model.skip(i as int) =~= Seq::<RefusalModel>::empty());
    None
}

/// The token for a parameter of a type, read from an object. `refusals` holds the
/// amounts in the object that are no amounts of tokens.
pub fn parse_token(param: &ParamType, value: &Value, refusals: &[Refusal]) -> (token: Result<
    TokenValue,
    AbiError,
>)
    ensures
        match token {
            Ok(t) => parse_model(param@, value@, refusals_model(refusals@)) == Ok::<
                TokenModel,
                ErrorModel,
            >(t@),
            Err(e) => parse_model(param@, value@, refusals_model(refusals@)) == Err::<
                TokenModel,
                ErrorModel,
            >(e@),
        },
    decreases param, 0nat,
{
    broadcast use lemma_value_model;

    match param {
        ParamType::Uint(size) => match value.extract_biguint() {
            Ok(number) => Ok(TokenValue::Uint(Uint { number, size: *size })),
            Err(e) => Err(e),
        },
        ParamType::Int(size) => match value.extract_bigint() {
            Ok(number) => Ok(TokenValue::Int(Int { number, size: *size })),
            Err(e) => Err(e),
        },
        ParamType::VarUint(size) => match value.extract_biguint() {
            Ok(number) => Ok(TokenValue::VarUint(*size, number)),
            Err(e) => Err(e),
        },
        ParamType::VarInt(size) => match value.extract_bigint() {
            Ok(number) => Ok(TokenValue::VarInt(*size, number)),
            Err(e) => Err(e),
        },
        ParamType::Bool => match value {
            Value::Bool(b) => Ok(TokenValue::Bool(*b)),
            _ => Err(AbiError::Type(PyKind::Bool)),
        },
        ParamType::Tuple(params) => match value {
            Value::Dict(dict) => match parse_tokens(params.as_slice(), dict, refusals) {
                Ok(tokens) => Ok(TokenValue::Tuple(tokens)),
                Err(e) => Err(e),
            },
            _ => Err(AbiError::Type(PyKind::Dict)),
        },
        ParamType::Array(ty) => match value {
            Value::List(values) => match parse_list(&**ty, values.as_slice(), refusals) {
                Ok(tokens) => Ok(TokenValue::Array((&**ty).clone(), tokens)),
                Err(e) => Err(e),
            },
            _ => Err(AbiError::Type(PyKind::List)),
        },
        ParamType::FixedArray(ty, len) => match value {
            Value::List(values) => {
                proof {
                    lemma_values_model(values@);
                }
                if values.len() != *len {
                    return Err(AbiError::Value(Reason::FixedArrayLength));
                }
                match parse_list(&**ty, values.as_slice(), refusals) {
                    Ok(tokens) => Ok(TokenValue::FixedArray((&**ty).clone(), tokens)),
                    Err(e) => Err(e),
                }
            },
            _ => Err(AbiError::Type(PyKind::List)),
        },
        ParamType::Cell => match value {
            Value::Cell(cell) => Ok(TokenValue::Cell(cell.clone())),
            _ => Err(AbiError::Type(PyKind::Cell)),
        },
        ParamType::Mapping(key_ty, value_ty) => match value {
            Value::List(items) => {
                match parse_entries(&**key_ty, &**value_ty, items.as_slice(), refusals) {
                    Ok(entries) => Ok(
                        TokenValue::Mapping((&**key_ty).clone(), (&**value_ty).clone(), entries),
                    ),
                    Err(e) => Err(e),
                }
            },
            _ => Err(AbiError::Type(PyKind::List)),
        },
        ParamType::Address => match value {
            Value::Address(address) => Ok(TokenValue::Address(MsgAddress::from_account(address))),
            _ => Err(AbiError::Type(PyKind::Address)),
        },
        ParamType::Bytes => match value {
            Value::Bytes(bytes) => Ok(TokenValue::Bytes(copy_bytes(bytes.as_slice()))),
            _ => Err(AbiError::Type(PyKind::Bytes)),
        },
        ParamType::FixedBytes(len) => match value {
            Value::Bytes(bytes) => if bytes.len() != *len {
                Err(AbiError::Value(Reason::FixedBytesLength))
            } else {
                Ok(TokenValue::FixedBytes(copy_bytes(bytes.as_slice())))
            },
            _ => Err(AbiError::Type(PyKind::Bytes)),
        },
        ParamType::String => match value {
            Value::Str(text) => Ok(TokenValue::String(text.clone())),
            _ => Err(AbiError::Type(PyKind::Str)),
        },
        ParamType::Token => match value.extract_u128() {
            Ok(amount) => match find_refusal(refusals, amount) {
                Some(words) => Err(AbiError::Runtime(Reason::Reported(words))),
                None => Ok(TokenValue::Token(amount)),
            },
            Err(e) => Err(e),
        },
        ParamType::Time => match value.extract_u64() {
            Ok(time) => Ok(TokenValue::Time(time)),
            Err(e) => Err(e),
        },
        ParamType::Expire => match value.extract_u32() {
            Ok(time) => Ok(TokenValue::Expire(time)),
            Err(e) => Err(e),
        },
        ParamType::PublicKey => match value {
            Value::PyNone => Ok(TokenValue::PublicKey(None)),
            Value::Str(text) => match parse_key_text(text.as_str()) {
                Ok(key) => Ok(TokenValue::PublicKey(Some(key))),
                Err(KeyTextError::Hex(e)) => Err(AbiError::Runtime(Reason::Hex(e))),
                Err(KeyTextError::Key(words)) => Err(AbiError::Runtime(Reason::Reported(words))),
            },
            _ => Err(AbiError::Type(PyKind::Str)),
        },
        ParamType::Optional(ty) => {
            if value.is_none() {
                return Ok(TokenValue::Optional((&**ty).clone(), None));
            }
            match parse_token(&**ty, value, refusals) {
                Ok(inner) => Ok(TokenValue::Optional((&**ty).clone(), Some(Box::new(inner)))),
                Err(e) => Err(e),
            }
        },
        ParamType::Ref(ty) => match parse_token(&**ty, value, refusals) {
            Ok(inner) => Ok(TokenValue::Ref(Box::new(inner))),
            Err(e) => Err(e),
        },
    }
}

/// The tokens for the elements of a list.
fn parse_list(ty: &ParamType, values: &[Value], refusals: &[Refusal]) -> (tokens: Result<
    Vec<TokenValue>,
    AbiError,
>)
    ensures
        match tokens {
            Ok(ts) => parse_list_model(ty@, values_model(values@), refusals_model(refusals@))
                == Ok::<Seq<TokenModel>, ErrorModel>(token_values_model(ts@)),
            Err(e) => parse_list_model(ty@, values_model(values@), refusals_model(refusals@))
                == Err::<Seq<TokenModel>, ErrorModel>(e@),
        },
    decreases ty, 1nat,
{
    let ghost model = values_model(values@);
    let ghost amounts = refusals_model(refusals@);
    proof {
        lemma_values_model(values@);
    }
    let mut tokens: Vec<TokenValue> = Vec::with_capacity(values.len());
    let mut i: usize = 0;
    proof {
        lemma_token_values_model(tokens@);
        assert(model.take(0) =~= Seq::<ValueModel>::empty());
        assert(token_values_model(tokens@) =~= Seq::<TokenModel>::empty());
    }
    while i < values.len()
        invariant
            i <= values@.len(),
            model == values_model(values@),
            model.len() == values@.len(),
            amounts == refusals_model(refusals@),
            forall|j: int| 0 <= j < values@.len() ==> #[trigger] model[j] == value_model(values@[j]),
            parse_list_model(ty@, model.take(i as int), amounts) == Ok::<
                Seq<TokenModel>,
                ErrorModel,
            >(token_values_model(tokens@)),
        decreases values@.len() - i,
    {
        proof {
            assert(model.take(i + 1).drop_last() =~= model.take(i as int));
            assert(model.take(i + 1).last() == value_model(values@[i as int]));
        }
        match parse_token(ty, &values[i], refusals) {
            Ok(token) => {
                let ghost before = tokens@;
                tokens.push(token);
                proof {
                    lemma_token_values_model(before);
                    lemma_token_values_model(tokens@);
                    assert(token_values_model(tokens@) =~= token_values_model(before).push(token@));
                }
            },
            Err(e) => {
                proof {
                    lemma_list_error(ty@, model, i + 1, amounts);
                }
                return Err(e);
            },
        }
        i = i + 1;
    }
    assert(model.take(i as int) =~= model);
    Ok(tokens)
}

/// The tokens for parameters, read from a dictionary. `refusals` holds the amounts in
/// the dictionary that are no amounts of tokens.
pub fn parse_tokens(params: &[Param], value: &Dict, refusals: &[Refusal]) -> (tokens: Result<
    Vec<Token>,
    AbiError,
>)
    ensures
        match tokens {
            Ok(ts) => parse_params_model(params_model(params@), value@, refusals_model(refusals@))
                == Ok::<Seq<NamedTokenModel>, ErrorModel>(named_tokens_model(ts@)),
            Err(e) => parse_params_model(params_model(params@), value@, refusals_model(refusals@))
                == Err::<Seq<NamedTokenModel>, ErrorModel>(e@),
        },
    decreases params@, 0nat,
{
    let ghost model = params_model(params@);
    let ghost amounts = refusals_model(refusals@);
    proof {
        lemma_params_model(params@);
    }
    let mut tokens: Vec<Token> = Vec::with_capacity(params.len());
    let mut i: usize = 0;
    proof {
        assert(model.take(0) =~= Seq::<ParamModel>::empty());
        assert(named_tokens_model(tokens@) =~= Seq::<NamedTokenModel>::empty());
    }
    while i < params.len()
        invariant
            i <= params@.len(),
            model == params_model(params@),
            model.len() == params@.len(),
            amounts == refusals_model(refusals@),
            forall|j: int| 0 <= j < params@.len() ==> #[trigger] model[j] == param_model(params@[j]),
            parse_params_model(model.take(i as int), value@, amounts) == Ok::<
                Seq<NamedTokenModel>,
                ErrorModel,
            >(named_tokens_model(tokens@)),
        decreases params@.len() - i,
    {
        let param: &Param = &params[i];
        proof {
            assert(model.take(i + 1).drop_last() =~= model.take(i as int));
            assert(model.take(i + 1).last() == param_model(params@[i as int]));
        }
        match value.get_item(param.name.as_str()) {
            Some(object) => match parse_token(&param.kind, object, refusals) {
                Ok(token) => {
                    let ghost before = tokens@;
                    tokens.push(Token { name: param.name.clone(), value: token });
                    proof {
                        lemma_named_tokens_model(before);
                        lemma_named_tokens_model(tokens@);
                        assert(named_tokens_model(tokens@) =~= named_tokens_model(before).push(
                            NamedTokenModel { name: param.name@, value: token@ },
                        ));
                    }
                },
                Err(e) => {
                    proof {
                        lemma_params_error(model, value@, i + 1, amounts);
                    }
                    return Err(e);
                },
            },
            None => {
                proof {
                    lemma_params_error(model, value@, i + 1, amounts);
                }
                return Err(AbiError::Runtime(Reason::ParamNotFound(param.name.clone())));
            },
        }
        i = i + 1;
    }
    assert(model.take(i as int) =~= model);
    Ok(tokens)
}

/// The key of an entry, read from an object.
fn parse_map_key(ty: &ParamType, value: &Value) -> (key: Result<MapKeyTokenValue, AbiError>)
    ensures
        match key {
            Ok(k) => parse_key_model(ty@, value@) == Ok::<MapKeyModel, ErrorModel>(k@),
            Err(e) => parse_key_model(ty@, value@) == Err::<MapKeyModel, ErrorModel>(e@),
        },
{
    broadcast use lemma_value_model;

    match ty {
        ParamType::Uint(size) => match value.extract_biguint() {
            Ok(number) => Ok(MapKeyTokenValue::Uint(Uint { number, size: *size })),
            Err(e) => Err(e),
        },
        ParamType::Int(size) => match value.extract_bigint() {
            Ok(number) => Ok(MapKeyTokenValue::Int(Int { number, size: *size })),
            Err(e) => Err(e),
        },
        ParamType::Address => match value {
            Value::Address(address) => {
                Ok(MapKeyTokenValue::Address(MsgAddress::from_account(address)))
            },
            _ => Err(AbiError::Type(PyKind::Address)),
        },
        _ => Err(AbiError::Value(Reason::MapKeyType)),
    }
}

/// An entry of a dictionary, read from a tuple.
pub fn parse_map_entry_token(
    key_ty: &ParamType,
    value_ty: &ParamType,
    item: &Value,
    refusals: &[Refusal],
) -> (entry: Result<MapEntry, AbiError>)
    ensures
        match entry {
            Ok(en) => parse_entry_model(key_ty@, value_ty@, item@, refusals_model(refusals@))
                == Ok::<MapEntryModel, ErrorModel>(en@),
            Err(e) => parse_entry_model(key_ty@, value_ty@, item@, refusals_model(refusals@))
                == Err::<MapEntryModel, ErrorModel>(e@),
        },
    decreases value_ty, 1nat,
{
    broadcast use lemma_value_model;

    match item {
        Value::Tuple(elements) => {
            proof {
                lemma_values_model(elements@);
            }
            if elements.len() == 0 {
                return Err(AbiError::Value(Reason::MapKeyMissing));
            }
            let key: MapKeyTokenValue = match parse_map_key(key_ty, &elements[0]) {
                Ok(key) => key,
                Err(e) => {
                    return Err(e);
                },
            };
            if elements.len() == 1 {
                return Err(AbiError::Value(Reason::MapValueMissing));
            }
            match parse_token(value_ty, &elements[1], refusals) {
                Ok(value) => Ok(MapEntry { key, value }),
                Err(e) => Err(e),
            }
        },
        _ => Err(AbiError::Type(PyKind::Tuple)),
    }
}

/// The entries of a dictionary, read from a list of tuples.
fn parse_entries(
    key_ty: &ParamType,
    value_ty: &ParamType,
    items: &[Value],
    refusals: &[Refusal],
) -> (entries: Result<MapEntries, AbiError>)
    ensures
        match entries {
            Ok(es) => parse_entries_model(
                key_ty@,
                value_ty@,
                values_model(items@),
                refusals_model(refusals@),
            ) == Ok::<Seq<MapEntryModel>, ErrorModel>(es@),
            Err(e) => parse_entries_model(
                key_ty@,
                value_ty@,
                values_model(items@),
                refusals_model(refusals@),
            ) == Err::<Seq<MapEntryModel>, ErrorModel>(e@),
        },
    decreases value_ty, 2nat,
{
    let ghost model = values_model(items@);
    let ghost amounts = refusals_model(refusals@);
    proof {
        lemma_values_model(items@);
    }
    let mut entries: MapEntries = MapEntries::new();
    let mut i: usize = 0;
    proof {
        assert(model.take(0) =~= Seq::<ValueModel>::empty());
    }
    while i < items.len()
        invariant
            i <= items@.len(),
            model == values_model(items@),
            model.len() == items@.len(),
            amounts == refusals_model(refusals@),
            forall|j: int| 0 <= j < items@.len() ==> #[trigger] model[j] == value_model(items@[j]),
            parse_entries_model(key_ty@, value_ty@, model.take(i as int), amounts) == Ok::<
                Seq<MapEntryModel>,
                ErrorModel,
            >(entries@),
        decreases items@.len() - i,
    {
        proof {
            assert(model.take(i + 1).drop_last() =~= model.take(i as int));
            assert(model.take(i + 1).last() == value_model(items@[i as int]));
        }
        match parse_map_entry_token(key_ty, value_ty, &items[i], refusals) {
            Ok(entry) => entries.insert(entry.key, entry.value),
            Err(e) => {
                proof {
                    lemma_entries_error(key_ty@, value_ty@, model, i + 1, amounts);
                }
                return Err(e);
            },
        }
        i = i + 1;
    }
    assert(model.take(i as int) =~= model);
    Ok(entries)
}

} // verus!
