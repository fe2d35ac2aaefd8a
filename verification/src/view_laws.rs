//! What the models keep of the values that they stand for: all of it, part by part.

use crate::abi_types::{components_model, AbiParam, Component};
use crate::contract::{
    event_calls_model, event_entries_model, function_entries_model, ContractAbi, EventCall,
    EventEntry, FunctionCallFull, FunctionEntry,
};
use crate::decode::{
    returned_message, returned_tokens, BodyDecoding, FunctionCall, InMessage,
};
use crate::error::{AbiError, ErrorModel, Reason, ReasonModel};
use crate::event::EventAbi;
use crate::function::{ExecutionOutput, ExternalCall, FunctionAbi};
use crate::init_data::{
    data_items_model, existing_root, writes_model, DataItem, InitData, InitPlan, InitValue,
    InitValueModel, InitWrite,
};
use crate::keys::{KeyTextError, KeyTextErrorModel, PublicKey};
use crate::ledger::{
    Address, AddressModel, Bits, Cell, MsgAddress, MsgAddressModel, StateInit, StdAddress,
    VarAddress,
};
use crate::message::{
    returned_bytes, returned_cell, FillSign, HeaderModel, Message, MessageDraft, MessageHeader,
    UnsignedBody, UnsignedExternalMessage,
};
use crate::param::{lemma_params_model, params_model, KindModel, Param, ParamType};
use crate::parse::{refusals_model, Refusal};
use crate::token::{
    entries_model, lemma_entries_model, lemma_named_tokens_model, lemma_token_values_model,
    named_tokens_model, token_values_model, MapEntry, MapKeyModel, MapKeyTokenValue, Token,
    TokenModel, TokenValue,
};
use crate::transaction::{
    read_events_model, records_model, Collected, OutBody, OutMessage, OutRecord, ReadEvent, Route,
    RouteModel,
};
use crate::value::{lemma_value_model, lemma_values_model, values_model, Value, ValueModel};
use vstd::prelude::*;

verus! {

/// A string of bits, a cell and an initial state are kept byte for byte.
pub proof fn bytes_are_kept(bits: Bits, cell: Cell, state: StateInit)
    ensures
        bits@.bytes == bits.bytes@,
        bits@.len == bits.len,
        cell@ == cell.boc@,
        state@ == state.boc@,
{
}

/// The parts of an address are kept.
pub proof fn addresses_are_kept(std: StdAddress, var: VarAddress)
    ensures
        std@.workchain == std.workchain,
        std@.account == std.account@,
        std.anycast is None <==> std@.anycast is None,
        std.anycast matches Some(bits) ==> std@.anycast == Some(bits@),
        var@.workchain == var.workchain,
        var@.account == var.account@,
        var.anycast is None <==> var@.anycast is None,
        var.anycast matches Some(bits) ==> var@.anycast == Some(bits@),
        (Address::Std(std))@ == AddressModel::Std(std@),
        (Address::Var(var))@ == AddressModel::Var(var@),
        (MsgAddress::AddrStd(std))@ == MsgAddressModel::AddrStd(std@),
        (MsgAddress::AddrVar(var))@ == MsgAddressModel::AddrVar(var@),
{
}

/// An address of no account is kept as what it is.
pub proof fn other_addresses_are_kept(bits: Bits)
    ensures
        MsgAddress::AddrNone@ == MsgAddressModel::AddrNone,
        (MsgAddress::AddrExt(bits))@ == MsgAddressModel::AddrExt(bits@),
{
}

/// What an exception says is kept.
pub proof fn reasons_are_kept(reason: Reason)
    ensures
        match reason {
            Reason::ParamNotFound(name) => reason@ == ReasonModel::ParamNotFound(name@),
            Reason::FixedArrayLength => reason@ == ReasonModel::FixedArrayLength,
            Reason::FixedBytesLength => reason@ == ReasonModel::FixedBytesLength,
            Reason::MapKeyMissing => reason@ == ReasonModel::MapKeyMissing,
            Reason::MapKeyType => reason@ == ReasonModel::MapKeyType,
            Reason::MapValueMissing => reason@ == ReasonModel::MapValueMissing,
            Reason::AddressType => reason@ == ReasonModel::AddressType,
            Reason::NoOutput => reason@ == ReasonModel::NoOutput,
            Reason::NoInMessage => reason@ == ReasonModel::NoInMessage,
            Reason::NoInMessageBody => reason@ == ReasonModel::NoInMessageBody,
            Reason::NoMessageBody => reason@ == ReasonModel::NoMessageBody,
            Reason::NotOutbound => reason@ == ReasonModel::NotOutbound,
            Reason::Hex(e) => reason@ == ReasonModel::Hex(e),
            Reason::Reported(words) => reason@ == ReasonModel::Reported(words@),
        },
{
}

/// The class of an exception and what it says are kept.
pub proof fn errors_are_kept(error: AbiError, key: KeyTextError)
    ensures
        match error {
            AbiError::Type(kind) => error@ == ErrorModel::Type(kind),
            AbiError::Overflow => error@ == ErrorModel::Overflow,
            AbiError::Value(reason) => error@ == ErrorModel::Value(reason@),
            AbiError::Runtime(reason) => error@ == ErrorModel::Runtime(reason@),
        },
        match key {
            KeyTextError::Hex(e) => key@ == KeyTextErrorModel::Hex(e),
            KeyTextError::Key(words) => key@ == KeyTextErrorModel::Key(words@),
        },
{
}

/// The type of a parameter is kept, with its sizes and the types in it.
pub proof fn types_are_kept(kind: ParamType)
    ensures
        match kind {
            ParamType::Uint(size) => kind@ == KindModel::Uint(size),
            ParamType::Int(size) => kind@ == KindModel::Int(size),
            ParamType::VarUint(size) => kind@ == KindModel::VarUint(size),
            ParamType::VarInt(size) => kind@ == KindModel::VarInt(size),
            ParamType::Bool => kind@ == KindModel::Bool,
            ParamType::Tuple(params) => kind@ == KindModel::Tuple(params_model(params@)),
            ParamType::Array(ty) => kind@ == KindModel::Array(Box::new(ty@)),
            ParamType::FixedArray(ty, len) => kind@ == KindModel::FixedArray(Box::new(ty@), len),
            ParamType::Cell => kind@ == KindModel::Cell,
            ParamType::Mapping(key, value) => kind@ == KindModel::Mapping(
                Box::new(key@),
                Box::new(value@),
            ),
            ParamType::Address => kind@ == KindModel::Address,
            ParamType::Bytes => kind@ == KindModel::Bytes,
            ParamType::FixedBytes(len) => kind@ == KindModel::FixedBytes(len),
            ParamType::String => kind@ == KindModel::String,
            ParamType::Token => kind@ == KindModel::Token,
            ParamType::Time => kind@ == KindModel::Time,
            ParamType::Expire => kind@ == KindModel::Expire,
            ParamType::PublicKey => kind@ == KindModel::PublicKey,
            ParamType::Optional(ty) => kind@ == KindModel::Optional(Box::new(ty@)),
            ParamType::Ref(ty) => kind@ == KindModel::Ref(Box::new(ty@)),
        },
{
}

/// Parameters are kept one for one and in order, with their names and types.
pub proof fn params_are_kept(params: Seq<Param>, components: Seq<Component>, ty: AbiParam)
    ensures
        params_model(params).len() == params.len(),
        forall|i: int|
            #![trigger params[i]]
            0 <= i < params.len() ==> params_model(params)[i].name == params[i].name@
                && params_model(params)[i].kind == params[i].kind@,
        components_model(components).len() == components.len(),
        forall|i: int|
            #![trigger components[i]]
            0 <= i < components.len() ==> components_model(components)[i].name
                == components[i].name@ && components_model(components)[i].kind
                == components[i].ty.param@,
        ty@ == ty.param@,
{
    lemma_params_model(params);
    assert forall|i: int| #![trigger params[i]] 0 <= i < params.len() implies params_model(
        params,
    )[i].name == params[i].name@ && params_model(params)[i].kind == params[i].kind@ by {
        assert(params_model(params)[i] == params[i]@);
    }
}

/// A Python object is kept as what it is.
pub proof fn objects_are_kept(value: Value)
    ensures
        match value {
            Value::PyNone => value@ == ValueModel::PyNone,
            Value::Bool(b) => value@ == ValueModel::Bool(b),
            Value::Int(n) => value@ == ValueModel::Int(n@),
            Value::Str(text) => value@ == ValueModel::Str(text@),
            Value::Bytes(bytes) => value@ == ValueModel::Bytes(bytes@),
            Value::List(values) => value@ == ValueModel::List(values_model(values@)),
            Value::Tuple(values) => value@ == ValueModel::Tuple(values_model(values@)),
            Value::Dict(dict) => value@ == ValueModel::Dict(dict@),
            Value::Cell(cell) => value@ == ValueModel::Cell(cell@),
            Value::Address(address) => value@ == ValueModel::Address(address@),
            Value::Other => value@ == ValueModel::Other,
        },
{
    lemma_value_model(value);
}

/// Objects in a list are kept one for one and in order.
pub proof fn lists_are_kept(values: Seq<Value>)
    ensures
        values_model(values).len() == values.len(),
        forall|i: int|
            #![trigger values[i]]
            0 <= i < values.len() ==> values_model(values)[i] == values[i]@,
{
    lemma_values_model(values);
    assert forall|i: int| #![trigger values[i]] 0 <= i < values.len() implies values_model(
        values,
    )[i] == values[i]@ by {
        assert(values_model(values)[i] == crate::value::value_model(values[i]));
    }
}

/// The value of a parameter is kept as what it is.
pub proof fn tokens_are_kept(token: TokenValue)
    ensures
        match token {
            TokenValue::Uint(n) => token@ == TokenModel::Uint(n.number@, n.size),
            TokenValue::Int(n) => token@ == TokenModel::Int(n.number@, n.size),
            TokenValue::VarUint(size, n) => token@ == TokenModel::VarUint(size, n@),
            TokenValue::VarInt(size, n) => token@ == TokenModel::VarInt(size, n@),
            TokenValue::Bool(b) => token@ == TokenModel::Bool(b),
            TokenValue::Tuple(tokens) => token@ == TokenModel::Tuple(named_tokens_model(tokens@)),
            TokenValue::Array(ty, values) => token@ == TokenModel::Array(
                ty@,
                token_values_model(values@),
            ),
            TokenValue::FixedArray(ty, values) => token@ == TokenModel::FixedArray(
                ty@,
                token_values_model(values@),
            ),
            TokenValue::Cell(cell) => token@ == TokenModel::Cell(cell@),
            TokenValue::Mapping(key, value, entries) => token@ == TokenModel::Mapping(
                key@,
                value@,
                entries@,
            ),
            TokenValue::Address(address) => token@ == TokenModel::Address(address@),
            TokenValue::Bytes(bytes) => token@ == TokenModel::Bytes(bytes@),
            TokenValue::FixedBytes(bytes) => token@ == TokenModel::FixedBytes(bytes@),
            TokenValue::String(text) => token@ == TokenModel::String(text@),
            TokenValue::Token(amount) => token@ == TokenModel::Token(amount),
            TokenValue::Time(time) => token@ == TokenModel::Time(time),
            TokenValue::Expire(time) => token@ == TokenModel::Expire(time),
            TokenValue::PublicKey(Some(key)) => token@ == TokenModel::PublicKey(Some(key@)),
            TokenValue::PublicKey(None) => token@ == TokenModel::PublicKey(None),
            TokenValue::Optional(ty, Some(inner)) => token@ == TokenModel::Optional(
                ty@,
                Some(Box::new(inner@)),
            ),
            TokenValue::Optional(ty, None) => token@ == TokenModel::Optional(ty@, None),
            TokenValue::Ref(inner) => token@ == TokenModel::Ref(Box::new(inner@)),
        },
{
}

/// Values in a list, named values and entries are kept one for one and in order.
pub proof fn token_lists_are_kept(
    values: Seq<TokenValue>,
    tokens: Seq<Token>,
    entries: Seq<MapEntry>,
)
    ensures
        token_values_model(values).len() == values.len(),
        forall|i: int|
            #![trigger values[i]]
            0 <= i < values.len() ==> token_values_model(values)[i] == values[i]@,
        named_tokens_model(tokens).len() == tokens.len(),
        forall|i: int|
            #![trigger tokens[i]]
            0 <= i < tokens.len() ==> named_tokens_model(tokens)[i].name == tokens[i].name@
                && named_tokens_model(tokens)[i].value == tokens[i].value@,
        entries_model(entries).len() == entries.len(),
        forall|i: int|
            #![trigger entries[i]]
            0 <= i < entries.len() ==> entries_model(entries)[i].key == entries[i].key@
                && entries_model(entries)[i].value == entries[i].value@,
{
    lemma_token_values_model(values);
    lemma_named_tokens_model(tokens);
    lemma_entries_model(entries);
    assert forall|i: int| #![trigger values[i]] 0 <= i < values.len() implies token_values_model(
        values,
    )[i] == values[i]@ by {
        assert(token_values_model(values)[i] == crate::token::token_model(values[i]));
    }
    assert forall|i: int| #![trigger tokens[i]] 0 <= i < tokens.len() implies named_tokens_model(
        tokens,
    )[i].name == tokens[i].name@ && named_tokens_model(tokens)[i].value == tokens[i].value@ by {
        assert(named_tokens_model(tokens)[i] == tokens[i]@);
    }
    assert forall|i: int| #![trigger entries[i]] 0 <= i < entries.len() implies entries_model(
        entries,
    )[i].key == entries[i].key@ && entries_model(entries)[i].value == entries[i].value@ by {
        assert(entries_model(entries)[i] == entries[i]@);
    }
}

/// A key of a dictionary, a named value, an entry and a refusal are kept with their parts.
pub proof fn parts_are_kept(
    key: MapKeyTokenValue,
    token: Token,
    entry: MapEntry,
    refusals: Seq<Refusal>,
)
    ensures
        match key {
            MapKeyTokenValue::Uint(n) => key@ == MapKeyModel::Uint(n.number@, n.size),
            MapKeyTokenValue::Int(n) => key@ == MapKeyModel::Int(n.number@, n.size),
            MapKeyTokenValue::Address(address) => key@ == MapKeyModel::Address(address@),
        },
        token@.name == token.name@,
        token@.value == token.value@,
        entry@.key == entry.key@,
        entry@.value == entry.value@,
        refusals_model(refusals).len() == refusals.len(),
        forall|i: int|
            #![trigger refusals[i]]
            0 <= i < refusals.len() ==> refusals_model(refusals)[i].amount == refusals[i].amount
                && refusals_model(refusals)[i].words == refusals[i].words@,
{
}

/// A message is kept with its header, its initial state, its body and its hash.
pub proof fn messages_are_kept(message: Message, draft: MessageDraft)
    ensures
        message@.data == message.data@,
        message@.hash == message.hash@,
        draft@.body == draft.body@,
        draft@.header == draft.header@,
        draft.state_init is None <==> draft@.state_init is None,
        draft.state_init matches Some(state) ==> draft@.state_init == Some(state@),
        match draft.header {
            MessageHeader::ExternalInbound(dst) => draft@.header == HeaderModel::ExternalInbound(
                dst@,
            ),
            MessageHeader::Internal(h) => {
                &&& draft@.header matches HeaderModel::Internal {
                    ihr_disabled,
                    bounce,
                    value,
                    src,
                    dst,
                }
                &&& ihr_disabled == h.ihr_disabled
                &&& bounce == h.bounce
                &&& value == h.value
                &&& dst == h.dst@
                &&& (h.src is None <==> src is None)
                &&& (h.src matches Some(from) ==> src == Some(from@))
            },
        },
{
}

/// A body that waits for a signature, its message, and what is put into it are kept with
/// their parts.
pub proof fn unsigned_messages_are_kept(
    message: UnsignedExternalMessage,
    body: UnsignedBody,
    fill: FillSign,
)
    ensures
        message@.dst == message.dst@,
        message@.body == message.body@,
        message.state_init is None <==> message@.state_init is None,
        message.state_init matches Some(state) ==> message@.state_init == Some(state@),
        body@.abi_version == body.abi_version,
        body@.payload == body.payload@,
        body@.hash == body.hash@,
        body@.expire_at == body.expire_at,
        fill@.abi_version == fill.abi_version,
        fill@.payload == fill.payload@,
        fill.signature is None <==> fill@.signature is None,
        fill.signature matches Some(bytes) ==> fill@.signature == Some(bytes@),
{
}

/// What comes back from a ledger library is kept: what it holds, or the words of its error.
pub proof fn answers_are_kept(
    tokens: Result<Vec<Token>, String>,
    message: Result<Option<InMessage>, String>,
    bytes: Result<Vec<u8>, String>,
    cell: Result<Cell, String>,
    existing: Option<Result<Cell, String>>,
)
    ensures
        tokens matches Ok(t) ==> returned_tokens(tokens) == Ok::<
            Seq<crate::token::NamedTokenModel>,
            Seq<char>,
        >(named_tokens_model(t@)),
        tokens matches Err(words) ==> returned_tokens(tokens) == Err::<
            Seq<crate::token::NamedTokenModel>,
            Seq<char>,
        >(words@),
        message matches Ok(Some(m)) ==> (returned_message(message) matches Ok(Some(read)) && read
            == m@),
        message matches Ok(None) ==> (returned_message(message) matches Ok(read) && read is None),
        message matches Err(words) ==> (returned_message(message) matches Err(read) && read
            == words@),
        bytes matches Ok(b) ==> returned_bytes(bytes) == Ok::<Seq<u8>, Seq<char>>(b@),
        bytes matches Err(words) ==> returned_bytes(bytes) == Err::<Seq<u8>, Seq<char>>(words@),
        cell matches Ok(c) ==> returned_cell(cell) == Ok::<Seq<u8>, Seq<char>>(c@),
        cell matches Err(words) ==> returned_cell(cell) == Err::<Seq<u8>, Seq<char>>(words@),
        match existing {
            Some(Ok(c)) => existing_root(existing) matches Some(Ok(root)) && root == c@,
            Some(Err(words)) => existing_root(existing) matches Some(Err(read)) && read == words@,
            None => existing_root(existing) is None,
        },
{
}

/// Messages of a transaction and what is read from them are kept with their parts.
pub proof fn transactions_are_kept(
    in_msg: InMessage,
    decoding: BodyDecoding,
    body: OutBody,
    message: OutMessage,
    record: OutRecord,
    route: Route,
)
    ensures
        in_msg@.internal == in_msg.internal,
        in_msg.body is None <==> in_msg@.body is None,
        in_msg.body matches Some(cell) ==> in_msg@.body == Some(cell@),
        decoding@.body == decoding.body@,
        decoding@.internal == decoding.internal,
        decoding@.partial == decoding.partial,
        body@.cell == body.cell@,
        body@.function_id == body.function_id,
        body.event is None <==> body@.event is None,
        body.event matches Some(name) ==> body@.event == Some(name@),
        message@.outbound_external == message.outbound_external,
        message.body is None <==> message@.body is None,
        message.body matches Some(b) ==> message@.body == Some(b@),
        record.message matches Ok(m) ==> (record@.message matches Ok(read) && read == m@),
        record.message matches Err(words) ==> (record@.message matches Err(read) && read
            == words@),
        record@.decoded == returned_tokens(record.decoded),
        match route {
            Route::Skip => route@ == RouteModel::Skip,
            Route::Output(d) => route@ == RouteModel::Output(d@),
            Route::Event(name, cell) => route@ == RouteModel::Event(name@, cell@),
        },
{
}

/// Records and events are kept one for one and in order, with their parts.
pub proof fn collections_are_kept(
    records: Seq<OutRecord>,
    events: Seq<ReadEvent>,
    calls: Seq<EventCall>,
    collected: Collected,
)
    ensures
        records_model(records).len() == records.len(),
        forall|i: int|
            #![trigger records[i]]
            0 <= i < records.len() ==> records_model(records)[i] == records[i]@,
        read_events_model(events).len() == events.len(),
        forall|i: int|
            #![trigger events[i]]
            0 <= i < events.len() ==> read_events_model(events)[i].name == events[i].name@
                && read_events_model(events)[i].tokens == named_tokens_model(events[i].tokens@),
        event_calls_model(calls).len() == calls.len(),
        forall|i: int|
            #![trigger calls[i]]
            0 <= i < calls.len() ==> event_calls_model(calls)[i].event == calls[i].event@
                && event_calls_model(calls)[i].input == calls[i].input@,
        collected@.events == read_events_model(collected.events@),
        collected.output is None <==> collected@.output is None,
        collected.output matches Some(tokens) ==> collected@.output == Some(
            named_tokens_model(tokens@),
        ),
{
}

/// The results of calls are kept with their parts.
pub proof fn results_are_kept(
    call: FunctionCall,
    full: FunctionCallFull,
    output: ExecutionOutput,
    external: ExternalCall,
)
    ensures
        call@.input == call.input@,
        call@.output == call.output@,
        full@.call == full.call@,
        full@.function == full.function@,
        full@.events == event_calls_model(full.events@),
        output@.exit_code == output.exit_code,
        output.output is None <==> output@.output is None,
        output.output matches Some(dict) ==> output@.output == Some(dict@),
        external@.tokens == named_tokens_model(external.tokens@),
        external@.internal == external.internal,
        external@.reserve_sign == external.reserve_sign,
        external@.expire_at == external.expire_at,
        external.address is None <==> external@.address is None,
        external.address matches Some(address) ==> external@.address == Some(address@),
        external@.headers.dom() == external.headers@.dom(),
        forall|name: Seq<char>| #[trigger]
            external.headers@.contains_key(name) ==> external@.headers[name]
                == external.headers@[name]@,
{
    assert(external@.headers.dom() =~= external.headers@.dom());
}

/// Functions, events and contracts are kept with their parts.
pub proof fn declarations_are_kept(function: FunctionAbi, event: EventAbi, contract: ContractAbi)
    ensures
        function@.abi_version == function.abi_version,
        function@.name == function.name@,
        function@.header == params_model(function.header@),
        function@.inputs == params_model(function.inputs@),
        function@.outputs == params_model(function.outputs@),
        function@.input_id == function.input_id,
        function@.output_id == function.output_id,
        function@.has_output == function.has_output,
        event@.abi_version == event.abi_version,
        event@.name == event.name@,
        event@.inputs == params_model(event.inputs@),
        event@.id == event.id,
        contract@.abi_version == contract.abi_version,
        contract@.data == data_items_model(contract.data@),
        contract@.functions.dom() == contract.functions@.dom(),
        forall|name: Seq<char>| #[trigger]
            contract.functions@.contains_key(name) ==> contract@.functions[name]
                == contract.functions@[name]@,
        contract@.events.dom() == contract.events@.dom(),
        forall|name: Seq<char>| #[trigger]
            contract.events@.contains_key(name) ==> contract@.events[name]
                == contract.events@[name]@,
{
    assert(contract@.functions.dom() =~= contract.functions@.dom());
    assert(contract@.events.dom() =~= contract.events@.dom());
}

/// Entries by name are kept one for one and in order.
pub proof fn entries_by_name_are_kept(functions: Seq<FunctionEntry>, events: Seq<EventEntry>)
    ensures
        function_entries_model(functions).len() == functions.len(),
        forall|i: int|
            #![trigger functions[i]]
            0 <= i < functions.len() ==> function_entries_model(functions)[i].name
                == functions[i].name@ && function_entries_model(functions)[i].abi
                == functions[i].abi@,
        event_entries_model(events).len() == events.len(),
        forall|i: int|
            #![trigger events[i]]
            0 <= i < events.len() ==> event_entries_model(events)[i].name == events[i].name@
                && event_entries_model(events)[i].abi == events[i].abi@,
{
}

/// Initial data and how it is made are kept with their parts.
pub proof fn init_data_is_kept(
    items: Seq<DataItem>,
    writes: Seq<InitWrite>,
    plan: InitPlan,
    data: InitData,
)
    ensures
        data_items_model(items).len() == items.len(),
        forall|i: int|
            #![trigger items[i]]
            0 <= i < items.len() ==> data_items_model(items)[i].name == items[i].name@
                && data_items_model(items)[i].key == items[i].key && data_items_model(items)[i].kind
                == items[i].value.kind@,
        writes_model(writes).len() == writes.len(),
        forall|i: int|
            #![trigger writes[i]]
            0 <= i < writes.len() ==> writes_model(writes)[i].key == writes[i].key && (
            match writes[i].value {
                InitValue::PublicKey(key) => writes_model(writes)[i].value
                    == InitValueModel::PublicKey(key@),
                InitValue::Token(token) => writes_model(writes)[i].value == InitValueModel::Token(
                    token@,
                ),
            }),
        plan@.abi_version == plan.abi_version,
        plan@.writes == writes_model(plan.writes@),
        plan.root is None <==> plan@.root is None,
        plan.root matches Some(cell) ==> plan@.root == Some(cell@),
        plan.failure is None <==> plan@.failure is None,
        plan.failure matches Some(e) ==> plan@.failure == Some(e@),
        data@.values == data.values@,
        data.public_key is None <==> data@.public_key is None,
        data.public_key matches Some(key) ==> data@.public_key == Some(key@),
{
}

/// An optional key is kept.
pub proof fn optional_keys_are_kept(key: Option<&PublicKey>)
    ensures
        key is None <==> crate::headers::optional_key(key) is None,
        key matches Some(k) ==> crate::headers::optional_key(key) == Some(k@),
{
}

} // verus!
