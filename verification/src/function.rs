//! The functions of a contract.

use crate::convert::{convert_named_model, convert_tokens};
use crate::decode::{
    call_model, convert_returned, converted_model, returned_message, returned_tokens, BodyDecoding,
    BodyDecodingModel, CallModel, FunctionCall, InMessage, InMessageModel,
};
use crate::error::{
    handle_runtime_error, reported_runtime, AbiError, ErrorModel, Reason, ReasonModel,
};
use crate::headers::{
    default_headers, default_headers_model, headers_model, optional_key, ExpireAt,
};
use crate::keys::PublicKey;
use crate::ledger::{Address, AddressModel, Cell, StateInit};
use crate::message::{
    copy_state, optional_address, returned_cell, DraftModel, HeaderModel, InternalHeader,
    MessageDraft, MessageHeader, UnsignedBody, UnsignedBodyModel, UnsignedExternalMessage,
    UnsignedMessageModel,
};
use crate::param::{copy_params, params_model, same_params, Param, ParamModel};
use crate::parse::{parse_params_model, parse_tokens, refusals_model, Refusal, RefusalModel};
use crate::token::{named_tokens_model, NamedTokenModel, Token, TokenModel, TokenValue};
use crate::value::{Dict, ItemModel};
use crate::version::{compares, AbiVersion, CompareOp};
use vstd::hash_map::StringHashMap;
use vstd::prelude::*;

verus! {

/// A function of a contract.
#[derive(Debug, PartialEq, Eq)]
pub struct FunctionAbi {
    pub abi_version: AbiVersion,
    pub name: String,
    pub header: Vec<Param>,
    pub inputs: Vec<Param>,
    pub outputs: Vec<Param>,
    pub input_id: u32,
    pub output_id: u32,
    /// Whether the function answers, as `ton_abi::Function::has_output` says.
    pub has_output: bool,
}

/// [`FunctionAbi`] over models.
pub struct FunctionModel {
    pub abi_version: AbiVersion,
    pub name: Seq<char>,
    pub header: Seq<ParamModel>,
    pub inputs: Seq<ParamModel>,
    pub outputs: Seq<ParamModel>,
    pub input_id: u32,
    pub output_id: u32,
    pub has_output: bool,
}

impl View for FunctionAbi {
    type V = FunctionModel;

    open spec fn view(&self) -> FunctionModel {
        FunctionModel {
            abi_version: self.abi_version,
            name: self.name@,
            header: params_model(self.header@),
            inputs: params_model(self.inputs@),
            outputs: params_model(self.outputs@),
            input_id: self.input_id,
            output_id: self.output_id,
            has_output: self.has_output,
        }
    }
}

impl Clone for FunctionAbi {
    fn clone(&self) -> (copy: FunctionAbi)
        ensures
            copy@ == self@,
    {
        FunctionAbi {
            abi_version: self.abi_version,
            name: self.name.clone(),
            header: copy_params(self.header.as_slice()),
            inputs: copy_params(self.inputs.as_slice()),
            outputs: copy_params(self.outputs.as_slice()),
            input_id: self.input_id,
            output_id: self.output_id,
            has_output: self.has_output,
        }
    }
}

/// Whether a comparison holds of two functions: they are equal if they are the same in
/// all parts, and they stand in the order of their ids.
pub open spec fn functions_compare(op: CompareOp, a: FunctionModel, b: FunctionModel) -> bool {
    match op {
        CompareOp::Eq => a == b,
        CompareOp::Ne => a != b,
        _ => compares(op, a.input_id as int, b.input_id as int),
    }
}

/// Functions that are equal have one hash, and none of them stands before the other.
pub proof fn equal_functions_have_one_hash(a: FunctionModel, b: FunctionModel)
    requires
        functions_compare(CompareOp::Eq, a, b),
    ensures
        a.input_id as u64 == b.input_id as u64,
        !functions_compare(CompareOp::Lt, a, b),
        !functions_compare(CompareOp::Gt, a, b),
        functions_compare(CompareOp::Le, a, b),
        functions_compare(CompareOp::Ge, a, b),
        !functions_compare(CompareOp::Ne, a, b),
{
}

/// What a local call is made with: its arguments, and whether it is made as a call to a
/// responsible function.
#[derive(Debug, PartialEq, Eq)]
pub struct LocalCall {
    pub tokens: Vec<Token>,
    pub responsible: bool,
}

/// What came back from a local call.
#[derive(Debug, PartialEq, Eq)]
pub struct LocalRun {
    pub result_code: i32,
    pub tokens: Option<Vec<Token>>,
}

/// The result of a local call.
#[derive(Debug, PartialEq, Eq)]
pub struct ExecutionOutput {
    pub exit_code: i32,
    pub output: Option<Dict>,
}

/// [`ExecutionOutput`] over models.
pub struct ExecutionModel {
    pub exit_code: i32,
    pub output: Option<Seq<ItemModel>>,
}

impl View for ExecutionOutput {
    type V = ExecutionModel;

    open spec fn view(&self) -> ExecutionModel {
        ExecutionModel {
            exit_code: self.exit_code,
            output: match self.output {
                Some(dict) => Some(dict@),
                None => None,
            },
        }
    }
}

/// The result of a local call, from what came back.
pub open spec fn execution_model(run: Result<LocalRun, String>) -> Result<
    ExecutionModel,
    ErrorModel,
> {
    match run {
        Ok(r) => match r.tokens {
            Some(tokens) => match convert_named_model(named_tokens_model(tokens@)) {
                Ok(items) => Ok(ExecutionModel { exit_code: r.result_code, output: Some(items) }),
                Err(e) => Err(e),
            },
            None => Ok(ExecutionModel { exit_code: r.result_code, output: None }),
        },
        Err(words) => Err(reported_runtime(words@)),
    }
}

/// What a call from outside the ledger is packed with.
pub struct ExternalCall {
    pub headers: StringHashMap<TokenValue>,
    pub tokens: Vec<Token>,
    pub internal: bool,
    pub reserve_sign: bool,
    pub address: Option<Address>,
    pub expire_at: u32,
}

/// [`ExternalCall`] over models.
pub struct ExternalCallModel {
    pub headers: Map<Seq<char>, TokenModel>,
    pub tokens: Seq<NamedTokenModel>,
    pub internal: bool,
    pub reserve_sign: bool,
    pub address: Option<AddressModel>,
    pub expire_at: u32,
}

impl View for ExternalCall {
    type V = ExternalCallModel;

    open spec fn view(&self) -> ExternalCallModel {
        ExternalCallModel {
            headers: headers_model(self.headers@),
            tokens: named_tokens_model(self.tokens@),
            internal: self.internal,
            reserve_sign: self.reserve_sign,
            address: optional_address(self.address),
            expire_at: self.expire_at,
        }
    }
}

/// What a call from outside the ledger is packed with: the arguments, the headers, room
/// for a signature, and the address it goes to if that is known.
pub open spec fn external_call_model(
    inputs: Seq<ParamModel>,
    input: Seq<ItemModel>,
    refusals: Seq<RefusalModel>,
    public_key: Option<Seq<u8>>,
    now: u64,
    expire_at: u32,
    address: Option<AddressModel>,
) -> Result<ExternalCallModel, ErrorModel> {
    match parse_params_model(inputs, input, refusals) {
        Ok(tokens) => Ok(
            ExternalCallModel {
                headers: default_headers_model(now, expire_at, public_key),
                tokens,
                internal: false,
                reserve_sign: true,
                address,
                expire_at,
            },
        ),
        Err(e) => Err(e),
    }
}

/// A call that was packed: the body with room for a signature, and what is to be signed.
#[derive(Debug, PartialEq, Eq)]
pub struct PackedCall {
    pub payload: Cell,
    pub hash: Vec<u8>,
}

/// The body that waits for a signature, from what came back from packing a call.
pub open spec fn unsigned_body_model(
    abi_version: AbiVersion,
    expire_at: u32,
    packed: Result<PackedCall, String>,
) -> Result<UnsignedBodyModel, ErrorModel> {
    match packed {
        Ok(p) => Ok(
            UnsignedBodyModel { abi_version, payload: p.payload@, hash: p.hash@, expire_at },
        ),
        Err(words) => Err(reported_runtime(words@)),
    }
}

/// The call of a function, from the message that a transaction came from and from what
/// came back from decoding it. Each step that fails decides.
pub open spec fn transaction_call_model(
    in_msg: Result<Option<InMessageModel>, Seq<char>>,
    input: Result<Seq<NamedTokenModel>, Seq<char>>,
    output: Result<Seq<NamedTokenModel>, Seq<char>>,
) -> Result<CallModel, ErrorModel> {
    match in_msg {
        Err(words) => Err(reported_runtime(words)),
        Ok(None) => Err(ErrorModel::Runtime(ReasonModel::NoInMessage)),
        Ok(Some(message)) => match message.body {
            None => Err(ErrorModel::Runtime(ReasonModel::NoInMessageBody)),
            Some(_) => match input {
                Err(words) => Err(reported_runtime(words)),
                Ok(i) => match output {
                    Err(words) => Err(reported_runtime(words)),
                    Ok(o) => call_model(i, o),
                },
            },
        },
    }
}

/// How a body is to be decoded: partially only where that is asked for.
pub open spec fn decoding_model(
    body: Seq<u8>,
    internal: bool,
    allow_partial: Option<bool>,
) -> BodyDecodingModel {
    BodyDecodingModel { body, internal, partial: allow_partial == Some(true) }
}

/// No flag asks for the same as a flag that is false, and a flag that is true changes
/// nothing but that the decoding is partial.
pub proof fn no_flag_is_a_false_flag(body: Seq<u8>, internal: bool)
    ensures
        decoding_model(body, internal, None) == decoding_model(body, internal, Some(false)),
        !decoding_model(body, internal, None).partial,
        decoding_model(body, internal, Some(true)) == (BodyDecodingModel {
            partial: true,
            ..decoding_model(body, internal, None)
        }),
{
}

/// Where partial decoding gives back whatever whole decoding gives back, it also gives the
/// same dictionary.
pub proof fn partial_decoding_accepts_more(
    whole: Result<Seq<NamedTokenModel>, Seq<char>>,
    partial: Result<Seq<NamedTokenModel>, Seq<char>>,
)
    requires
        whole is Ok ==> partial == whole,
    ensures
        converted_model(whole) is Ok ==> converted_model(partial) == converted_model(whole),
{
}

impl FunctionAbi {
    /// The version of the ABI.
    pub fn abi_version(&self) -> (version: AbiVersion)
        ensures
            version == self@.abi_version,
    {
        self.abi_version
    }

    /// The name of the function.
    pub fn name(&self) -> (name: String)
        ensures
            name@ == self@.name,
    {
        self.name.clone()
    }

    /// The id of a call.
    pub fn input_id(&self) -> (id: u32)
        ensures
            id == self@.input_id,
    {
        self.input_id
    }

    /// The id of an answer.
    pub fn output_id(&self) -> (id: u32)
        ensures
            id == self@.output_id,
    {
        self.output_id
    }

    /// What a local call is made with.
    pub fn prepare_call(
        &self,
        input: &Dict,
        responsible: Option<bool>,
        refusals: &[Refusal],
    ) -> (call: Result<LocalCall, AbiError>)
        ensures
            match call {
                Ok(c) => {
                    &&& parse_params_model(self@.inputs, input@, refusals_model(refusals@)) == Ok::<
                        Seq<NamedTokenModel>,
                        ErrorModel,
                    >(named_tokens_model(c.tokens@))
                    &&& c.responsible == (responsible == Some(true))
                },
                Err(e) => parse_params_model(self@.inputs, input@, refusals_model(refusals@))
                    == Err::<Seq<NamedTokenModel>, ErrorModel>(e@),
            },
    {
        match parse_tokens(self.inputs.as_slice(), input, refusals) {
            Ok(tokens) => Ok(
                LocalCall {
                    tokens,
                    responsible: match responsible {
                        Some(true) => true,
                        _ => false,
                    },
                },
            ),
            Err(e) => Err(e),
        }
    }

    /// The result of a local call, from what came back.
    pub fn call(&self, run: Result<LocalRun, String>) -> (output: Result<
        ExecutionOutput,
        AbiError,
    >)
        ensures
            match output {
                Ok(o) => execution_model(run) == Ok::<ExecutionModel, ErrorModel>(o@),
                Err(e) => execution_model(run) == Err::<ExecutionModel, ErrorModel>(e@),
            },
    {
        let run: LocalRun = match handle_runtime_error(run) {
            Ok(run) => run,
            Err(e) => {
                return Err(e);
            },
        };
        match run.tokens {
            Some(tokens) => match convert_tokens(tokens) {
                Ok(dict) => Ok(ExecutionOutput { exit_code: run.result_code, output: Some(dict) }),
                Err(e) => Err(e),
            },
            None => Ok(ExecutionOutput { exit_code: run.result_code, output: None }),
        }
    }

    /// What a call from outside the ledger is packed with.
    pub fn prepare_external_input(
        &self,
        input: &Dict,
        public_key: Option<&PublicKey>,
        now: u64,
        expire_at: ExpireAt,
        address: Option<&Address>,
        refusals: &[Refusal],
    ) -> (call: Result<ExternalCall, AbiError>)
        ensures
            ({
                let model = external_call_model(
                    self@.inputs,
                    input@,
                    refusals_model(refusals@),
                    optional_key(public_key),
                    now,
                    expire_at.timestamp,
                    match address {
                        Some(a) => Some(a@),
                        None => None,
                    },
                );
                match call {
                    Ok(c) => model == Ok::<ExternalCallModel, ErrorModel>(c@),
                    Err(e) => model == Err::<ExternalCallModel, ErrorModel>(e@),
                }
            }),
    {
        let tokens: Vec<Token> = match parse_tokens(self.inputs.as_slice(), input, refusals) {
            Ok(tokens) => tokens,
            Err(e) => {
                return Err(e);
            },
        };
        let (expire_at, headers) = default_headers(now, expire_at, public_key);
        Ok(
            ExternalCall {
                headers,
                tokens,
                internal: false,
                reserve_sign: true,
                address: match address {
                    Some(a) => Some(a.clone()),
                    None => None,
                },
                expire_at: expire_at.timestamp,
            },
        )
    }

    /// The body that waits for a signature, from what came back from packing a call.
    pub fn encode_external_input(
        &self,
        call: &ExternalCall,
        packed: Result<PackedCall, String>,
    ) -> (body: Result<UnsignedBody, AbiError>)
        ensures
            match body {
                Ok(b) => unsigned_body_model(self@.abi_version, call@.expire_at, packed) == Ok::<
                    UnsignedBodyModel,
                    ErrorModel,
                >(b@),
                Err(e) => unsigned_body_model(self@.abi_version, call@.expire_at, packed) == Err::<
                    UnsignedBodyModel,
                    ErrorModel,
                >(e@),
            },
    {
        match handle_runtime_error(packed) {
            Ok(packed) => Ok(
                UnsignedBody {
                    abi_version: self.abi_version,
                    payload: packed.payload,
                    hash: packed.hash,
                    expire_at: call.expire_at,
                },
            ),
            Err(e) => Err(e),
        }
    }

    /// What the body of a message from outside the ledger is packed with: the address
    /// is that of the message.
    pub fn prepare_external_message(
        &self,
        dst: &Address,
        input: &Dict,
        public_key: Option<&PublicKey>,
        now: u64,
        expire_at: ExpireAt,
        refusals: &[Refusal],
    ) -> (call: Result<ExternalCall, AbiError>)
        ensures
            ({
                let model = external_call_model(
                    self@.inputs,
                    input@,
                    refusals_model(refusals@),
                    optional_key(public_key),
                    now,
                    expire_at.timestamp,
                    Some(dst@),
                );
                match call {
                    Ok(c) => model == Ok::<ExternalCallModel, ErrorModel>(c@),
                    Err(e) => model == Err::<ExternalCallModel, ErrorModel>(e@),
                }
            }),
    {
        self.prepare_external_input(input, public_key, now, expire_at, Some(dst), refusals)
    }

    /// The message from outside the ledger whose body waits for a signature, from what
    /// came back from packing its body.
    pub fn encode_external_message(
        &self,
        dst: Address,
        state_init: Option<&StateInit>,
        call: &ExternalCall,
        packed: Result<PackedCall, String>,
    ) -> (message: Result<UnsignedExternalMessage, AbiError>)
        ensures
            match (message, unsigned_body_model(self@.abi_version, call@.expire_at, packed)) {
                (Ok(m), Ok(body)) => m@ == (UnsignedMessageModel {
                    dst: dst@,
                    state_init: match state_init {
                        Some(s) => Some(s@),
                        None => None,
                    },
                    body,
                }),
                (Err(e), Err(error)) => e@ == error,
                _ => false,
            },
    {
        match self.encode_external_input(call, packed) {
            Ok(body) => Ok(
                UnsignedExternalMessage { dst, state_init: copy_state(state_init), body },
            ),
            Err(e) => Err(e),
        }
    }

    /// The arguments that the body of an internal message is packed with.
    pub fn prepare_internal_input(&self, input: &Dict, refusals: &[Refusal]) -> (tokens: Result<
        Vec<Token>,
        AbiError,
    >)
        ensures
            match tokens {
                Ok(ts) => parse_params_model(self@.inputs, input@, refusals_model(refusals@))
                    == Ok::<Seq<NamedTokenModel>, ErrorModel>(named_tokens_model(ts@)),
                Err(e) => parse_params_model(self@.inputs, input@, refusals_model(refusals@))
                    == Err::<Seq<NamedTokenModel>, ErrorModel>(e@),
            },
    {
        parse_tokens(self.inputs.as_slice(), input, refusals)
    }

    /// The body of an internal message, from what came back from packing it.
    pub fn encode_internal_input(&self, packed: Result<Cell, String>) -> (body: Result<
        Cell,
        AbiError,
    >)
        ensures
            match body {
                Ok(cell) => returned_cell(packed) == Ok::<Seq<u8>, Seq<char>>(cell@),
                Err(e) => returned_cell(packed) matches Err(words) && e@ == reported_runtime(
                    words,
                ),
            },
    {
        handle_runtime_error(packed)
    }

    /// The internal message, from what came back from packing its body.
    pub fn encode_internal_message(
        &self,
        packed: Result<Cell, String>,
        value: u64,
        bounce: bool,
        dst: Address,
        src: Option<Address>,
        state_init: Option<&StateInit>,
    ) -> (message: Result<MessageDraft, AbiError>)
        ensures
            match message {
                Ok(m) => returned_cell(packed) matches Ok(body) && m@ == (DraftModel {
                    header: HeaderModel::Internal {
                        ihr_disabled: true,
                        bounce,
                        value,
                        src: optional_address(src),
                        dst: dst@,
                    },
                    state_init: match state_init {
                        Some(s) => Some(s@),
                        None => None,
                    },
                    body,
                }),
                Err(e) => returned_cell(packed) matches Err(words) && e@ == reported_runtime(
                    words,
                ),
            },
    {
        let body: Cell = match self.encode_internal_input(packed) {
            Ok(body) => body,
            Err(e) => {
                return Err(e);
            },
        };
        Ok(
            MessageDraft {
                header: MessageHeader::Internal(
                    InternalHeader { ihr_disabled: true, bounce, value, src, dst },
                ),
                state_init: copy_state(state_init),
                body,
            },
        )
    }

    /// The call of the function, from the message that a transaction came from and from
    /// what came back: the input decoded from the message, the output parsed from the
    /// transaction.
    pub fn decode_transaction(
        &self,
        in_msg: Result<Option<InMessage>, String>,
        input: Result<Vec<Token>, String>,
        output: Result<Vec<Token>, String>,
    ) -> (call: Result<FunctionCall, AbiError>)
        ensures
            ({
                let model = transaction_call_model(
                    returned_message(in_msg),
                    returned_tokens(input),
                    returned_tokens(output),
                );
                match call {
                    Ok(c) => model == Ok::<CallModel, ErrorModel>(c@),
                    Err(e) => model == Err::<CallModel, ErrorModel>(e@),
                }
            }),
    {
        let message: InMessage = match handle_runtime_error(in_msg) {
            Ok(Some(message)) => message,
            Ok(None) => {
                return Err(AbiError::Runtime(Reason::NoInMessage));
            },
            Err(e) => {
                return Err(e);
            },
        };
        if message.body.is_none() {
            return Err(AbiError::Runtime(Reason::NoInMessageBody));
        }
        let input: Vec<Token> = match handle_runtime_error(input) {
            Ok(tokens) => tokens,
            Err(e) => {
                return Err(e);
            },
        };
        let output: Vec<Token> = match handle_runtime_error(output) {
            Ok(tokens) => tokens,
            Err(e) => {
                return Err(e);
            },
        };
        FunctionCall::from_tokens(input, output)
    }

    /// How the body of a call is to be decoded.
    pub fn prepare_decode_input(
        &self,
        message_body: &Cell,
        internal: bool,
        allow_partial: Option<bool>,
    ) -> (decoding: BodyDecoding)
        ensures
            decoding@ == decoding_model(message_body@, internal, allow_partial),
    {
        BodyDecoding {
            body: message_body.clone(),
            internal,
            partial: match allow_partial {
                Some(true) => true,
                _ => false,
            },
        }
    }

    /// The input of a call, from what came back from decoding its body.
    pub fn decode_input(&self, values: Result<Vec<Token>, String>) -> (dict: Result<
        Dict,
        AbiError,
    >)
        ensures
            match dict {
                Ok(d) => converted_model(returned_tokens(values)) == Ok::<
                    Seq<ItemModel>,
                    ErrorModel,
                >(d@),
                Err(e) => converted_model(returned_tokens(values)) == Err::<
                    Seq<ItemModel>,
                    ErrorModel,
                >(e@),
            },
    {
        convert_returned(values)
    }

    /// How the body of an answer is to be decoded: it is of no internal message.
    pub fn prepare_decode_output(&self, message_body: &Cell, allow_partial: Option<bool>)
        -> (decoding: BodyDecoding)
        ensures
            decoding@ == decoding_model(message_body@, false, allow_partial),
    {
        self.prepare_decode_input(message_body, false, allow_partial)
    }

    /// The output of a call, from what came back from decoding the body of the answer.
    pub fn decode_output(&self, values: Result<Vec<Token>, String>) -> (dict: Result<
        Dict,
        AbiError,
    >)
        ensures
            match dict {
                Ok(d) => converted_model(returned_tokens(values)) == Ok::<
                    Seq<ItemModel>,
                    ErrorModel,
                >(d@),
                Err(e) => converted_model(returned_tokens(values)) == Err::<
                    Seq<ItemModel>,
                    ErrorModel,
                >(e@),
            },
    {
        convert_returned(values)
    }

    /// A hash.
    pub fn __hash__(&self) -> (hash: u64)
        ensures
            hash == self@.input_id as u64,
    {
        self.input_id as u64
    }

    /// Whether two functions are the same in all parts.
    pub fn same(&self, other: &FunctionAbi) -> (same: bool)
        ensures
            same == (self@ == other@),
    {
        self.abi_version.major == other.abi_version.major && self.abi_version.minor
            == other.abi_version.minor && self.name == other.name && same_params(
            self.header.as_slice(),
            other.header.as_slice(),
        ) && same_params(self.inputs.as_slice(), other.inputs.as_slice()) && same_params(
            self.outputs.as_slice(),
            other.outputs.as_slice(),
        ) && self.input_id == other.input_id && self.output_id == other.output_id
            && self.has_output == other.has_output
    }

    /// Whether a comparison holds of two functions.
    pub fn __richcmp__(&self, other: &FunctionAbi, op: CompareOp) -> (holds: bool)
        ensures
            holds == functions_compare(op, self@, other@),
    {
        match op {
            CompareOp::Eq => self.same(other),
            CompareOp::Ne => !self.same(other),
            _ => op.holds(self.input_id, other.input_id),
        }
    }
}

} // verus!
