//! What calls, messages and comparisons come to.

use crate::convert::convert_named_model;
use crate::decode::{call_model, converted_model, InMessageModel};
use crate::error::{reason_text, reported_runtime, reported_value, ErrorModel, ReasonModel};
use crate::event::{event_message_model, events_compare, EventMessage, EventModel};
use crate::function::{
    execution_model, external_call_model, functions_compare, transaction_call_model,
    unsigned_body_model, FunctionModel, LocalRun, PackedCall,
};
use crate::giving_laws::{given_back_is_dictionary, is_dictionary_of};
use crate::headers::default_headers_are_three;
use crate::ledger::AddressModel;
use crate::message::{
    draft_model, fake_signature, fill_model, sealed_model, DraftModel, HeaderModel,
    UnsignedBodyModel, UnsignedMessageModel,
};
use crate::param::ParamModel;
use crate::parse::{parse_params_model, RefusalModel};
use crate::token::{named_tokens_model, NamedTokenModel, TokenModel};
use crate::value::ItemModel;
use crate::version::{compares, version_rank, AbiVersion, CompareOp};
use vstd::prelude::*;

verus! {

/// The words of an error of a ledger library are handed on, as a `ValueError` or as a
/// `RuntimeError`.
pub proof fn words_are_handed_on(words: Seq<char>)
    ensures
        reported_value(words) == ErrorModel::Value(ReasonModel::Reported(words)),
        reported_runtime(words) == ErrorModel::Runtime(ReasonModel::Reported(words)),
        reason_text(ReasonModel::Reported(words)) == words,
{
}

/// The message for a parameter that is missing names it between quotes.
pub proof fn missing_parameter_is_named(name: Seq<char>)
    ensures
        reason_text(ReasonModel::ParamNotFound(name)) == "Param '"@ + name + "' not found"@,
{
}

/// A call from outside the ledger is packed with the tokens of its arguments, room for a
/// signature and the address that was given. Its headers are just three: when it is made,
/// when it expires, and the public key that was given, or none where none was. Nothing but
/// the arguments can make it fail.
pub proof fn external_call_carries_what_was_given(
    inputs: Seq<ParamModel>,
    input: Seq<ItemModel>,
    refusals: Seq<RefusalModel>,
    public_key: Option<Seq<u8>>,
    now: u64,
    expire_at: u32,
    address: Option<AddressModel>,
)
    ensures
        match external_call_model(
            inputs,
            input,
            refusals,
            public_key,
            now,
            expire_at,
            address,
        ) {
            Ok(call) => {
                &&& call.headers.dom() == set!["time"@, "expire"@, "pubkey"@]
                &&& call.headers["time"@] == TokenModel::Time(now)
                &&& call.headers["expire"@] == TokenModel::Expire(expire_at)
                &&& call.headers["pubkey"@] == TokenModel::PublicKey(public_key)
                &&& call.expire_at == expire_at
                &&& !call.internal
                &&& call.reserve_sign
                &&& call.address == address
                &&& parse_params_model(inputs, input, refusals) == Ok::<
                    Seq<NamedTokenModel>,
                    ErrorModel,
                >(call.tokens)
            },
            Err(e) => parse_params_model(inputs, input, refusals) == Err::<
                Seq<NamedTokenModel>,
                ErrorModel,
            >(e),
        },
{
    default_headers_are_three(now, expire_at, public_key);
}

/// The body that waits for a signature is the packed one, with what is to be signed and
/// with the version and the expiry of its call.
pub proof fn packed_call_waits_for_a_signature(
    abi_version: AbiVersion,
    expire_at: u32,
    packed: Result<PackedCall, String>,
)
    ensures
        match packed {
            Ok(call) => {
                &&& unsigned_body_model(abi_version, expire_at, packed) matches Ok(body)
                &&& body.abi_version == abi_version
                &&& body.payload == call.payload@
                &&& body.hash == call.hash@
                &&& body.expire_at == expire_at
            },
            Err(words) => unsigned_body_model(abi_version, expire_at, packed) == Err::<
                UnsignedBodyModel,
                ErrorModel,
            >(ErrorModel::Runtime(ReasonModel::Reported(words@))),
        },
{
}

/// A signature is put into the body as it is, for the version of the body; a fake one is
/// sixty-four zeros.
pub proof fn signature_is_put_into_the_body(
    body: UnsignedBodyModel,
    signature: Option<Seq<u8>>,
)
    ensures
        fill_model(body, signature).abi_version == body.abi_version,
        fill_model(body, signature).payload == body.payload,
        fill_model(body, signature).signature == signature,
        fake_signature().len() == 64,
        forall|i: int| 0 <= i < 64 ==> #[trigger] fake_signature()[i] == 0,
{
}

/// A message from outside the ledger goes where it was addressed to, brings the initial
/// state that was set, and has the body that it was filled with; its hash is put to it, or
/// the words of the error say why there is none.
pub proof fn message_is_made_of_its_parts(
    message: UnsignedMessageModel,
    body: Seq<u8>,
    draft: DraftModel,
    hash: Seq<u8>,
    words: Seq<char>,
)
    ensures
        draft_model(message, body).header == HeaderModel::ExternalInbound(message.dst),
        draft_model(message, body).state_init == message.state_init,
        draft_model(message, body).body == body,
        sealed_model(draft, Ok(hash)) matches Ok(sealed) && sealed.data == draft && sealed.hash
            == hash,
        sealed_model(draft, Err(words)) matches Err(e) && e == ErrorModel::Runtime(
            ReasonModel::Reported(words),
        ),
{
}

/// Tokens that come back are given back as the dictionary for them; an error that comes back
/// is a `RuntimeError` with its words.
pub proof fn decoded_body_is_a_dictionary(returned: Result<Seq<NamedTokenModel>, Seq<char>>)
    ensures
        match returned {
            Ok(tokens) => match converted_model(returned) {
                Ok(items) => is_dictionary_of(items, tokens),
                Err(e) => convert_named_model(tokens) == Err::<Seq<ItemModel>, ErrorModel>(e),
            },
            Err(words) => converted_model(returned) == Err::<Seq<ItemModel>, ErrorModel>(
                ErrorModel::Runtime(ReasonModel::Reported(words)),
            ),
        },
        returned matches Ok(tokens) ==> (converted_model(returned) is Ok <==> convert_named_model(
            tokens,
        ) is Ok),
{
    if let Ok(tokens) = returned {
        given_back_is_dictionary(tokens);
    }
}

/// A call holds the dictionary for the tokens of its input and the dictionary for the tokens
/// of its output; the input decides first where one of them is not given back.
pub proof fn call_holds_input_and_output(
    input: Seq<NamedTokenModel>,
    output: Seq<NamedTokenModel>,
)
    ensures
        match call_model(input, output) {
            Ok(call) => is_dictionary_of(call.input, input) && is_dictionary_of(
                call.output,
                output,
            ),
            Err(e) => match convert_named_model(input) {
                Err(first) => e == first,
                Ok(_) => convert_named_model(output) == Err::<Seq<ItemModel>, ErrorModel>(e),
            },
        },
        call_model(input, output) is Ok <==> convert_named_model(input) is Ok
            && convert_named_model(output) is Ok,
{
    given_back_is_dictionary(input);
    given_back_is_dictionary(output);
}

/// The call of a function is read from a transaction exactly if the transaction has a
/// message with a body, its input and its output come back, and both are given back. Its
/// input and its output are then the dictionaries for what came back. The first step that
/// fails says why.
pub proof fn transaction_call_holds_what_came_back(
    in_msg: Result<Option<InMessageModel>, Seq<char>>,
    input: Result<Seq<NamedTokenModel>, Seq<char>>,
    output: Result<Seq<NamedTokenModel>, Seq<char>>,
)
    ensures
        match transaction_call_model(in_msg, input, output) {
            Ok(call) => {
                &&& in_msg matches Ok(Some(message))
                &&& message.body is Some
                &&& input matches Ok(given)
                &&& output matches Ok(answer)
                &&& is_dictionary_of(call.input, given)
                &&& is_dictionary_of(call.output, answer)
            },
            Err(e) => match in_msg {
                Err(words) => e == ErrorModel::Runtime(ReasonModel::Reported(words)),
                Ok(None) => e == ErrorModel::Runtime(ReasonModel::NoInMessage),
                Ok(Some(message)) => if message.body is None {
                    e == ErrorModel::Runtime(ReasonModel::NoInMessageBody)
                } else {
                    match (input, output) {
                        (Err(words), _) => e == ErrorModel::Runtime(ReasonModel::Reported(words)),
                        (Ok(_), Err(words)) => e == ErrorModel::Runtime(
                            ReasonModel::Reported(words),
                        ),
                        (Ok(given), Ok(answer)) => match convert_named_model(given) {
                            Err(first) => e == first,
                            Ok(_) => convert_named_model(answer) == Err::<
                                Seq<ItemModel>,
                                ErrorModel,
                            >(e),
                        },
                    }
                },
            },
        },
{
    if let (Ok(given), Ok(answer)) = (input, output) {
        call_holds_input_and_output(given, answer);
    }
}

/// Where a local run comes back, the exit code is its result code, and there is an output
/// exactly if tokens came back, whatever the result code is: the dictionary for those
/// tokens. A run that fails is a `RuntimeError` with its words.
pub proof fn local_run_gives_its_output(run: Result<LocalRun, String>)
    ensures
        match run {
            Err(words) => execution_model(run) matches Err(e) && e == ErrorModel::Runtime(
                ReasonModel::Reported(words@),
            ),
            Ok(LocalRun { result_code, tokens: None }) => execution_model(run) matches Ok(done)
                && done.exit_code == result_code && done.output is None,
            Ok(LocalRun { result_code, tokens: Some(tokens) }) => match execution_model(run) {
                Ok(done) => {
                    &&& done.exit_code == result_code
                    &&& done.output matches Some(items)
                    &&& is_dictionary_of(items, named_tokens_model(tokens@))
                },
                Err(e) => convert_named_model(named_tokens_model(tokens@)) == Err::<
                    Seq<ItemModel>,
                    ErrorModel,
                >(e),
            },
        },
{
    if let Ok(done) = run {
        if let Some(tokens) = done.tokens {
            given_back_is_dictionary(named_tokens_model(tokens@));
        }
    }
}

/// An event is read from a message exactly if the message has a body, leaves the ledger, and
/// its values come back and are given back; it is then the dictionary for them. Each reason
/// to refuse decides in this order.
pub proof fn event_is_read_from_its_message(
    message: EventMessage,
    values: Result<Seq<NamedTokenModel>, Seq<char>>,
)
    ensures
        match event_message_model(message, values) {
            Ok(items) => {
                &&& message.body is Some
                &&& message.outbound_external
                &&& values matches Ok(tokens)
                &&& is_dictionary_of(items, tokens)
            },
            Err(e) => if message.body is None {
                e == ErrorModel::Value(ReasonModel::NoMessageBody)
            } else if !message.outbound_external {
                e == ErrorModel::Value(ReasonModel::NotOutbound)
            } else {
                match values {
                    Err(words) => e == ErrorModel::Runtime(ReasonModel::Reported(words)),
                    Ok(tokens) => convert_named_model(tokens) == Err::<Seq<ItemModel>, ErrorModel>(
                        e,
                    ),
                }
            },
        },
{
    decoded_body_is_a_dictionary(values);
}

/// Each comparison of numbers is the one that its name says.
pub proof fn comparisons_are_what_they_say(a: int, b: int)
    ensures
        compares(CompareOp::Lt, a, b) <==> a < b,
        compares(CompareOp::Le, a, b) <==> a <= b,
        compares(CompareOp::Eq, a, b) <==> a == b,
        compares(CompareOp::Ne, a, b) <==> a != b,
        compares(CompareOp::Gt, a, b) <==> a > b,
        compares(CompareOp::Ge, a, b) <==> a >= b,
{
}

/// Versions are compared by their major numbers, and by their minor numbers where those are
/// the same.
pub proof fn major_number_decides_before_minor(a: AbiVersion, b: AbiVersion)
    ensures
        compares(CompareOp::Lt, version_rank(a), version_rank(b)) <==> a.major < b.major || (a.major
            == b.major && a.minor < b.minor),
        compares(CompareOp::Eq, version_rank(a), version_rank(b)) <==> a.major == b.major && a.minor
            == b.minor,
        version_rank(a) == 256 * a.major + a.minor,
{
}

/// Functions are equal exactly if they are the same in every part, and stand in the order of
/// the ids of their calls.
pub proof fn functions_are_compared(a: FunctionModel, b: FunctionModel)
    ensures
        functions_compare(CompareOp::Eq, a, b) <==> a.abi_version == b.abi_version && a.name
            == b.name && a.header == b.header && a.inputs == b.inputs && a.outputs == b.outputs
            && a.input_id == b.input_id && a.output_id == b.output_id && a.has_output
            == b.has_output,
        functions_compare(CompareOp::Ne, a, b) <==> !functions_compare(CompareOp::Eq, a, b),
        functions_compare(CompareOp::Lt, a, b) <==> a.input_id < b.input_id,
        functions_compare(CompareOp::Le, a, b) <==> a.input_id <= b.input_id,
        functions_compare(CompareOp::Gt, a, b) <==> a.input_id > b.input_id,
        functions_compare(CompareOp::Ge, a, b) <==> a.input_id >= b.input_id,
{
}

/// Events are equal exactly if they are the same in every part, and stand in the order of
/// their ids.
pub proof fn events_are_compared(a: EventModel, b: EventModel)
    ensures
        events_compare(CompareOp::Eq, a, b) <==> a.abi_version == b.abi_version && a.name == b.name
            && a.inputs == b.inputs && a.id == b.id,
        events_compare(CompareOp::Ne, a, b) <==> !events_compare(CompareOp::Eq, a, b),
        events_compare(CompareOp::Lt, a, b) <==> a.id < b.id,
        events_compare(CompareOp::Le, a, b) <==> a.id <= b.id,
        events_compare(CompareOp::Gt, a, b) <==> a.id > b.id,
        events_compare(CompareOp::Ge, a, b) <==> a.id >= b.id,
{
}

} // verus!
