//! What comes back from decoding a body, and the messages that bodies come from.

use crate::convert::{convert_named_model, convert_tokens};
use crate::error::{handle_runtime_error, reported_runtime, AbiError, ErrorModel};
use crate::ledger::Cell;
use crate::token::{named_tokens_model, NamedTokenModel, Token};
use crate::value::{Dict, ItemModel};
use vstd::prelude::*;

verus! {

/// Tokens that came back from underneath, or the words of an error.
pub open spec fn returned_tokens(result: Result<Vec<Token>, String>) -> Result<
    Seq<NamedTokenModel>,
    Seq<char>,
> {
    match result {
        Ok(tokens) => Ok(named_tokens_model(tokens@)),
        Err(words) => Err(words@),
    }
}

/// The dictionary for tokens that came back.
pub open spec fn converted_model(returned: Result<Seq<NamedTokenModel>, Seq<char>>) -> Result<
    Seq<ItemModel>,
    ErrorModel,
> {
    match returned {
        Ok(tokens) => convert_named_model(tokens),
        Err(words) => Err(reported_runtime(words)),
    }
}

/// The dictionary for tokens that came back; an error that came back is a `RuntimeError`.
pub fn convert_returned(result: Result<Vec<Token>, String>) -> (dict: Result<Dict, AbiError>)
    ensures
        match dict {
            Ok(d) => converted_model(returned_tokens(result)) == Ok::<Seq<ItemModel>, ErrorModel>(
                d@,
            ),
            Err(e) => converted_model(returned_tokens(result)) == Err::<
                Seq<ItemModel>,
                ErrorModel,
            >(e@),
        },
{
    match handle_runtime_error(result) {
        Ok(tokens) => convert_tokens(tokens),
        Err(e) => Err(e),
    }
}

/// The message that a transaction came from.
#[derive(Debug, PartialEq, Eq)]
pub struct InMessage {
    pub body: Option<Cell>,
    pub internal: bool,
}

/// [`InMessage`] over models.
pub struct InMessageModel {
    pub body: Option<Seq<u8>>,
    pub internal: bool,
}

impl View for InMessage {
    type V = InMessageModel;

    open spec fn view(&self) -> InMessageModel {
        InMessageModel {
            body: match self.body {
                Some(cell) => Some(cell@),
                None => None,
            },
            internal: self.internal,
        }
    }
}

/// The message that a transaction came from, if one was read, or the words of an error.
pub open spec fn returned_message(result: Result<Option<InMessage>, String>) -> Result<
    Option<InMessageModel>,
    Seq<char>,
> {
    match result {
        Ok(Some(message)) => Ok(Some(message@)),
        Ok(None) => Ok(None),
        Err(words) => Err(words@),
    }
}

/// A body that is to be decoded, and how: whether it is of an internal message, and
/// whether it may hold more than the parameters.
#[derive(Debug, PartialEq, Eq)]
pub struct BodyDecoding {
    pub body: Cell,
    pub internal: bool,
    pub partial: bool,
}

/// [`BodyDecoding`] over models.
pub struct BodyDecodingModel {
    pub body: Seq<u8>,
    pub internal: bool,
    pub partial: bool,
}

impl View for BodyDecoding {
    type V = BodyDecodingModel;

    open spec fn view(&self) -> BodyDecodingModel {
        BodyDecodingModel { body: self.body@, internal: self.internal, partial: self.partial }
    }
}

/// The body of the message that a transaction came from, which is to be decoded whole.
/// There is none where no message was read or the message has none.
pub fn incoming_body(in_msg: &Result<Option<InMessage>, String>) -> (body: Option<BodyDecoding>)
    ensures
        match body {
            Some(b) => returned_message(*in_msg) matches Ok(Some(message)) && message.body == Some(
                b@.body,
            ) && b@.internal == message.internal && !b@.partial,
            None => !(returned_message(*in_msg) matches Ok(Some(message)) && message.body is Some),
        },
{
    match in_msg {
        Ok(Some(message)) => match &message.body {
            Some(body) => Some(
                BodyDecoding { body: body.clone(), internal: message.internal, partial: false },
            ),
            None => None,
        },
        _ => None,
    }
}

/// The input and the output of a call.
#[derive(Debug, PartialEq, Eq)]
pub struct FunctionCall {
    pub input: Dict,
    pub output: Dict,
}

/// [`FunctionCall`] over models.
pub struct CallModel {
    pub input: Seq<ItemModel>,
    pub output: Seq<ItemModel>,
}

impl View for FunctionCall {
    type V = CallModel;

    open spec fn view(&self) -> CallModel {
        CallModel { input: self.input@, output: self.output@ }
    }
}

/// The call that tokens give: first the input is converted, then the output.
pub open spec fn call_model(
    input: Seq<NamedTokenModel>,
    output: Seq<NamedTokenModel>,
) -> Result<CallModel, ErrorModel> {
    match convert_named_model(input) {
        Ok(i) => match convert_named_model(output) {
            Ok(o) => Ok(CallModel { input: i, output: o }),
            Err(e) => Err(e),
        },
        Err(e) => Err(e),
    }
}

impl FunctionCall {
    /// The call that tokens give.
    pub fn from_tokens(input: Vec<Token>, output: Vec<Token>) -> (call: Result<
        FunctionCall,
        AbiError,
    >)
        ensures
            match call {
                Ok(c) => call_model(named_tokens_model(input@), named_tokens_model(output@))
                    == Ok::<CallModel, ErrorModel>(c@),
                Err(e) => call_model(named_tokens_model(input@), named_tokens_model(output@))
                    == Err::<CallModel, ErrorModel>(e@),
            },
    {
        let input: Dict = match convert_tokens(input) {
            Ok(dict) => dict,
            Err(e) => {
                return Err(e);
            },
        };
        let output: Dict = match convert_tokens(output) {
            Ok(dict) => dict,
            Err(e) => {
                return Err(e);
            },
        };
        Ok(FunctionCall { input, output })
    }
}

} // verus!
