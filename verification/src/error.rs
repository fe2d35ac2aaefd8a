//! The exceptions that a call can end in.

use crate::keys::{describe_hex_error, hex_error_text, HexError};
use vstd::prelude::*;
use vstd::string::StringExecFns;

verus! {

/// What kind of Python object a parameter asks for.
#[derive(Debug, Clone, Copy, PartialEq, Eq)]
pub enum PyKind {
    Bool,
    Int,
    Str,
    Bytes,
    List,
    Tuple,
    Dict,
    Cell,
    Address,
}

/// What an exception with a message says.
#[derive(Debug, PartialEq, Eq)]
pub enum Reason {
    /// The dictionary has no entry for a parameter.
    ParamNotFound(String),
    FixedArrayLength,
    FixedBytesLength,
    MapKeyMissing,
    MapKeyType,
    MapValueMissing,
    AddressType,
    NoOutput,
    NoInMessage,
    NoInMessageBody,
    NoMessageBody,
    NotOutbound,
    /// Text is not hexadecimal.
    Hex(HexError),
    /// The words of an error that a library underneath reported.
    Reported(String),
}

/// [`Reason`] over sequences of characters.
pub enum ReasonModel {
    ParamNotFound(Seq<char>),
    FixedArrayLength,
    FixedBytesLength,
    MapKeyMissing,
    MapKeyType,
    MapValueMissing,
    AddressType,
    NoOutput,
    NoInMessage,
    NoInMessageBody,
    NoMessageBody,
    NotOutbound,
    Hex(HexError),
    Reported(Seq<char>),
}

impl View for Reason {
    type V = ReasonModel;

    open spec fn view(&self) -> ReasonModel {
        match self {
            Reason::ParamNotFound(name) => ReasonModel::ParamNotFound(name@),
            Reason::FixedArrayLength => ReasonModel::FixedArrayLength,
            Reason::FixedBytesLength => ReasonModel::FixedBytesLength,
            Reason::MapKeyMissing => ReasonModel::MapKeyMissing,
            Reason::MapKeyType => ReasonModel::MapKeyType,
            Reason::MapValueMissing => ReasonModel::MapValueMissing,
            Reason::AddressType => ReasonModel::AddressType,
            Reason::NoOutput => ReasonModel::NoOutput,
            Reason::NoInMessage => ReasonModel::NoInMessage,
            Reason::NoInMessageBody => ReasonModel::NoInMessageBody,
            Reason::NoMessageBody => ReasonModel::NoMessageBody,
            Reason::NotOutbound => ReasonModel::NotOutbound,
            Reason::Hex(e) => ReasonModel::Hex(*e),
            Reason::Reported(words) => ReasonModel::Reported(words@),
        }
    }
}

/// The message of an exception.
pub open spec fn reason_text(reason: ReasonModel) -> Seq<char> {
    match reason {
        ReasonModel::ParamNotFound(name) => "Param '"@ + name + "' not found"@,
        ReasonModel::FixedArrayLength => "Invalid fixed array length"@,
        ReasonModel::FixedBytesLength => "Invalid fixed bytes length"@,
        ReasonModel::MapKeyMissing => "Expected mapping key in the first tuple element"@,
        ReasonModel::MapKeyType => "Unsupported mapping key type"@,
        ReasonModel::MapValueMissing => "Expected mapping value in the second tuple element"@,
        ReasonModel::AddressType => "Unsupported address type"@,
        ReasonModel::NoOutput => "No output messages produced"@,
        ReasonModel::NoInMessage => "Transaction without incoming message"@,
        ReasonModel::NoInMessageBody => "Incoming message without body"@,
        ReasonModel::NoMessageBody => "Message without body"@,
        ReasonModel::NotOutbound => "Message is not an external outbound"@,
        ReasonModel::Hex(e) => hex_error_text(e),
        ReasonModel::Reported(words) => words,
    }
}

impl Reason {
    /// The message of the exception.
    pub fn message(&self) -> (text: String)
        ensures
            text@ == reason_text(self@),
    {
        match self {
            Reason::ParamNotFound(name) => {
                let mut text: String = String::from_str("Param '");
                text.append(name.as_str());
                text.append("' not found");
                text
            },
            Reason::FixedArrayLength => String::from_str("Invalid fixed array length"),
            Reason::FixedBytesLength => String::from_str("Invalid fixed bytes length"),
            Reason::MapKeyMissing => {
                String::from_str("Expected mapping key in the first tuple element")
            },
            Reason::MapKeyType => String::from_str("Unsupported mapping key type"),
            Reason::MapValueMissing => {
                String::from_str("Expected mapping value in the second tuple element")
            },
            Reason::AddressType => String::from_str("Unsupported address type"),
            Reason::NoOutput => String::from_str("No output messages produced"),
            Reason::NoInMessage => String::from_str("Transaction without incoming message"),
            Reason::NoInMessageBody => String::from_str("Incoming message without body"),
            Reason::NoMessageBody => String::from_str("Message without body"),
            Reason::NotOutbound => String::from_str("Message is not an external outbound"),
            Reason::Hex(e) => describe_hex_error(*e),
            Reason::Reported(words) => words.clone(),
        }
    }
}

/// The exception that a call ends in.
#[derive(Debug, PartialEq, Eq)]
pub enum AbiError {
    /// `TypeError`: an object is not of the kind that is asked for.
    Type(PyKind),
    /// `OverflowError`: a number does not fit where it is to go.
    Overflow,
    /// `ValueError`.
    Value(Reason),
    /// `RuntimeError`.
    Runtime(Reason),
}

/// [`AbiError`] over sequences of characters.
pub enum ErrorModel {
    Type(PyKind),
    Overflow,
    Value(ReasonModel),
    Runtime(ReasonModel),
}

impl View for AbiError {
    type V = ErrorModel;

    open spec fn view(&self) -> ErrorModel {
        match self {
            AbiError::Type(kind) => ErrorModel::Type(*kind),
            AbiError::Overflow => ErrorModel::Overflow,
            AbiError::Value(reason) => ErrorModel::Value(reason@),
            AbiError::Runtime(reason) => ErrorModel::Runtime(reason@),
        }
    }
}

/// An error reported from underneath, raised as a `ValueError`.
pub open spec fn reported_value(words: Seq<char>) -> ErrorModel {
    ErrorModel::Value(ReasonModel::Reported(words))
}

/// An error reported from underneath, raised as a `RuntimeError`.
pub open spec fn reported_runtime(words: Seq<char>) -> ErrorModel {
    ErrorModel::Runtime(ReasonModel::Reported(words))
}

/// Raises an error reported from underneath as a `ValueError`.
pub fn handle_value_error<T>(result: Result<T, String>) -> (handled: Result<T, AbiError>)
    ensures
        match result {
            Ok(v) => handled == Ok::<T, AbiError>(v),
            Err(words) => handled matches Err(e) && e@ == reported_value(words@),
        },
{
    match result {
        Ok(v) => Ok(v),
        Err(words) => Err(AbiError::Value(Reason::Reported(words))),
    }
}

/// Raises an error reported from underneath as a `RuntimeError`.
pub fn handle_runtime_error<T>(result: Result<T, String>) -> (handled: Result<T, AbiError>)
    ensures
        match result {
            Ok(v) => handled == Ok::<T, AbiError>(v),
            Err(words) => handled matches Err(e) && e@ == reported_runtime(words@),
        },
{
    match result {
        Ok(v) => Ok(v),
        Err(words) => Err(AbiError::Runtime(Reason::Reported(words))),
    }
}

} // verus!
