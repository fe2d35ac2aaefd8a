//! The events of a contract.

use crate::decode::{convert_returned, converted_model, returned_tokens};
use crate::error::{AbiError, ErrorModel, Reason, ReasonModel};
use crate::ledger::Cell;
use crate::param::{copy_params, params_model, same_params, Param, ParamModel};
use crate::token::{NamedTokenModel, Token};
use crate::value::{Dict, ItemModel};
use crate::version::{compares, AbiVersion, CompareOp};
use vstd::prelude::*;

verus! {

/// An event of a contract.
#[derive(Debug, PartialEq, Eq)]
pub struct EventAbi {
    pub abi_version: AbiVersion,
    pub name: String,
    pub inputs: Vec<Param>,
    pub id: u32,
}

/// [`EventAbi`] over models.
pub struct EventModel {
    pub abi_version: AbiVersion,
    pub name: Seq<char>,
    pub inputs: Seq<ParamModel>,
    pub id: u32,
}

impl View for EventAbi {
    type V = EventModel;

    open spec fn view(&self) -> EventModel {
        EventModel {
            abi_version: self.abi_version,
            name: self.name@,
            inputs: params_model(self.inputs@),
            id: self.id,
        }
    }
}

impl Clone for EventAbi {
    fn clone(&self) -> (copy: EventAbi)
        ensures
            copy@ == self@,
    {
        EventAbi {
            abi_version: self.abi_version,
            name: self.name.clone(),
            inputs: copy_params(self.inputs.as_slice()),
            id: self.id,
        }
    }
}

/// Whether a comparison holds of two events: they are equal if they are the same in all
/// parts, and they stand in the order of their ids.
pub open spec fn events_compare(op: CompareOp, a: EventModel, b: EventModel) -> bool {
    match op {
        CompareOp::Eq => a == b,
        CompareOp::Ne => a != b,
        _ => compares(op, a.id as int, b.id as int),
    }
}

/// Events that are equal have one hash, and none of them stands before the other.
pub proof fn equal_events_have_one_hash(a: EventModel, b: EventModel)
    requires
        events_compare(CompareOp::Eq, a, b),
    ensures
        a.id as u64 == b.id as u64,
        !events_compare(CompareOp::Lt, a, b),
        !events_compare(CompareOp::Gt, a, b),
        events_compare(CompareOp::Le, a, b),
        events_compare(CompareOp::Ge, a, b),
        !events_compare(CompareOp::Ne, a, b),
{
}

/// A message that an event may be read from.
#[derive(Debug, PartialEq, Eq)]
pub struct EventMessage {
    pub body: Option<Cell>,
    pub outbound_external: bool,
}

impl EventMessage {
    /// The body that is to be decoded. There is none where the message has none or does
    /// not leave the ledger.
    pub fn event_body(&self) -> (body: Option<Cell>)
        ensures
            match body {
                Some(cell) => self.outbound_external && (self.body matches Some(own) && own@
                    == cell@),
                None => !self.outbound_external || self.body is None,
            },
    {
        if !self.outbound_external {
            return None;
        }
        match &self.body {
            Some(cell) => Some(cell.clone()),
            None => None,
        }
    }
}

/// The event of a message, from what came back from decoding its body. A message without
/// a body, or one that does not leave the ledger, is refused.
pub open spec fn event_message_model(
    message: EventMessage,
    values: Result<Seq<NamedTokenModel>, Seq<char>>,
) -> Result<Seq<ItemModel>, ErrorModel> {
    if message.body is None {
        Err(ErrorModel::Value(ReasonModel::NoMessageBody))
    } else if !message.outbound_external {
        Err(ErrorModel::Value(ReasonModel::NotOutbound))
    } else {
        converted_model(values)
    }
}

impl EventAbi {
    /// The version of the ABI.
    pub fn abi_version(&self) -> (version: AbiVersion)
        ensures
            version == self@.abi_version,
    {
        self.abi_version
    }

    /// The name of the event.
    pub fn name(&self) -> (name: String)
        ensures
            name@ == self@.name,
    {
        self.name.clone()
    }

    /// The id of the event.
    pub fn id(&self) -> (id: u32)
        ensures
            id == self@.id,
    {
        self.id
    }

    /// The event of a message, from what came back from decoding its body.
    pub fn decode_message(
        &self,
        message: &EventMessage,
        values: Result<Vec<Token>, String>,
    ) -> (dict: Result<Dict, AbiError>)
        ensures
            match dict {
                Ok(d) => event_message_model(*message, returned_tokens(values)) == Ok::<
                    Seq<ItemModel>,
                    ErrorModel,
                >(d@),
                Err(e) => event_message_model(*message, returned_tokens(values)) == Err::<
                    Seq<ItemModel>,
                    ErrorModel,
                >(e@),
            },
    {
        if message.body.is_none() {
            return Err(AbiError::Value(Reason::NoMessageBody));
        }
        if !message.outbound_external {
            return Err(AbiError::Value(Reason::NotOutbound));
        }
        convert_returned(values)
    }

    /// The event, from what came back from decoding a body.
    pub fn decode_message_body(&self, values: Result<Vec<Token>, String>) -> (dict: Result<
        Dict,
        AbiError,
    >)
        ensures
            match dict {
                Ok(d) => converted_model(returned_tokens(values)) == Ok::<
                    Seq<ItemModel>,
                    ErrorModel,
                >(d@),
                Err(e) => converted_model(returned_tokens(values)) == Err::<
                    Seq<ItemModel>,
                    ErrorModel,
                >(e@),
            },
    {
        convert_returned(values)
    }

    /// A hash.
    pub fn __hash__(&self) -> (hash: u64)
        ensures
            hash == self@.id as u64,
    {
        self.id as u64
    }

    /// Whether two events are the same in all parts.
    pub fn same(&self, other: &EventAbi) -> (same: bool)
        ensures
            same == (self@ == other@),
    {
        self.abi_version.major == other.abi_version.major && self.abi_version.minor
            == other.abi_version.minor && self.name == other.name && same_params(
            self.inputs.as_slice(),
            other.inputs.as_slice(),
        ) && self.id == other.id
    }

    /// Whether a comparison holds of two events.
    pub fn __richcmp__(&self, other: &EventAbi, op: CompareOp) -> (holds: bool)
        ensures
            holds == events_compare(op, self@, other@),
    {
        match op {
            CompareOp::Eq => self.same(other),
            CompareOp::Ne => !self.same(other),
            _ => op.holds(self.id, other.id),
        }
    }
}

} // verus!
