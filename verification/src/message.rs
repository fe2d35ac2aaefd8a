//! Messages: their headers, and bodies that wait for a signature.

use crate::error::{
    handle_runtime_error, reported_runtime, AbiError, ErrorModel,
};
use crate::ledger::{copy_bytes, Address, AddressModel, Cell, StateInit};
use crate::version::AbiVersion;
use vstd::prelude::*;

verus! {

/// The header of a message.
#[derive(Debug, PartialEq, Eq)]
pub enum MessageHeader {
    /// A message from one account to another.
    Internal(InternalHeader),
    /// A message from outside the ledger to an account.
    ExternalInbound(Address),
}

/// The header of a message from one account to another.
#[derive(Debug, PartialEq, Eq)]
pub struct InternalHeader {
    pub ihr_disabled: bool,
    pub bounce: bool,
    pub value: u64,
    pub src: Option<Address>,
    pub dst: Address,
}

/// A message before its hash is taken. What a header does not say here has the value
/// that the ledger library gives it by default.
#[derive(Debug, PartialEq, Eq)]
pub struct MessageDraft {
    pub header: MessageHeader,
    pub state_init: Option<StateInit>,
    pub body: Cell,
}

/// A message and its hash.
#[derive(Debug, PartialEq, Eq)]
pub struct Message {
    pub data: MessageDraft,
    pub hash: Vec<u8>,
}

/// [`MessageHeader`] over models.
pub enum HeaderModel {
    Internal {
        ihr_disabled: bool,
        bounce: bool,
        value: u64,
        src: Option<AddressModel>,
        dst: AddressModel,
    },
    ExternalInbound(AddressModel),
}

/// [`MessageDraft`] over models.
pub struct DraftModel {
    pub header: HeaderModel,
    pub state_init: Option<Seq<u8>>,
    pub body: Seq<u8>,
}

/// [`Message`] over models.
pub struct MessageModel {
    pub data: DraftModel,
    pub hash: Seq<u8>,
}

/// An optional address over its model.
pub open spec fn optional_address(address: Option<Address>) -> Option<AddressModel> {
    match address {
        Some(a) => Some(a@),
        None => None,
    }
}

/// An optional initial state over its model.
pub open spec fn optional_state(state_init: Option<StateInit>) -> Option<Seq<u8>> {
    match state_init {
        Some(s) => Some(s@),
        None => None,
    }
}

impl View for MessageHeader {
    type V = HeaderModel;

    open spec fn view(&self) -> HeaderModel {
        match self {
            MessageHeader::Internal(h) => HeaderModel::Internal {
                ihr_disabled: h.ihr_disabled,
                bounce: h.bounce,
                value: h.value,
                src: optional_address(h.src),
                dst: h.dst@,
            },
            MessageHeader::ExternalInbound(dst) => HeaderModel::ExternalInbound(dst@),
        }
    }
}

impl View for MessageDraft {
    type V = DraftModel;

    open spec fn view(&self) -> DraftModel {
        DraftModel {
            header: self.header@,
            state_init: optional_state(self.state_init),
            body: self.body@,
        }
    }
}

impl View for Message {
    type V = MessageModel;

    open spec fn view(&self) -> MessageModel {
        MessageModel { data: self.data@, hash: self.hash@ }
    }
}

/// A message as it stands once its hash came back.
pub open spec fn sealed_model(draft: DraftModel, hash: Result<Seq<u8>, Seq<char>>) -> Result<
    MessageModel,
    ErrorModel,
> {
    match hash {
        Ok(h) => Ok(MessageModel { data: draft, hash: h }),
        Err(words) => Err(reported_runtime(words)),
    }
}

/// Bytes that came back from underneath, or the words of an error.
pub open spec fn returned_bytes(result: Result<Vec<u8>, String>) -> Result<Seq<u8>, Seq<char>> {
    match result {
        Ok(bytes) => Ok(bytes@),
        Err(words) => Err(words@),
    }
}

/// A cell that came back from underneath, or the words of an error.
pub open spec fn returned_cell(result: Result<Cell, String>) -> Result<Seq<u8>, Seq<char>> {
    match result {
        Ok(cell) => Ok(cell@),
        Err(words) => Err(words@),
    }
}

impl MessageDraft {
    /// Puts the hash of the message to it.
    pub fn seal(self, hash: Result<Vec<u8>, String>) -> (message: Result<Message, AbiError>)
        ensures
            match message {
                Ok(m) => sealed_model(self@, returned_bytes(hash)) == Ok::<
                    MessageModel,
                    ErrorModel,
                >(m@),
                Err(e) => sealed_model(self@, returned_bytes(hash)) == Err::<
                    MessageModel,
                    ErrorModel,
                >(e@),
            },
    {
        match handle_runtime_error(hash) {
            Ok(hash) => Ok(Message { data: self, hash }),
            Err(e) => Err(e),
        }
    }
}

/// An Ed25519 signature.
#[derive(Debug, Clone, Copy, PartialEq, Eq)]
pub struct Signature {
    pub bytes: [u8; 64],
}

/// What is to be put into a body that waits for a signature.
#[derive(Debug, PartialEq, Eq)]
pub struct FillSign {
    pub abi_version: AbiVersion,
    pub signature: Option<Vec<u8>>,
    pub payload: Cell,
}

/// [`FillSign`] over models.
pub struct FillSignModel {
    pub abi_version: AbiVersion,
    pub signature: Option<Seq<u8>>,
    pub payload: Seq<u8>,
}

impl View for FillSign {
    type V = FillSignModel;

    open spec fn view(&self) -> FillSignModel {
        FillSignModel {
            abi_version: self.abi_version,
            signature: match self.signature {
                Some(bytes) => Some(bytes@),
                None => None,
            },
            payload: self.payload@,
        }
    }
}

/// A body that waits for a signature.
#[derive(Debug, PartialEq, Eq)]
pub struct UnsignedBody {
    pub abi_version: AbiVersion,
    pub payload: Cell,
    pub hash: Vec<u8>,
    pub expire_at: u32,
}

/// [`UnsignedBody`] over models.
pub struct UnsignedBodyModel {
    pub abi_version: AbiVersion,
    pub payload: Seq<u8>,
    pub hash: Seq<u8>,
    pub expire_at: u32,
}

impl View for UnsignedBody {
    type V = UnsignedBodyModel;

    open spec fn view(&self) -> UnsignedBodyModel {
        UnsignedBodyModel {
            abi_version: self.abi_version,
            payload: self.payload@,
            hash: self.hash@,
            expire_at: self.expire_at,
        }
    }
}

/// What is to be put into a body: a signature, or none.
pub open spec fn fill_model(body: UnsignedBodyModel, signature: Option<Seq<u8>>) -> FillSignModel {
    FillSignModel { abi_version: body.abi_version, signature, payload: body.payload }
}

/// A signature of zeros.
pub open spec fn fake_signature() -> Seq<u8> {
    Seq::new(64, |i: int| 0u8)
}

impl UnsignedBody {
    fn fill_signature(&self, signature: Option<&[u8]>) -> (fill: FillSign)
        ensures
            fill@ == fill_model(
                self@,
                match signature {
                    Some(bytes) => Some(bytes@),
                    None => None,
                },
            ),
    {
        FillSign {
            abi_version: self.abi_version,
            signature: match signature {
                Some(bytes) => Some(copy_bytes(bytes)),
                None => None,
            },
            payload: self.payload.clone(),
        }
    }

    /// What is to be signed.
    pub fn hash(&self) -> (hash: &[u8])
        ensures
            hash@ == self@.hash,
    {
        self.hash.as_slice()
    }

    /// When the message expires.
    pub fn expire_at(&self) -> (time: u32)
        ensures
            time == self@.expire_at,
    {
        self.expire_at
    }

    /// The body with the signature that a key made of [`UnsignedBody::hash`].
    pub fn sign(&self, signature: &Signature) -> (fill: FillSign)
        ensures
            fill@ == fill_model(self@, Some(signature.bytes@)),
    {
        self.with_signature(signature)
    }

    /// The body with a signature.
    pub fn with_signature(&self, signature: &Signature) -> (fill: FillSign)
        ensures
            fill@ == fill_model(self@, Some(signature.bytes@)),
    {
        self.fill_signature(Some(signature.bytes.as_slice()))
    }

    /// The body with a signature of zeros.
    pub fn with_fake_signature(&self) -> (fill: FillSign)
        ensures
            fill@ == fill_model(self@, Some(fake_signature())),
    {
        let zeros: [u8; 64] = [0u8; 64];
        assert(zeros@ =~= fake_signature());
        self.fill_signature(Some(zeros.as_slice()))
    }

    /// The body without a signature.
    pub fn without_signature(&self) -> (fill: FillSign)
        ensures
            fill@ == fill_model(self@, None),
    {
        self.fill_signature(None)
    }
}

/// A message from outside the ledger whose body waits for a signature.
#[derive(Debug, PartialEq, Eq)]
pub struct UnsignedExternalMessage {
    pub dst: Address,
    pub state_init: Option<StateInit>,
    pub body: UnsignedBody,
}

/// [`UnsignedExternalMessage`] over models.
pub struct UnsignedMessageModel {
    pub dst: AddressModel,
    pub state_init: Option<Seq<u8>>,
    pub body: UnsignedBodyModel,
}

impl View for UnsignedExternalMessage {
    type V = UnsignedMessageModel;

    open spec fn view(&self) -> UnsignedMessageModel {
        UnsignedMessageModel {
            dst: self.dst@,
            state_init: optional_state(self.state_init),
            body: self.body@,
        }
    }
}

/// The message that a body makes.
pub open spec fn draft_model(message: UnsignedMessageModel, body: Seq<u8>) -> DraftModel {
    DraftModel {
        header: HeaderModel::ExternalInbound(message.dst),
        state_init: message.state_init,
        body,
    }
}

/// A copy of an optional initial state.
pub(crate) fn copy_state(state_init: Option<&StateInit>) -> (copy: Option<StateInit>)
    ensures
        optional_state(copy) == (match state_init {
            Some(s) => Some(s@),
            None => None,
        }),
{
    match state_init {
        Some(s) => Some(s.clone()),
        None => None,
    }
}

impl UnsignedExternalMessage {
    /// The message with a body into which a signature was put, or the error with which
    /// that failed.
    pub fn fill_body(&self, body: Result<Cell, String>) -> (draft: Result<MessageDraft, AbiError>)
        ensures
            match draft {
                Ok(d) => returned_cell(body) matches Ok(cell) && d@ == draft_model(self@, cell),
                Err(e) => returned_cell(body) matches Err(words) && e@ == reported_runtime(words),
            },
    {
        match handle_runtime_error(body) {
            Ok(body) => Ok(
                MessageDraft {
                    header: MessageHeader::ExternalInbound(self.dst.clone()),
                    state_init: self.get_state_init(),
                    body,
                },
            ),
            Err(e) => Err(e),
        }
    }

    /// What is to be signed.
    pub fn hash(&self) -> (hash: &[u8])
        ensures
            hash@ == self@.body.hash,
    {
        self.body.hash()
    }

    /// When the message expires.
    pub fn expire_at(&self) -> (time: u32)
        ensures
            time == self@.body.expire_at,
    {
        self.body.expire_at()
    }

    /// The initial state that the message brings.
    pub fn get_state_init(&self) -> (state_init: Option<StateInit>)
        ensures
            optional_state(state_init) == self@.state_init,
    {
        copy_state(self.state_init.as_ref())
    }

    /// Sets the initial state that the message brings.
    pub fn set_state_init(&mut self, state_init: Option<StateInit>)
        ensures
            final(self)@ == (UnsignedMessageModel {
                state_init: optional_state(state_init),
                ..old(self)@
            }),
    {
        self.state_init = state_init;
    }

    /// The body with the signature that a key made of [`UnsignedExternalMessage::hash`].
    pub fn sign(&self, signature: &Signature) -> (fill: FillSign)
        ensures
            fill@ == fill_model(self@.body, Some(signature.bytes@)),
    {
        self.body.sign(signature)
    }

    /// The body with a signature.
    pub fn with_signature(&self, signature: &Signature) -> (fill: FillSign)
        ensures
            fill@ == fill_model(self@.body, Some(signature.bytes@)),
    {
        self.body.with_signature(signature)
    }

    /// The body with a signature of zeros.
    pub fn with_fake_signature(&self) -> (fill: FillSign)
        ensures
            fill@ == fill_model(self@.body, Some(fake_signature())),
    {
        self.body.with_fake_signature()
    }

    /// The body without a signature.
    pub fn without_signature(&self) -> (fill: FillSign)
        ensures
            fill@ == fill_model(self@.body, None),
    {
        self.body.without_signature()
    }
}

/// The initial state that is set is the one that the message brings, and setting it
/// changes neither where the message goes nor what is to be signed.
pub proof fn set_state_init_is_read_back(
    message: UnsignedMessageModel,
    state_init: Option<Seq<u8>>,
    body: Seq<u8>,
    signature: Option<Seq<u8>>,
)
    ensures
        ({
            let after = UnsignedMessageModel { state_init, ..message };
            &&& draft_model(after, body).state_init == state_init
            &&& draft_model(after, body).header == draft_model(message, body).header
            &&& draft_model(after, body).body == body
            &&& after.body.hash == message.body.hash
            &&& fill_model(after.body, signature) == fill_model(message.body, signature)
        }),
{
}

} // verus!
