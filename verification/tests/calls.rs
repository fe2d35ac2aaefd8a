use contract_abi::decode::InMessage;
use contract_abi::error::{AbiError, Reason};
use contract_abi::event::{EventAbi, EventMessage};
use contract_abi::function::{FunctionAbi, LocalRun, PackedCall};
use contract_abi::headers::{default_headers, message_timeout, ExpireAt};
use contract_abi::keys::PublicKey;
use contract_abi::ledger::{Address, Cell, MsgAddress, StateInit, StdAddress};
use contract_abi::message::{
    InternalHeader, MessageHeader, Signature, UnsignedBody, UnsignedExternalMessage,
};
use contract_abi::numbers::{BigInt, BigUint};
use contract_abi::param::{Param, ParamType};
use contract_abi::token::{Token, TokenValue};
use contract_abi::value::{Dict, Value};
use contract_abi::version::{AbiVersion, CompareOp};

fn function(name: &str, input_id: u32) -> FunctionAbi {
    FunctionAbi {
        abi_version: AbiVersion::new(2, 2),
        name: name.to_string(),
        header: vec![],
        inputs: vec![Param { name: "n".to_string(), kind: ParamType::Time }],
        outputs: vec![],
        input_id,
        output_id: input_id | 0x8000_0000,
        has_output: false,
    }
}

fn event(name: &str, id: u32) -> EventAbi {
    EventAbi {
        abi_version: AbiVersion::new(2, 2),
        name: name.to_string(),
        inputs: vec![],
        id,
    }
}

fn number(n: u128) -> Value {
    Value::Int(BigInt::new(false, BigUint::from_u128(n)))
}

fn input(n: u128) -> Dict {
    let mut dict = Dict::new();
    dict.set_item("n".to_string(), number(n));
    dict
}

fn tokens(n: u64) -> Vec<Token> {
    vec![Token { name: "n".to_string(), value: TokenValue::Time(n) }]
}

fn cell(byte: u8) -> Cell {
    Cell { boc: vec![byte] }
}

fn account() -> Address {
    Address::Std(StdAddress { anycast: None, workchain: 0, account: vec![1; 32] })
}

fn key() -> PublicKey {
    PublicKey::from_bytes(&[0; 32]).unwrap()
}

fn reported<T>(words: &str) -> Result<T, AbiError> {
    Err(AbiError::Runtime(Reason::Reported(words.to_string())))
}

#[test]
fn functions_have_their_parts() {
    let f = function("f", 7);
    assert_eq!(f.abi_version(), AbiVersion::new(2, 2));
    assert_eq!(f.name(), "f");
    assert_eq!(f.input_id(), 7);
    assert_eq!(f.output_id(), 0x8000_0007);
    assert_eq!(f.__hash__(), 7);
}

#[test]
fn functions_are_equal_in_all_parts_and_ordered_by_id() {
    let a = function("a", 1);
    let b = function("b", 1);
    assert!(a.__richcmp__(&a.clone(), CompareOp::Eq));
    assert!(!a.__richcmp__(&b, CompareOp::Eq));
    assert!(a.__richcmp__(&b, CompareOp::Ne));
    assert!(a.__richcmp__(&b, CompareOp::Le));
    assert!(a.__richcmp__(&b, CompareOp::Ge));
    assert!(a.__richcmp__(&function("a", 2), CompareOp::Lt));
    assert!(!a.__richcmp__(&function("a", 2), CompareOp::Gt));
    assert_eq!(a.__hash__(), a.clone().__hash__());
}

#[test]
fn local_call_is_prepared() {
    let f = function("f", 7);
    let call = f.prepare_call(&input(5), Some(true), &[]).unwrap();
    assert_eq!(call.tokens, tokens(5));
    assert!(call.responsible);
    assert!(!f.prepare_call(&input(5), Some(false), &[]).unwrap().responsible);
    assert!(!f.prepare_call(&input(5), None, &[]).unwrap().responsible);
    assert_eq!(
        f.prepare_call(&Dict::new(), None, &[]),
        Err(AbiError::Runtime(Reason::ParamNotFound("n".to_string())))
    );
}

#[test]
fn local_call_has_a_result() {
    let f = function("f", 7);
    let done = f.call(Ok(LocalRun { result_code: 3, tokens: Some(tokens(5)) })).unwrap();
    assert_eq!(done.exit_code, 3);
    assert_eq!(done.output, Some(input(5)));
    let failed = f.call(Ok(LocalRun { result_code: -14, tokens: None })).unwrap();
    assert_eq!(failed.exit_code, -14);
    assert_eq!(failed.output, None);
    assert_eq!(f.call(Err("no code".to_string())), reported("no code"));
}

#[test]
fn timeout_has_a_default() {
    assert_eq!(message_timeout(None), 60);
    assert_eq!(message_timeout(Some(5)), 5);
}

#[test]
fn headers_are_three() {
    let (expire_at, headers) = default_headers(10, ExpireAt { timestamp: 20 }, Some(&key()));
    assert_eq!(expire_at.timestamp, 20);
    assert_eq!(headers.len(), 3);
    assert_eq!(headers.get("time"), Some(&TokenValue::Time(10)));
    assert_eq!(headers.get("expire"), Some(&TokenValue::Expire(20)));
    assert_eq!(headers.get("pubkey"), Some(&TokenValue::PublicKey(Some(key()))));
    let (_, without) = default_headers(10, ExpireAt { timestamp: 20 }, None);
    assert_eq!(without.get("pubkey"), Some(&TokenValue::PublicKey(None)));
}

#[test]
fn external_call_is_prepared() {
    let f = function("f", 7);
    let call = f
        .prepare_external_input(&input(5), None, 10, ExpireAt { timestamp: 20 }, None, &[])
        .unwrap_or_else(|_| panic!("refused"));
    assert_eq!(call.tokens, tokens(5));
    assert!(!call.internal);
    assert!(call.reserve_sign);
    assert_eq!(call.address, None);
    assert_eq!(call.expire_at, 20);
    assert_eq!(call.headers.get("time"), Some(&TokenValue::Time(10)));
    let sent = f
        .prepare_external_message(&account(), &input(5), None, 10, ExpireAt { timestamp: 20 }, &[])
        .unwrap_or_else(|_| panic!("refused"));
    assert_eq!(sent.address, Some(account()));
    match f.prepare_external_input(
        &Dict::new(),
        None,
        10,
        ExpireAt { timestamp: 20 },
        None,
        &[],
    ) {
        Err(e) => assert_eq!(e, AbiError::Runtime(Reason::ParamNotFound("n".to_string()))),
        Ok(_) => panic!("accepted"),
    }
}

#[test]
fn external_call_waits_for_a_signature() {
    let f = function("f", 7);
    let call = f
        .prepare_external_input(&input(5), None, 10, ExpireAt { timestamp: 20 }, None, &[])
        .unwrap_or_else(|_| panic!("refused"));
    let packed = || PackedCall { payload: cell(1), hash: vec![9; 32] };
    let body = f.encode_external_input(&call, Ok(packed())).unwrap();
    assert_eq!(
        body,
        UnsignedBody {
            abi_version: AbiVersion::new(2, 2),
            payload: cell(1),
            hash: vec![9; 32],
            expire_at: 20,
        }
    );
    assert_eq!(f.encode_external_input(&call, Err("full".to_string())), reported("full"));
    let message = f
        .encode_external_message(account(), Some(&StateInit { boc: vec![2] }), &call, Ok(packed()))
        .unwrap();
    assert_eq!(message.dst, account());
    assert_eq!(message.state_init, Some(StateInit { boc: vec![2] }));
    assert_eq!(message.body, body);
    assert_eq!(
        f.encode_external_message(account(), None, &call, Err("full".to_string())),
        reported("full")
    );
}

fn unsigned() -> UnsignedExternalMessage {
    UnsignedExternalMessage {
        dst: account(),
        state_init: None,
        body: UnsignedBody {
            abi_version: AbiVersion::new(2, 3),
            payload: cell(1),
            hash: vec![9; 32],
            expire_at: 20,
        },
    }
}

#[test]
fn signatures_are_put_into_bodies() {
    let message = unsigned();
    let signature = Signature { bytes: [7; 64] };
    for fill in [message.sign(&signature), message.with_signature(&signature)] {
        assert_eq!(fill.signature, Some(vec![7; 64]));
        assert_eq!(fill.payload, cell(1));
        assert_eq!(fill.abi_version, AbiVersion::new(2, 3));
    }
    assert_eq!(message.with_fake_signature().signature, Some(vec![0; 64]));
    assert_eq!(message.without_signature().signature, None);
    assert_eq!(message.body.sign(&signature), message.sign(&signature));
    assert_eq!(message.body.with_signature(&signature), message.with_signature(&signature));
    assert_eq!(message.body.with_fake_signature(), message.with_fake_signature());
    assert_eq!(message.body.without_signature(), message.without_signature());
    assert_eq!(message.hash(), &[9; 32]);
    assert_eq!(message.expire_at(), 20);
}

#[test]
fn state_init_can_be_set() {
    let mut message = unsigned();
    assert_eq!(message.get_state_init(), None);
    message.set_state_init(Some(StateInit { boc: vec![4] }));
    assert_eq!(message.get_state_init(), Some(StateInit { boc: vec![4] }));
    assert_eq!(message.hash(), &[9; 32]);
    let draft = message.fill_body(Ok(cell(5))).unwrap();
    assert_eq!(draft.header, MessageHeader::ExternalInbound(account()));
    assert_eq!(draft.state_init, Some(StateInit { boc: vec![4] }));
    assert_eq!(draft.body, cell(5));
    message.set_state_init(None);
    assert_eq!(message.get_state_init(), None);
}

#[test]
fn message_is_sealed_with_its_hash() {
    let message = unsigned();
    assert_eq!(message.fill_body(Err("full".to_string())), reported("full"));
    let sealed = message.fill_body(Ok(cell(5))).unwrap().seal(Ok(vec![3; 32])).unwrap();
    assert_eq!(sealed.hash, vec![3; 32]);
    assert_eq!(sealed.data.body, cell(5));
    assert_eq!(
        message.fill_body(Ok(cell(5))).unwrap().seal(Err("deep".to_string())),
        reported("deep")
    );
}

#[test]
fn internal_message_is_made() {
    let f = function("f", 7);
    assert_eq!(f.prepare_internal_input(&input(5), &[]), Ok(tokens(5)));
    assert_eq!(f.encode_internal_input(Ok(cell(1))), Ok(cell(1)));
    assert_eq!(f.encode_internal_input(Err("full".to_string())), reported("full"));
    let draft = f
        .encode_internal_message(Ok(cell(1)), 100, true, account(), None, None)
        .unwrap();
    assert_eq!(
        draft.header,
        MessageHeader::Internal(InternalHeader {
            ihr_disabled: true,
            bounce: true,
            value: 100,
            src: None,
            dst: account(),
        })
    );
    assert_eq!(draft.state_init, None);
    assert_eq!(draft.body, cell(1));
    let with_src = f
        .encode_internal_message(
            Ok(cell(1)),
            0,
            false,
            account(),
            Some(account()),
            Some(&StateInit { boc: vec![8] }),
        )
        .unwrap();
    assert_eq!(with_src.state_init, Some(StateInit { boc: vec![8] }));
    assert_eq!(
        with_src.header,
        MessageHeader::Internal(InternalHeader {
            ihr_disabled: true,
            bounce: false,
            value: 0,
            src: Some(account()),
            dst: account(),
        })
    );
    assert_eq!(
        f.encode_internal_message(Err("full".to_string()), 0, false, account(), None, None),
        reported("full")
    );
}

#[test]
fn call_is_read_from_a_transaction() {
    let f = function("f", 7);
    let message = || Ok(Some(InMessage { body: Some(cell(1)), internal: true }));
    let call = f.decode_transaction(message(), Ok(tokens(5)), Ok(vec![])).unwrap();
    assert_eq!(call.input, input(5));
    assert_eq!(call.output, Dict::new());
    assert_eq!(
        f.decode_transaction(message(), Err("in".to_string()), Err("out".to_string())),
        reported("in")
    );
    assert_eq!(
        f.decode_transaction(message(), Ok(tokens(5)), Err("out".to_string())),
        reported("out")
    );
}

#[test]
fn transaction_without_message_has_no_call() {
    let f = function("f", 7);
    assert_eq!(
        f.decode_transaction(Err("torn".to_string()), Ok(vec![]), Ok(vec![])),
        reported("torn")
    );
    assert_eq!(
        f.decode_transaction(Ok(None), Ok(vec![]), Ok(vec![])),
        Err(AbiError::Runtime(Reason::NoInMessage))
    );
    assert_eq!(
        f.decode_transaction(
            Ok(Some(InMessage { body: None, internal: true })),
            Ok(vec![]),
            Ok(vec![])
        ),
        Err(AbiError::Runtime(Reason::NoInMessageBody))
    );
    assert_eq!(Reason::NoInMessage.message(), "Transaction without incoming message");
    assert_eq!(Reason::NoInMessageBody.message(), "Incoming message without body");
}

#[test]
fn bodies_are_decoded_as_asked() {
    let f = function("f", 7);
    let whole = f.prepare_decode_input(&cell(1), true, None);
    assert_eq!((whole.body, whole.internal, whole.partial), (cell(1), true, false));
    assert!(f.prepare_decode_input(&cell(1), true, Some(true)).partial);
    assert!(!f.prepare_decode_input(&cell(1), true, Some(false)).partial);
    let answer = f.prepare_decode_output(&cell(1), Some(true));
    assert_eq!((answer.body, answer.internal, answer.partial), (cell(1), false, true));
    assert_eq!(f.decode_input(Ok(tokens(5))), Ok(input(5)));
    assert_eq!(f.decode_input(Err("bad".to_string())), reported("bad"));
    assert_eq!(f.decode_output(Ok(tokens(5))), Ok(input(5)));
    assert_eq!(f.decode_output(Err("bad".to_string())), reported("bad"));
    assert_eq!(
        f.decode_output(Ok(vec![Token {
            name: "a".to_string(),
            value: TokenValue::Address(MsgAddress::AddrNone),
        }])),
        Err(AbiError::Runtime(Reason::AddressType))
    );
}

#[test]
fn events_have_their_parts() {
    let e = event("e", 7);
    assert_eq!(e.abi_version(), AbiVersion::new(2, 2));
    assert_eq!(e.name(), "e");
    assert_eq!(e.id(), 7);
    assert_eq!(e.__hash__(), 7);
}

#[test]
fn events_are_equal_in_all_parts_and_ordered_by_id() {
    let a = event("a", 1);
    let b = event("b", 1);
    assert!(a.__richcmp__(&a.clone(), CompareOp::Eq));
    assert!(!a.__richcmp__(&b, CompareOp::Eq));
    assert!(a.__richcmp__(&b, CompareOp::Ne));
    assert!(a.__richcmp__(&b, CompareOp::Le));
    assert!(a.__richcmp__(&event("a", 0), CompareOp::Gt));
}

#[test]
fn event_is_read_from_a_message() {
    let e = event("e", 7);
    let message = EventMessage { body: Some(cell(1)), outbound_external: true };
    assert_eq!(message.event_body(), Some(cell(1)));
    assert_eq!(e.decode_message(&message, Ok(tokens(5))), Ok(input(5)));
    assert_eq!(e.decode_message(&message, Err("bad".to_string())), reported("bad"));
    assert_eq!(e.decode_message_body(Ok(tokens(5))), Ok(input(5)));
    assert_eq!(e.decode_message_body(Err("bad".to_string())), reported("bad"));
}

#[test]
fn message_without_event_is_refused() {
    let e = event("e", 7);
    let empty = EventMessage { body: None, outbound_external: false };
    assert_eq!(empty.event_body(), None);
    assert_eq!(
        e.decode_message(&empty, Ok(tokens(5))),
        Err(AbiError::Value(Reason::NoMessageBody))
    );
    let internal = EventMessage { body: Some(cell(1)), outbound_external: false };
    assert_eq!(internal.event_body(), None);
    assert_eq!(
        e.decode_message(&internal, Ok(tokens(5))),
        Err(AbiError::Value(Reason::NotOutbound))
    );
    assert_eq!(Reason::NoMessageBody.message(), "Message without body");
    assert_eq!(Reason::NotOutbound.message(), "Message is not an external outbound");
}

#[test]
fn no_flag_asks_for_the_same_as_a_false_one() {
    let f = function("f", 7);
    assert_eq!(
        f.prepare_decode_input(&cell(1), true, None),
        f.prepare_decode_input(&cell(1), true, Some(false))
    );
    assert_eq!(
        f.prepare_decode_output(&cell(1), None),
        f.prepare_decode_output(&cell(1), Some(false))
    );
    assert_ne!(
        f.prepare_decode_input(&cell(1), true, None),
        f.prepare_decode_input(&cell(1), true, Some(true))
    );
}

#[test]
fn input_that_is_packed_and_decoded_comes_back() {
    let f = function("f", 7);
    let packed = f.prepare_internal_input(&input(5), &[]).unwrap();
    assert_eq!(f.decode_input(Ok(packed)), Ok(input(5)));
}
