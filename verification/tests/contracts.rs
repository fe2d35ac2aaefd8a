use contract_abi::contract::{ContractAbi, EventEntry, FunctionEntry};
use contract_abi::decode::{incoming_body, InMessage};
use contract_abi::error::{AbiError, PyKind, Reason};
use contract_abi::event::EventAbi;
use contract_abi::function::FunctionAbi;
use contract_abi::init_data::{DataItem, InitValue, PUBLIC_KEY_SLOT};
use contract_abi::keys::PublicKey;
use contract_abi::ledger::{Cell, MsgAddress};
use contract_abi::numbers::{BigInt, BigUint};
use contract_abi::param::{Param, ParamType};
use contract_abi::text::abi_text;
use contract_abi::token::{Token, TokenValue};
use contract_abi::transaction::{OutBody, OutMessage, OutRecord, Route};
use contract_abi::value::{Dict, Value};
use contract_abi::version::AbiVersion;

const OUTPUT_ID: u32 = 0x8000_0001;

fn function(has_output: bool) -> FunctionAbi {
    FunctionAbi {
        abi_version: AbiVersion::new(2, 2),
        name: "f".to_string(),
        header: vec![],
        inputs: vec![],
        outputs: vec![],
        input_id: 1,
        output_id: OUTPUT_ID,
        has_output,
    }
}

fn event(name: &str) -> EventAbi {
    EventAbi {
        abi_version: AbiVersion::new(2, 2),
        name: name.to_string(),
        inputs: vec![],
        id: 5,
    }
}

fn item(name: &str, key: u64, kind: ParamType) -> DataItem {
    DataItem { name: name.to_string(), key, value: Param { name: name.to_string(), kind } }
}

fn contract(has_output: bool) -> ContractAbi {
    ContractAbi::new(
        AbiVersion::new(2, 2),
        vec![FunctionEntry { name: "f".to_string(), abi: function(has_output) }],
        vec![
            EventEntry { name: "e".to_string(), abi: event("e") },
            EventEntry { name: "g".to_string(), abi: event("g") },
        ],
        vec![item("a", 1, ParamType::Bool), item("b", 2, ParamType::Time)],
    )
}

fn cell(byte: u8) -> Cell {
    Cell { boc: vec![byte] }
}

fn number(n: u64) -> Value {
    Value::Int(BigInt::new(false, BigUint::from_u128(n as u128)))
}

fn tokens(n: u64) -> Vec<Token> {
    vec![Token { name: "n".to_string(), value: TokenValue::Time(n) }]
}

fn bad_tokens() -> Vec<Token> {
    vec![Token { name: "n".to_string(), value: TokenValue::Address(MsgAddress::AddrNone) }]
}

fn dict(n: u64) -> Dict {
    let mut dict = Dict::new();
    dict.set_item("n".to_string(), number(n));
    dict
}

fn message(id: Option<u32>, event: Option<&str>) -> OutMessage {
    OutMessage {
        outbound_external: true,
        body: Some(OutBody {
            cell: cell(1),
            function_id: id,
            event: event.map(|name| name.to_string()),
        }),
    }
}

fn record(id: u32, event: Option<&str>, n: u64) -> OutRecord {
    OutRecord { message: Ok(message(Some(id), event)), decoded: Ok(tokens(n)) }
}

fn in_msg() -> Result<Option<InMessage>, String> {
    Ok(Some(InMessage { body: Some(cell(2)), internal: false }))
}

fn guess() -> Result<Option<String>, String> {
    Ok(Some("f".to_string()))
}

fn reported<T>(words: &str) -> Result<T, AbiError> {
    Err(AbiError::Runtime(Reason::Reported(words.to_string())))
}

#[test]
fn functions_and_events_are_found_by_name() {
    let c = contract(true);
    assert_eq!(c.abi_version(), AbiVersion::new(2, 2));
    assert_eq!(c.get_function("f"), Some(function(true)));
    assert_eq!(c.get_function("e"), None);
    assert_eq!(c.get_event("e"), Some(event("e")));
    assert_eq!(c.get_event("f"), None);
}

#[test]
fn last_entry_of_a_name_is_found() {
    let c = ContractAbi::new(
        AbiVersion::new(1, 0),
        vec![
            FunctionEntry { name: "f".to_string(), abi: function(true) },
            FunctionEntry { name: "f".to_string(), abi: function(false) },
        ],
        vec![],
        vec![],
    );
    assert_eq!(c.get_function("f"), Some(function(false)));
}

#[test]
fn messages_are_routed() {
    let answer = message(Some(OUTPUT_ID), Some("e"));
    match answer.route(Some(OUTPUT_ID)) {
        Route::Output(decoding) => {
            assert_eq!(decoding.body, cell(1));
            assert!(!decoding.internal);
            assert!(!decoding.partial);
        }
        other => panic!("{:?}", other),
    }
    assert_eq!(answer.route(None), Route::Event("e".to_string(), cell(1)));
    assert_eq!(
        message(Some(5), Some("e")).route(Some(OUTPUT_ID)),
        Route::Event("e".to_string(), cell(1))
    );
    assert_eq!(message(Some(5), None).route(Some(OUTPUT_ID)), Route::Skip);
    assert_eq!(message(None, Some("e")).route(Some(OUTPUT_ID)), Route::Skip);
    let internal = OutMessage { outbound_external: false, ..message(Some(OUTPUT_ID), None) };
    assert_eq!(internal.route(Some(OUTPUT_ID)), Route::Skip);
    let empty = OutMessage { outbound_external: true, body: None };
    assert_eq!(empty.route(Some(OUTPUT_ID)), Route::Skip);
}

#[test]
fn incoming_body_is_decoded_whole() {
    let body = incoming_body(&in_msg()).unwrap();
    assert_eq!(body.body, cell(2));
    assert!(!body.internal);
    assert!(!body.partial);
    assert_eq!(incoming_body(&Ok(None)), None);
    assert_eq!(incoming_body(&Ok(Some(InMessage { body: None, internal: true }))), None);
    assert_eq!(incoming_body(&Err("torn".to_string())), None);
}

#[test]
fn transaction_is_read_whole() {
    let call = contract(true)
        .decode_transaction(
            in_msg(),
            guess(),
            Ok(tokens(1)),
            vec![
                record(5, Some("g"), 2),
                record(OUTPUT_ID, None, 3),
                record(9, None, 4),
                record(5, Some("e"), 5),
                record(OUTPUT_ID, None, 6),
            ],
        )
        .unwrap()
        .unwrap();
    assert_eq!(call.call.input, dict(1));
    assert_eq!(call.call.output, dict(6));
    assert_eq!(call.function, function(true));
    assert_eq!(call.events.len(), 2);
    assert_eq!(call.events[0].event, event("g"));
    assert_eq!(call.events[0].input, dict(2));
    assert_eq!(call.events[1].event, event("e"));
    assert_eq!(call.events[1].input, dict(5));
}

#[test]
fn answer_is_owed_where_the_function_has_one() {
    assert_eq!(
        contract(true).decode_transaction(in_msg(), guess(), Ok(tokens(1)), vec![]),
        Err(AbiError::Runtime(Reason::NoOutput))
    );
    let call = contract(false)
        .decode_transaction(in_msg(), guess(), Ok(tokens(1)), vec![])
        .unwrap()
        .unwrap();
    assert_eq!(call.call.output, Dict::new());
    assert_eq!(Reason::NoOutput.message(), "No output messages produced");
}

#[test]
fn transaction_may_have_no_call() {
    let c = contract(true);
    assert_eq!(c.decode_transaction(Ok(None), Ok(None), Ok(vec![]), vec![]), Ok(None));
    assert_eq!(
        c.decode_transaction(
            Ok(Some(InMessage { body: None, internal: true })),
            Err("unread".to_string()),
            Ok(vec![]),
            vec![]
        ),
        Ok(None)
    );
    assert_eq!(c.decode_transaction(in_msg(), Ok(None), Ok(vec![]), vec![]), Ok(None));
}

#[test]
fn transaction_steps_fail_in_order() {
    let c = contract(true);
    let torn = || vec![OutRecord { message: Err("torn".to_string()), decoded: Ok(vec![]) }];
    assert_eq!(
        c.decode_transaction(Err("cut".to_string()), Err("odd".to_string()), Ok(vec![]), torn()),
        reported("cut")
    );
    assert_eq!(
        c.decode_transaction(in_msg(), Err("odd".to_string()), Err("in".to_string()), torn()),
        Err(AbiError::Value(Reason::Reported("odd".to_string())))
    );
    assert_eq!(
        c.decode_transaction(in_msg(), guess(), Err("in".to_string()), torn()),
        reported("in")
    );
    assert_eq!(c.decode_transaction(in_msg(), guess(), Ok(vec![]), torn()), reported("torn"));
    let undecoded = vec![OutRecord {
        message: Ok(message(Some(OUTPUT_ID), None)),
        decoded: Err("short".to_string()),
    }];
    assert_eq!(c.decode_transaction(in_msg(), guess(), Ok(vec![]), undecoded), reported("short"));
    let odd_event = vec![
        OutRecord { message: Ok(message(Some(5), Some("e"))), decoded: Ok(bad_tokens()) },
        record(OUTPUT_ID, None, 1),
    ];
    assert_eq!(
        c.decode_transaction(in_msg(), guess(), Ok(vec![]), odd_event),
        Err(AbiError::Runtime(Reason::AddressType))
    );
}

#[test]
fn skipped_messages_are_not_decoded() {
    let skipped = OutRecord {
        message: Ok(message(Some(9), None)),
        decoded: Err("unread".to_string()),
    };
    assert_eq!(contract(true).decode_transaction_events(vec![skipped]), Ok(vec![]));
}

#[test]
fn events_of_a_transaction_are_read() {
    let c = contract(true);
    let events = c
        .decode_transaction_events(vec![
            record(OUTPUT_ID, None, 1),
            record(5, Some("e"), 2),
            record(OUTPUT_ID, Some("g"), 3),
        ])
        .unwrap();
    assert_eq!(events.len(), 2);
    assert_eq!((&events[0].event, &events[0].input), (&event("e"), &dict(2)));
    assert_eq!((&events[1].event, &events[1].input), (&event("g"), &dict(3)));
    let failing = vec![
        record(5, Some("e"), 2),
        OutRecord { message: Ok(message(Some(5), Some("e"))), decoded: Err("one".to_string()) },
        OutRecord { message: Err("two".to_string()), decoded: Ok(vec![]) },
    ];
    assert_eq!(c.decode_transaction_events(failing), reported("one"));
}

fn data() -> Dict {
    let mut data = Dict::new();
    data.set_item("b".to_string(), number(7));
    data.set_item("a".to_string(), Value::Bool(true));
    data
}

#[test]
fn init_data_is_planned_in_order() {
    let key = PublicKey::from_bytes(&[0; 32]).unwrap();
    let plan = contract(true).encode_init_data(&data(), Some(&key), Some(Ok(cell(3))), &[]);
    assert_eq!(plan.abi_version, AbiVersion::new(2, 2));
    assert_eq!(plan.root, Some(cell(3)));
    assert_eq!(plan.failure, None);
    assert_eq!(plan.writes.len(), 3);
    assert_eq!(PUBLIC_KEY_SLOT, 0);
    assert_eq!(plan.writes[0].key, PUBLIC_KEY_SLOT);
    assert_eq!(plan.writes[0].value, InitValue::PublicKey(key));
    assert_eq!(plan.writes[1].key, 1);
    assert_eq!(plan.writes[1].value, InitValue::Token(TokenValue::Bool(true)));
    assert_eq!(plan.writes[2].key, 2);
    assert_eq!(plan.writes[2].value, InitValue::Token(TokenValue::Time(7)));
}

#[test]
fn init_data_begins_empty_without_a_reference() {
    let c = contract(true);
    assert_eq!(c.encode_init_data(&data(), None, None, &[]).root, None);
    let plan = c.encode_init_data(&data(), None, Some(Err("no reference".to_string())), &[]);
    assert_eq!(plan.root, None);
    assert_eq!(plan.writes.len(), 2);
}

#[test]
fn init_data_stops_at_the_first_failure() {
    let c = contract(true);
    let mut partial = Dict::new();
    partial.set_item("a".to_string(), Value::Bool(true));
    let plan = c.encode_init_data(&partial, None, None, &[]);
    assert_eq!(plan.writes.len(), 1);
    assert_eq!(
        plan.failure,
        Some(AbiError::Value(Reason::ParamNotFound("b".to_string())))
    );
    let mut odd = Dict::new();
    odd.set_item("a".to_string(), Value::Other);
    let plan = c.encode_init_data(&odd, None, None, &[]);
    assert_eq!(plan.writes.len(), 0);
    assert_eq!(plan.failure, Some(AbiError::Type(PyKind::Bool)));
}

#[test]
fn init_data_is_read() {
    let c = contract(true);
    let mut point = [0u8; 32];
    point[0] = 1;
    let read = c.decode_init_data(Ok(Some(Ok(point))), Ok(tokens(4))).unwrap();
    assert_eq!(read.public_key, Some(PublicKey::from_bytes(&point).unwrap()));
    assert_eq!(read.values, dict(4));
    let none = c.decode_init_data(Ok(None), Ok(tokens(4))).unwrap();
    assert_eq!(none.public_key, None);
}

#[test]
fn zero_key_stands_for_none() {
    let read = contract(true).decode_init_data(Ok(Some(Ok([0; 32]))), Ok(vec![])).unwrap();
    assert_eq!(read.public_key, None);
}

#[test]
fn init_data_that_cannot_be_read_is_refused() {
    let c = contract(true);
    let value = |words: &str| Err(AbiError::Value(Reason::Reported(words.to_string())));
    assert_eq!(c.decode_init_data(Err("torn".to_string()), Err("x".to_string())), value("torn"));
    assert_eq!(
        c.decode_init_data(Ok(Some(Err("short".to_string()))), Err("x".to_string())),
        value("short")
    );
    let mut off_curve = [0u8; 32];
    off_curve[0] = 2;
    assert_eq!(
        c.decode_init_data(Ok(Some(Ok(off_curve))), Err("x".to_string())),
        value("signature error: Cannot decompress Edwards point")
    );
    assert_eq!(c.decode_init_data(Ok(None), Err("x".to_string())), value("x"));
    assert_eq!(
        c.decode_init_data(Ok(None), Ok(bad_tokens())),
        Err(AbiError::Runtime(Reason::AddressType))
    );
}

#[test]
fn found_functions_and_events_carry_their_names() {
    let c = contract(true);
    for name in ["f", "e", "g", "x"] {
        if let Some(function) = c.get_function(name) {
            assert_eq!(function.name(), name);
            assert_eq!(function.abi_version(), c.abi_version());
        }
        if let Some(event) = c.get_event(name) {
            assert_eq!(event.name(), name);
            assert_eq!(event.abi_version(), c.abi_version());
        }
    }
}

#[test]
fn names_that_are_not_used_may_be_unknown() {
    let c = contract(true);
    let unknown = Ok(Some("x".to_string()));
    assert_eq!(c.decode_transaction(Ok(None), unknown.clone(), Ok(vec![]), vec![]), Ok(None));
    assert_eq!(
        c.decode_transaction(
            Ok(Some(InMessage { body: None, internal: false })),
            unknown,
            Ok(vec![]),
            vec![]
        ),
        Ok(None)
    );
    let answer = record(OUTPUT_ID, Some("x"), 3);
    let call = c
        .decode_transaction(in_msg(), guess(), Ok(tokens(1)), vec![answer])
        .unwrap()
        .unwrap();
    assert_eq!(call.call.output, dict(3));
    assert_eq!(call.events.len(), 0);
    let internal = OutRecord {
        message: Ok(OutMessage { outbound_external: false, ..message(Some(5), Some("x")) }),
        decoded: Ok(vec![]),
    };
    assert_eq!(c.decode_transaction_events(vec![internal]), Ok(vec![]));
}

#[test]
fn existing_data_changes_only_where_the_plan_begins() {
    let c = contract(true);
    let key = PublicKey::from_bytes(&[0; 32]).unwrap();
    let first = c.encode_init_data(&data(), Some(&key), None, &[]);
    let again = c.encode_init_data(&data(), Some(&key), Some(Ok(cell(3))), &[]);
    assert_eq!(first.root, None);
    assert_eq!(again.root, Some(cell(3)));
    assert_eq!(first.writes, again.writes);
    assert_eq!(first.failure, again.failure);
}

#[test]
fn init_data_that_is_kept_comes_back() {
    let c = contract(true);
    let mut point = [0u8; 32];
    point[0] = 1;
    let key = PublicKey::from_bytes(&point).unwrap();
    let plan = c.encode_init_data(&data(), Some(&key), None, &[]);
    let mut kept = Vec::new();
    for (write, name) in plan.writes.into_iter().skip(1).zip(["a", "b"]) {
        match write.value {
            InitValue::Token(value) => kept.push(Token { name: name.to_string(), value }),
            InitValue::PublicKey(_) => unreachable!(),
        }
    }
    let read = c.decode_init_data(Ok(Some(Ok(point))), Ok(kept)).unwrap();
    assert_eq!(read.public_key, Some(key));
    assert_eq!(read.values.len(), 2);
    assert_eq!(read.values.get_item("a"), Some(&Value::Bool(true)));
    assert_eq!(read.values.get_item("b"), Some(&number(7)));
}

#[test]
fn abi_text_is_trimmed_at_both_ends() {
    assert_eq!(abi_text(" \n\t{ \"a\": 1 }\r\n\u{3000}"), "{ \"a\": 1 }");
    assert_eq!(abi_text("{}"), "{}");
    assert_eq!(abi_text(" \u{a0}\u{2003} "), "");
    assert_eq!(abi_text(""), "");
    assert_eq!(abi_text("\u{200b}x\u{feff}"), "\u{200b}x\u{feff}");
    assert_eq!(abi_text(&abi_text("  x ")), "x");
}

#[test]
fn white_space_is_that_of_unicode() {
    for c in '\u{0}'..=char::MAX {
        let text = format!("{}x{}", c, c);
        assert_eq!(abi_text(&text), text.trim());
    }
}
