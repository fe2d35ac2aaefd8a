use contract_abi::error::{AbiError, PyKind, Reason};
use contract_abi::keys::{HexError, PublicKey};
use contract_abi::ledger::{Address, Bits, Cell, MsgAddress, StdAddress, VarAddress};
use contract_abi::numbers::{BigInt, BigUint};
use contract_abi::param::{Param, ParamType};
use contract_abi::parse::{parse_map_entry_token, parse_token, parse_tokens, Refusal};
use contract_abi::token::{
    Int, MapEntries, MapEntry, MapKeyTokenValue, Token, TokenValue, Uint,
};
use contract_abi::value::{Dict, Value};

fn natural(n: u128) -> BigUint {
    BigUint::from_u128(n)
}

fn integer(n: i128) -> BigInt {
    BigInt::new(n < 0, natural(n.unsigned_abs()))
}

fn number(n: i128) -> Value {
    Value::Int(integer(n))
}

fn text(s: &str) -> Value {
    Value::Str(s.to_string())
}

fn account(first: u8) -> Address {
    let mut account = vec![0u8; 32];
    account[0] = first;
    Address::Std(StdAddress { anycast: None, workchain: -1, account })
}

fn message_account(first: u8) -> MsgAddress {
    MsgAddress::from_account(&account(first))
}

fn read(kind: ParamType, value: Value) -> Result<TokenValue, AbiError> {
    parse_token(&kind, &value, &[])
}

#[test]
fn unsigned_integers_are_read() {
    assert_eq!(
        read(ParamType::Uint(256), number(5)),
        Ok(TokenValue::Uint(Uint { number: natural(5), size: 256 }))
    );
    assert_eq!(
        read(ParamType::VarUint(32), number(6)),
        Ok(TokenValue::VarUint(32, natural(6)))
    );
}

#[test]
fn size_of_an_integer_is_not_tested() {
    assert_eq!(
        read(ParamType::Uint(8), number(1000)),
        Ok(TokenValue::Uint(Uint { number: natural(1000), size: 8 }))
    );
}

#[test]
fn signed_integers_are_read() {
    assert_eq!(
        read(ParamType::Int(8), number(-5)),
        Ok(TokenValue::Int(Int { number: integer(-5), size: 8 }))
    );
    assert_eq!(
        read(ParamType::VarInt(16), number(-6)),
        Ok(TokenValue::VarInt(16, integer(-6)))
    );
}

#[test]
fn negative_integer_overflows_an_unsigned_one() {
    assert_eq!(read(ParamType::Uint(8), number(-1)), Err(AbiError::Overflow));
    assert_eq!(read(ParamType::VarUint(8), number(-1)), Err(AbiError::Overflow));
}

#[test]
fn boolean_is_a_kind_of_integer() {
    assert_eq!(
        read(ParamType::Uint(8), Value::Bool(true)),
        Ok(TokenValue::Uint(Uint { number: natural(1), size: 8 }))
    );
    assert_eq!(read(ParamType::Time, Value::Bool(false)), Ok(TokenValue::Time(0)));
}

#[test]
fn integer_is_no_boolean() {
    assert_eq!(read(ParamType::Bool, Value::Bool(true)), Ok(TokenValue::Bool(true)));
    assert_eq!(read(ParamType::Bool, number(1)), Err(AbiError::Type(PyKind::Bool)));
}

#[test]
fn kinds_are_asked_for() {
    let cases = vec![
        (ParamType::Uint(8), PyKind::Int),
        (ParamType::Int(8), PyKind::Int),
        (ParamType::VarUint(8), PyKind::Int),
        (ParamType::VarInt(8), PyKind::Int),
        (ParamType::Bool, PyKind::Bool),
        (ParamType::Tuple(vec![]), PyKind::Dict),
        (ParamType::Array(Box::new(ParamType::Bool)), PyKind::List),
        (ParamType::FixedArray(Box::new(ParamType::Bool), 1), PyKind::List),
        (ParamType::Cell, PyKind::Cell),
        (ParamType::Mapping(Box::new(ParamType::Bool), Box::new(ParamType::Bool)), PyKind::List),
        (ParamType::Address, PyKind::Address),
        (ParamType::Bytes, PyKind::Bytes),
        (ParamType::FixedBytes(1), PyKind::Bytes),
        (ParamType::String, PyKind::Str),
        (ParamType::Token, PyKind::Int),
        (ParamType::Time, PyKind::Int),
        (ParamType::Expire, PyKind::Int),
        (ParamType::PublicKey, PyKind::Str),
        (ParamType::Optional(Box::new(ParamType::Bool)), PyKind::Bool),
        (ParamType::Ref(Box::new(ParamType::Cell)), PyKind::Cell),
    ];
    for (kind, expected) in cases {
        assert_eq!(read(kind, Value::Other), Err(AbiError::Type(expected)));
    }
}

#[test]
fn tuples_are_read_from_dictionaries() {
    let kind = ParamType::Tuple(vec![
        Param { name: "b".to_string(), kind: ParamType::Bool },
        Param { name: "a".to_string(), kind: ParamType::String },
    ]);
    let mut dict = Dict::new();
    dict.set_item("a".to_string(), text("x"));
    dict.set_item("extra".to_string(), Value::Other);
    dict.set_item("b".to_string(), Value::Bool(false));
    assert_eq!(
        read(kind, Value::Dict(dict)),
        Ok(TokenValue::Tuple(vec![
            Token { name: "b".to_string(), value: TokenValue::Bool(false) },
            Token { name: "a".to_string(), value: TokenValue::String("x".to_string()) },
        ]))
    );
}

#[test]
fn first_parameter_that_fails_decides() {
    let params = vec![
        Param { name: "a".to_string(), kind: ParamType::Bool },
        Param { name: "b".to_string(), kind: ParamType::Bool },
        Param { name: "c".to_string(), kind: ParamType::Bool },
    ];
    let mut dict = Dict::new();
    dict.set_item("a".to_string(), Value::Bool(true));
    dict.set_item("c".to_string(), Value::Other);
    let error = parse_tokens(&params, &dict, &[]).unwrap_err();
    assert_eq!(error, AbiError::Runtime(Reason::ParamNotFound("b".to_string())));
    match error {
        AbiError::Runtime(reason) => assert_eq!(reason.message(), "Param 'b' not found"),
        _ => unreachable!(),
    }
}

#[test]
fn items_without_parameter_are_not_read() {
    let params = vec![Param { name: "a".to_string(), kind: ParamType::Bool }];
    let mut dict = Dict::new();
    dict.set_item("a".to_string(), Value::Bool(true));
    let plain = parse_tokens(&params, &dict, &[]).unwrap();
    dict.set_item("z".to_string(), Value::Other);
    assert_eq!(parse_tokens(&params, &dict, &[]).unwrap(), plain);
}

#[test]
fn no_parameters_give_no_tokens() {
    assert_eq!(parse_tokens(&[], &Dict::new(), &[]), Ok(vec![]));
}

#[test]
fn lists_are_read_in_order() {
    assert_eq!(
        read(
            ParamType::Array(Box::new(ParamType::Bool)),
            Value::List(vec![Value::Bool(true), Value::Bool(false)])
        ),
        Ok(TokenValue::Array(
            ParamType::Bool,
            vec![TokenValue::Bool(true), TokenValue::Bool(false)]
        ))
    );
}

#[test]
fn first_element_that_fails_decides() {
    assert_eq!(
        read(
            ParamType::Array(Box::new(ParamType::Uint(8))),
            Value::List(vec![number(1), number(-1), Value::Other])
        ),
        Err(AbiError::Overflow)
    );
}

#[test]
fn fixed_array_has_its_length() {
    let kind = ParamType::FixedArray(Box::new(ParamType::Bool), 2);
    assert_eq!(
        parse_token(&kind, &Value::List(vec![Value::Other]), &[]),
        Err(AbiError::Value(Reason::FixedArrayLength))
    );
    assert_eq!(
        parse_token(&kind, &Value::List(vec![Value::Bool(true), Value::Bool(true)]), &[]),
        Ok(TokenValue::FixedArray(
            ParamType::Bool,
            vec![TokenValue::Bool(true), TokenValue::Bool(true)]
        ))
    );
    assert_eq!(Reason::FixedArrayLength.message(), "Invalid fixed array length");
}

#[test]
fn bytes_are_read() {
    assert_eq!(
        read(ParamType::Bytes, Value::Bytes(vec![1, 2])),
        Ok(TokenValue::Bytes(vec![1, 2]))
    );
    assert_eq!(
        read(ParamType::FixedBytes(2), Value::Bytes(vec![1, 2])),
        Ok(TokenValue::FixedBytes(vec![1, 2]))
    );
    assert_eq!(
        read(ParamType::FixedBytes(3), Value::Bytes(vec![1, 2])),
        Err(AbiError::Value(Reason::FixedBytesLength))
    );
    assert_eq!(Reason::FixedBytesLength.message(), "Invalid fixed bytes length");
}

#[test]
fn cells_and_addresses_are_read() {
    assert_eq!(
        read(ParamType::Cell, Value::Cell(Cell { boc: vec![9] })),
        Ok(TokenValue::Cell(Cell { boc: vec![9] }))
    );
    assert_eq!(
        read(ParamType::Address, Value::Address(account(3))),
        Ok(TokenValue::Address(message_account(3)))
    );
    let wide = VarAddress {
        anycast: None,
        workchain: 70000,
        account: Bits { bytes: vec![0x80], len: 1 },
    };
    assert_eq!(
        read(ParamType::Address, Value::Address(Address::Var(wide.clone()))),
        Ok(TokenValue::Address(MsgAddress::AddrVar(wide)))
    );
}

#[test]
fn times_have_their_widths() {
    assert_eq!(
        read(ParamType::Time, number(u64::MAX as i128)),
        Ok(TokenValue::Time(u64::MAX))
    );
    assert_eq!(read(ParamType::Time, number(u64::MAX as i128 + 1)), Err(AbiError::Overflow));
    assert_eq!(
        read(ParamType::Expire, number(u32::MAX as i128)),
        Ok(TokenValue::Expire(u32::MAX))
    );
    assert_eq!(read(ParamType::Expire, number(u32::MAX as i128 + 1)), Err(AbiError::Overflow));
    assert_eq!(read(ParamType::Expire, number(-1)), Err(AbiError::Overflow));
}

#[test]
fn amounts_are_read_unless_refused() {
    let refusals = vec![Refusal { amount: 1 << 120, words: "too much".to_string() }];
    assert_eq!(
        parse_token(&ParamType::Token, &number(1 << 119), &refusals),
        Ok(TokenValue::Token(1 << 119))
    );
    assert_eq!(
        parse_token(&ParamType::Token, &number(1 << 120), &refusals),
        Err(AbiError::Runtime(Reason::Reported("too much".to_string())))
    );
    let mut digits = vec![0u8; 16];
    digits.push(1);
    let wide = Value::Int(BigInt::new(false, BigUint::from_bytes_le(&digits)));
    assert_eq!(parse_token(&ParamType::Token, &wide, &refusals), Err(AbiError::Overflow));
}

#[test]
fn keys_are_read_from_text() {
    let key = "5866666666666666666666666666666666666666666666666666666666666666";
    let mut bytes = vec![0x66; 32];
    bytes[0] = 0x58;
    assert_eq!(
        read(ParamType::PublicKey, text(key)),
        Ok(TokenValue::PublicKey(Some(PublicKey::from_bytes(&bytes).unwrap())))
    );
    assert_eq!(
        read(ParamType::PublicKey, Value::PyNone),
        Ok(TokenValue::PublicKey(None))
    );
}

#[test]
fn text_that_is_no_key_is_refused() {
    let odd = read(ParamType::PublicKey, text("0")).unwrap_err();
    assert_eq!(odd, AbiError::Runtime(Reason::Hex(HexError::OddLength)));
    match odd {
        AbiError::Runtime(reason) => assert_eq!(reason.message(), "Odd number of digits"),
        _ => unreachable!(),
    }
    match read(ParamType::PublicKey, text("0x")).unwrap_err() {
        AbiError::Runtime(reason) => {
            assert_eq!(reason.message(), "Invalid character 'x' at position 1")
        }
        _ => unreachable!(),
    }
    assert_eq!(
        Reason::Hex(HexError::InvalidStringLength).message(),
        "Invalid string length"
    );
    assert_eq!(
        read(ParamType::PublicKey, text("00")),
        Err(AbiError::Runtime(Reason::Reported(
            "signature error: PublicKey must be 32 bytes in length".to_string()
        )))
    );
}

#[test]
fn optional_values_may_be_missing() {
    let kind = ParamType::Optional(Box::new(ParamType::Bool));
    assert_eq!(
        parse_token(&kind, &Value::PyNone, &[]),
        Ok(TokenValue::Optional(ParamType::Bool, None))
    );
    assert_eq!(
        parse_token(&kind, &Value::Bool(true), &[]),
        Ok(TokenValue::Optional(ParamType::Bool, Some(Box::new(TokenValue::Bool(true)))))
    );
}

#[test]
fn referenced_values_are_read_through() {
    assert_eq!(
        read(ParamType::Ref(Box::new(ParamType::Bool)), Value::Bool(true)),
        Ok(TokenValue::Ref(Box::new(TokenValue::Bool(true))))
    );
}

fn entry(key: Value, value: Value) -> Value {
    Value::Tuple(vec![key, value])
}

#[test]
fn mappings_are_in_order_and_keep_the_last_value() {
    let kind = ParamType::Mapping(Box::new(ParamType::Int(8)), Box::new(ParamType::Bool));
    let list = Value::List(vec![
        entry(number(3), Value::Bool(true)),
        entry(number(-1), Value::Bool(true)),
        entry(number(3), Value::Bool(false)),
        entry(number(0), Value::Bool(true)),
    ]);
    let key = |n: i128| MapKeyTokenValue::Int(Int { number: integer(n), size: 8 });
    assert_eq!(
        parse_token(&kind, &list, &[]),
        Ok(TokenValue::Mapping(
            ParamType::Int(8),
            ParamType::Bool,
            MapEntries::from_entries(vec![
                MapEntry { key: key(-1), value: TokenValue::Bool(true) },
                MapEntry { key: key(0), value: TokenValue::Bool(true) },
                MapEntry { key: key(3), value: TokenValue::Bool(false) },
            ])
            .unwrap()
        ))
    );
}

#[test]
fn mapping_keys_are_integers_or_addresses() {
    assert_eq!(
        parse_map_entry_token(
            &ParamType::Uint(8),
            &ParamType::Bool,
            &entry(number(1), Value::Bool(true)),
            &[]
        ),
        Ok(MapEntry {
            key: MapKeyTokenValue::Uint(Uint { number: natural(1), size: 8 }),
            value: TokenValue::Bool(true),
        })
    );
    assert_eq!(
        parse_map_entry_token(
            &ParamType::Address,
            &ParamType::Bool,
            &entry(Value::Address(account(7)), Value::Bool(true)),
            &[]
        ),
        Ok(MapEntry {
            key: MapKeyTokenValue::Address(message_account(7)),
            value: TokenValue::Bool(true),
        })
    );
    assert_eq!(
        parse_map_entry_token(
            &ParamType::Bool,
            &ParamType::Bool,
            &entry(Value::Bool(true), Value::Bool(true)),
            &[]
        ),
        Err(AbiError::Value(Reason::MapKeyType))
    );
    assert_eq!(Reason::MapKeyType.message(), "Unsupported mapping key type");
}

#[test]
fn mapping_entries_have_two_elements() {
    let read_entry = |item: Value| {
        parse_map_entry_token(&ParamType::Uint(8), &ParamType::Bool, &item, &[])
    };
    assert_eq!(read_entry(Value::Tuple(vec![])), Err(AbiError::Value(Reason::MapKeyMissing)));
    assert_eq!(
        read_entry(Value::Tuple(vec![number(1)])),
        Err(AbiError::Value(Reason::MapValueMissing))
    );
    assert_eq!(
        read_entry(Value::Tuple(vec![Value::Other])),
        Err(AbiError::Type(PyKind::Int))
    );
    assert_eq!(read_entry(Value::List(vec![])), Err(AbiError::Type(PyKind::Tuple)));
    assert!(read_entry(Value::Tuple(vec![number(1), Value::Bool(true), Value::Other])).is_ok());
    assert_eq!(
        Reason::MapKeyMissing.message(),
        "Expected mapping key in the first tuple element"
    );
    assert_eq!(
        Reason::MapValueMissing.message(),
        "Expected mapping value in the second tuple element"
    );
}

#[test]
fn dictionary_keeps_places_and_last_values() {
    let mut dict = Dict::new();
    dict.set_item("a".to_string(), number(1));
    dict.set_item("b".to_string(), number(2));
    dict.set_item("a".to_string(), number(3));
    assert_eq!(dict.len(), 2);
    assert_eq!(dict.key_at(0), "a");
    assert_eq!(dict.value_at(0), &number(3));
    assert_eq!(dict.get_item("b"), Some(&number(2)));
    assert_eq!(dict.get_item("c"), None);
}

#[test]
fn address_keys_stand_in_one_order() {
    let kind = ParamType::Mapping(Box::new(ParamType::Address), Box::new(ParamType::Bool));
    let pair = |first: u8, flag: bool| entry(Value::Address(account(first)), Value::Bool(flag));
    let one = parse_token(&kind, &Value::List(vec![pair(7, true), pair(3, false)]), &[]).unwrap();
    let two = parse_token(&kind, &Value::List(vec![pair(3, false), pair(7, true)]), &[]).unwrap();
    assert_eq!(one, two);
    assert_eq!(
        one,
        TokenValue::Mapping(
            ParamType::Address,
            ParamType::Bool,
            MapEntries::from_entries(vec![
                MapEntry {
                    key: MapKeyTokenValue::Address(message_account(3)),
                    value: TokenValue::Bool(false),
                },
                MapEntry {
                    key: MapKeyTokenValue::Address(message_account(7)),
                    value: TokenValue::Bool(true),
                },
            ])
            .unwrap()
        )
    );
    let again = Value::List(vec![pair(7, true), pair(3, true), pair(7, false), pair(3, false)]);
    match parse_token(&kind, &again, &[]).unwrap() {
        TokenValue::Mapping(_, _, entries) => {
            assert_eq!(entries.as_slice().len(), 2);
            assert_eq!(entries.as_slice()[1].value, TokenValue::Bool(false));
        }
        _ => unreachable!(),
    }
}

#[test]
fn addresses_are_in_a_total_order() {
    let std = |workchain: i8, first: u8| {
        let mut account = vec![0u8; 32];
        account[0] = first;
        MsgAddress::AddrStd(StdAddress { anycast: None, workchain, account })
    };
    let anycast = MsgAddress::AddrStd(StdAddress {
        anycast: Some(Bits { bytes: vec![0x80], len: 1 }),
        workchain: -1,
        account: vec![0; 32],
    });
    let var = |workchain: i32, len: usize| {
        MsgAddress::AddrVar(VarAddress {
            anycast: None,
            workchain,
            account: Bits { bytes: vec![0x80], len },
        })
    };
    let ascending = vec![
        MsgAddress::AddrNone,
        MsgAddress::AddrExt(Bits { bytes: vec![1], len: 8 }),
        MsgAddress::AddrExt(Bits { bytes: vec![1, 0], len: 8 }),
        std(-1, 200),
        std(0, 1),
        std(0, 2),
        anycast,
        var(5, 1),
        var(5, 2),
        var(6, 1),
    ];
    let keys: Vec<MapKeyTokenValue> =
        ascending.into_iter().map(MapKeyTokenValue::Address).collect();
    for (i, a) in keys.iter().enumerate() {
        for (j, b) in keys.iter().enumerate() {
            assert_eq!(a.goes_before(b), i < j);
            assert_eq!(a.same(b), i == j);
        }
    }
    let unsigned = MapKeyTokenValue::Uint(Uint { number: natural(9), size: 8 });
    let signed = MapKeyTokenValue::Int(Int { number: integer(-9), size: 8 });
    assert!(unsigned.goes_before(&signed));
    assert!(signed.goes_before(&keys[0]));
    assert!(!keys[0].goes_before(&unsigned));
}

#[test]
fn first_entry_that_fails_decides() {
    let kind = ParamType::Mapping(Box::new(ParamType::Uint(8)), Box::new(ParamType::Bool));
    let list = Value::List(vec![
        entry(number(1), Value::Bool(true)),
        entry(number(-1), Value::Bool(true)),
        Value::Other,
    ]);
    assert_eq!(parse_token(&kind, &list, &[]), Err(AbiError::Overflow));
}
