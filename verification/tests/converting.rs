use contract_abi::convert::{
    convert_addr_token, convert_map_entry_token, convert_token, convert_tokens,
};
use contract_abi::error::{AbiError, Reason};
use contract_abi::keys::PublicKey;
use contract_abi::ledger::{Address, Bits, Cell, MsgAddress, StdAddress, VarAddress};
use contract_abi::numbers::{BigInt, BigUint};
use contract_abi::param::{Param, ParamType};
use contract_abi::parse::{parse_token, parse_tokens};
use contract_abi::token::{Int, MapEntries, MapEntry, MapKeyTokenValue, Token, TokenValue, Uint};
use contract_abi::value::{Dict, Value};

fn natural(n: u128) -> BigUint {
    BigUint::from_u128(n)
}

fn integer(n: i128) -> BigInt {
    BigInt::new(n < 0, natural(n.unsigned_abs()))
}

fn number(n: i128) -> Value {
    Value::Int(integer(n))
}

fn std_address() -> StdAddress {
    StdAddress { anycast: None, workchain: 0, account: vec![5; 32] }
}

#[test]
fn integers_are_given_back() {
    assert_eq!(
        convert_token(TokenValue::Uint(Uint { number: natural(5), size: 8 })),
        Ok(number(5))
    );
    assert_eq!(
        convert_token(TokenValue::Int(Int { number: integer(-5), size: 8 })),
        Ok(number(-5))
    );
    assert_eq!(convert_token(TokenValue::VarUint(16, natural(6))), Ok(number(6)));
    assert_eq!(convert_token(TokenValue::VarInt(16, integer(-6))), Ok(number(-6)));
    assert_eq!(convert_token(TokenValue::Token(7)), Ok(number(7)));
    assert_eq!(convert_token(TokenValue::Time(8)), Ok(number(8)));
    assert_eq!(convert_token(TokenValue::Expire(9)), Ok(number(9)));
}

#[test]
fn plain_values_are_given_back() {
    assert_eq!(convert_token(TokenValue::Bool(true)), Ok(Value::Bool(true)));
    assert_eq!(
        convert_token(TokenValue::Cell(Cell { boc: vec![1] })),
        Ok(Value::Cell(Cell { boc: vec![1] }))
    );
    assert_eq!(convert_token(TokenValue::Bytes(vec![1])), Ok(Value::Bytes(vec![1])));
    assert_eq!(convert_token(TokenValue::FixedBytes(vec![2])), Ok(Value::Bytes(vec![2])));
    assert_eq!(
        convert_token(TokenValue::String("x".to_string())),
        Ok(Value::Str("x".to_string()))
    );
}

#[test]
fn keys_are_given_back_as_text() {
    let mut bytes = vec![0u8; 32];
    bytes[0] = 1;
    let key = PublicKey::from_bytes(&bytes).unwrap();
    assert_eq!(
        convert_token(TokenValue::PublicKey(Some(key))),
        Ok(Value::Str(format!("01{}", "00".repeat(31))))
    );
    assert_eq!(convert_token(TokenValue::PublicKey(None)), Ok(Value::PyNone));
}

#[test]
fn wrapped_values_are_given_back_bare() {
    assert_eq!(
        convert_token(TokenValue::Optional(ParamType::Bool, None)),
        Ok(Value::PyNone)
    );
    assert_eq!(
        convert_token(TokenValue::Optional(
            ParamType::Bool,
            Some(Box::new(TokenValue::Bool(true)))
        )),
        Ok(Value::Bool(true))
    );
    assert_eq!(
        convert_token(TokenValue::Ref(Box::new(TokenValue::Bool(false)))),
        Ok(Value::Bool(false))
    );
}

#[test]
fn arrays_are_given_back_as_lists() {
    let values = || vec![TokenValue::Bool(true), TokenValue::Time(1)];
    let list = || Value::List(vec![Value::Bool(true), number(1)]);
    assert_eq!(convert_token(TokenValue::Array(ParamType::Bool, values())), Ok(list()));
    assert_eq!(convert_token(TokenValue::FixedArray(ParamType::Bool, values())), Ok(list()));
}

#[test]
fn mappings_are_given_back_as_pairs() {
    let entry = || MapEntry {
        key: MapKeyTokenValue::Uint(Uint { number: natural(4), size: 8 }),
        value: TokenValue::Bool(true),
    };
    let pair = || Value::Tuple(vec![number(4), Value::Bool(true)]);
    assert_eq!(convert_map_entry_token(entry()), Ok(pair()));
    assert_eq!(
        convert_token(TokenValue::Mapping(
            ParamType::Uint(8),
            ParamType::Bool,
            MapEntries::from_entries(vec![entry()]).unwrap()
        )),
        Ok(Value::List(vec![pair()]))
    );
    assert_eq!(
        convert_map_entry_token(MapEntry {
            key: MapKeyTokenValue::Int(Int { number: integer(-4), size: 8 }),
            value: TokenValue::Bool(true),
        }),
        Ok(Value::Tuple(vec![number(-4), Value::Bool(true)]))
    );
}

#[test]
fn addresses_of_accounts_are_given_back() {
    assert_eq!(
        convert_addr_token(MsgAddress::AddrStd(std_address())),
        Ok(Value::Address(Address::Std(std_address())))
    );
    let wide = VarAddress {
        anycast: None,
        workchain: 1,
        account: Bits { bytes: vec![0x80], len: 1 },
    };
    assert_eq!(
        convert_token(TokenValue::Address(MsgAddress::AddrVar(wide.clone()))),
        Ok(Value::Address(Address::Var(wide)))
    );
}

#[test]
fn other_addresses_are_refused() {
    let refused = || Err(AbiError::Runtime(Reason::AddressType));
    assert_eq!(convert_addr_token(MsgAddress::AddrNone), refused());
    assert_eq!(
        convert_token(TokenValue::Address(MsgAddress::AddrExt(Bits { bytes: vec![], len: 0 }))),
        refused()
    );
    assert_eq!(
        convert_map_entry_token(MapEntry {
            key: MapKeyTokenValue::Address(MsgAddress::AddrNone),
            value: TokenValue::Bool(true),
        }),
        refused()
    );
    assert_eq!(
        convert_token(TokenValue::Array(
            ParamType::Address,
            vec![TokenValue::Address(MsgAddress::AddrNone)]
        )),
        refused()
    );
    assert_eq!(Reason::AddressType.message(), "Unsupported address type");
}

#[test]
fn named_values_become_a_dictionary() {
    let dict = convert_tokens(vec![
        Token { name: "a".to_string(), value: TokenValue::Time(1) },
        Token { name: "b".to_string(), value: TokenValue::Time(2) },
        Token { name: "a".to_string(), value: TokenValue::Time(3) },
    ])
    .unwrap();
    assert_eq!(dict.len(), 2);
    assert_eq!(dict.get_item("a"), Some(&number(3)));
    assert_eq!(dict.get_item("b"), Some(&number(2)));
    assert_eq!(dict.key_at(0), "a");
    assert_eq!(
        convert_token(TokenValue::Tuple(vec![])),
        Ok(Value::Dict(Dict::new()))
    );
}

#[test]
fn first_named_value_that_fails_decides() {
    assert_eq!(
        convert_tokens(vec![
            Token { name: "a".to_string(), value: TokenValue::Time(1) },
            Token { name: "b".to_string(), value: TokenValue::Address(MsgAddress::AddrNone) },
        ]),
        Err(AbiError::Runtime(Reason::AddressType))
    );
}

#[test]
fn values_come_back_as_they_went_in() {
    let params = vec![
        Param {
            name: "map".to_string(),
            kind: ParamType::Mapping(Box::new(ParamType::Uint(32)), Box::new(ParamType::String)),
        },
        Param {
            name: "list".to_string(),
            kind: ParamType::Array(Box::new(ParamType::Optional(Box::new(ParamType::Bytes)))),
        },
        Param { name: "to".to_string(), kind: ParamType::Address },
        Param { name: "key".to_string(), kind: ParamType::PublicKey },
    ];
    let mut dict = Dict::new();
    dict.set_item(
        "map".to_string(),
        Value::List(vec![
            Value::Tuple(vec![number(1), Value::Str("one".to_string())]),
            Value::Tuple(vec![number(2), Value::Str("two".to_string())]),
        ]),
    );
    dict.set_item(
        "list".to_string(),
        Value::List(vec![Value::PyNone, Value::Bytes(vec![0, 1])]),
    );
    dict.set_item("to".to_string(), Value::Address(Address::Std(std_address())));
    dict.set_item("key".to_string(), Value::Str(format!("58{}", "66".repeat(31))));
    let tokens = parse_tokens(&params, &dict, &[]).unwrap();
    assert_eq!(convert_tokens(tokens).unwrap(), dict);
}

#[test]
fn values_given_back_are_read_again() {
    let kind = ParamType::Mapping(Box::new(ParamType::Int(16)), Box::new(ParamType::Bool));
    let first = parse_token(
        &kind,
        &Value::List(vec![
            Value::Tuple(vec![number(9), Value::Bool(true)]),
            Value::Tuple(vec![number(-9), Value::Bool(false)]),
            Value::Tuple(vec![number(9), Value::Bool(false)]),
        ]),
        &[],
    )
    .unwrap();
    let again = parse_token(
        &kind,
        &Value::List(vec![
            Value::Tuple(vec![number(-9), Value::Bool(false)]),
            Value::Tuple(vec![number(9), Value::Bool(false)]),
        ]),
        &[],
    )
    .unwrap();
    assert_eq!(first, again);
    let given = convert_token(first).unwrap();
    assert_eq!(parse_token(&kind, &given, &[]).unwrap(), again);
}

#[test]
fn canonical_objects_come_back() {
    let kind = ParamType::Mapping(
        Box::new(ParamType::Address),
        Box::new(ParamType::Tuple(vec![
            Param { name: "n".to_string(), kind: ParamType::Uint(8) },
            Param {
                name: "k".to_string(),
                kind: ParamType::Optional(Box::new(ParamType::PublicKey)),
            },
        ])),
    );
    let object = |first: u8, key: Value| {
        let mut account = vec![0u8; 32];
        account[0] = first;
        let mut dict = Dict::new();
        dict.set_item("n".to_string(), number(first as i128));
        dict.set_item("k".to_string(), key);
        Value::Tuple(vec![
            Value::Address(Address::Std(StdAddress { anycast: None, workchain: 0, account })),
            Value::Dict(dict),
        ])
    };
    let list = || {
        Value::List(vec![
            object(1, Value::PyNone),
            object(2, Value::Str(format!("58{}", "66".repeat(31)))),
        ])
    };
    let token = parse_token(&kind, &list(), &[]).unwrap();
    assert_eq!(convert_token(token), Ok(list()));
}

#[test]
fn boolean_comes_back_as_its_integer() {
    let token = parse_token(&ParamType::Uint(8), &Value::Bool(true), &[]).unwrap();
    assert_eq!(convert_token(token), Ok(number(1)));
}

#[test]
fn integer_keys_are_given_back_ascending() {
    let kind = ParamType::Mapping(Box::new(ParamType::Int(8)), Box::new(ParamType::Bool));
    let pair = |n: i128| Value::Tuple(vec![number(n), Value::Bool(true)]);
    let token =
        parse_token(&kind, &Value::List(vec![pair(5), pair(-3), pair(0)]), &[]).unwrap();
    assert_eq!(
        convert_token(token),
        Ok(Value::List(vec![pair(-3), pair(0), pair(5)]))
    );
}

#[test]
fn address_is_refused_at_any_depth() {
    let key = |address: MsgAddress| {
        TokenValue::Optional(
            ParamType::Bool,
            Some(Box::new(TokenValue::Ref(Box::new(TokenValue::Mapping(
                ParamType::Address,
                ParamType::Bool,
                MapEntries::from_entries(vec![MapEntry {
                    key: MapKeyTokenValue::Address(address),
                    value: TokenValue::Bool(true),
                }])
                .unwrap(),
            ))))),
        )
    };
    assert!(convert_token(key(MsgAddress::AddrStd(std_address()))).is_ok());
    assert_eq!(
        convert_token(key(MsgAddress::AddrNone)),
        Err(AbiError::Runtime(Reason::AddressType))
    );
}

#[test]
fn dictionary_holds_no_key_twice() {
    let entry = |n: u128, flag: bool| MapEntry {
        key: MapKeyTokenValue::Uint(Uint { number: natural(n), size: 8 }),
        value: TokenValue::Bool(flag),
    };
    assert_eq!(
        MapEntries::from_entries(vec![entry(1, true), entry(2, true), entry(1, false)]),
        None
    );
    let kept = MapEntries::from_entries(vec![entry(2, true), entry(1, false)]).unwrap();
    assert_eq!(kept.as_slice(), &[entry(2, true), entry(1, false)]);
    let mut built = MapEntries::new();
    for (n, flag) in [(2, false), (1, false), (2, true)] {
        let entry = entry(n, flag);
        built.insert(entry.key, entry.value);
    }
    assert_eq!(built.as_slice(), &[entry(1, false), entry(2, true)]);
}
