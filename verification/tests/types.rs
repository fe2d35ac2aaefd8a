use contract_abi::abi_types::{
    AbiAddress, AbiArray, AbiBool, AbiBytes, AbiCell, AbiFixedArray, AbiFixedBytes, AbiInt, AbiMap,
    AbiOptional, AbiParam, AbiRef, AbiString, AbiToken, AbiTuple, AbiUint, AbiVarInt, AbiVarUint,
    Component,
};
use contract_abi::param::{same_params, Param, ParamType};

#[test]
fn simple_types_are_built() {
    assert_eq!(AbiUint::new(256).1.param, ParamType::Uint(256));
    assert_eq!(AbiInt::new(8).1.param, ParamType::Int(8));
    assert_eq!(AbiVarUint::new(16).1.param, ParamType::VarUint(16));
    assert_eq!(AbiVarInt::new(32).1.param, ParamType::VarInt(32));
    assert_eq!(AbiBool::new().1.param, ParamType::Bool);
    assert_eq!(AbiCell::new().1.param, ParamType::Cell);
    assert_eq!(AbiAddress::new().1.param, ParamType::Address);
    assert_eq!(AbiBytes::new().1.param, ParamType::Bytes);
    assert_eq!(AbiFixedBytes::new(20).1.param, ParamType::FixedBytes(20));
    assert_eq!(AbiString::new().1.param, ParamType::String);
    assert_eq!(AbiToken::new().1.param, ParamType::Token);
}

#[test]
fn compound_types_are_built() {
    let flag = || AbiParam { param: ParamType::Bool };
    let boxed = || Box::new(ParamType::Bool);
    assert_eq!(AbiArray::new(flag()).1.param, ParamType::Array(boxed()));
    assert_eq!(AbiFixedArray::new(flag(), 3).1.param, ParamType::FixedArray(boxed(), 3));
    assert_eq!(AbiOptional::new(flag()).1.param, ParamType::Optional(boxed()));
    assert_eq!(AbiRef::new(flag()).1.param, ParamType::Ref(boxed()));
    assert_eq!(
        AbiMap::new(AbiUint::new(8).1, flag()).1.param,
        ParamType::Mapping(Box::new(ParamType::Uint(8)), boxed())
    );
}

#[test]
fn tuple_keeps_its_components_in_order() {
    let items = vec![
        Component { name: "b".to_string(), ty: AbiBool::new().1 },
        Component { name: "a".to_string(), ty: AbiCell::new().1 },
    ];
    assert_eq!(
        AbiTuple::new(items).1.param,
        ParamType::Tuple(vec![
            Param { name: "b".to_string(), kind: ParamType::Bool },
            Param { name: "a".to_string(), kind: ParamType::Cell },
        ])
    );
}

#[test]
fn types_are_compared_in_all_parts() {
    let tuple = |name: &str, kind: ParamType| {
        vec![Param { name: name.to_string(), kind: ParamType::Array(Box::new(kind)) }]
    };
    assert!(same_params(&tuple("a", ParamType::Uint(8)), &tuple("a", ParamType::Uint(8))));
    assert!(!same_params(&tuple("a", ParamType::Uint(8)), &tuple("b", ParamType::Uint(8))));
    assert!(!same_params(&tuple("a", ParamType::Uint(8)), &tuple("a", ParamType::Uint(16))));
    assert!(!same_params(&tuple("a", ParamType::Uint(8)), &[]));
}
