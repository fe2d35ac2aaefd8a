//! The types of parameters, as Python builds them.

use crate::param::{
    lemma_params_model, param_model, params_model, KindModel, Param, ParamModel, ParamType,
};
use vstd::prelude::*;

verus! {

/// The type of a parameter.
#[derive(Debug, PartialEq, Eq)]
pub struct AbiParam {
    pub param: ParamType,
}

impl View for AbiParam {
    type V = KindModel;

    open spec fn view(&self) -> KindModel {
        self.param@
    }
}

impl Clone for AbiParam {
    fn clone(&self) -> (copy: AbiParam)
        ensures
            copy@ == self@,
    {
        AbiParam { param: self.param.clone() }
    }
}

/// A component of a tuple: its name and its type.
#[derive(Debug, PartialEq, Eq)]
pub struct Component {
    pub name: String,
    pub ty: AbiParam,
}

/// The parameters that components stand for, in order.
pub open spec fn components_model(items: Seq<Component>) -> Seq<ParamModel> {
    Seq::new(items.len(), |i: int| ParamModel { name: items[i].name@, kind: items[i].ty@ })
}

/// Unsigned integers of a number of bits.
#[derive(Debug, PartialEq, Eq)]
pub struct AbiUint;

impl AbiUint {
    pub fn new(size: usize) -> (made: (AbiUint, AbiParam))
        ensures
            made.1@ == KindModel::Uint(size),
    {
        (AbiUint, AbiParam { param: ParamType::Uint(size) })
    }
}

/// Signed integers of a number of bits.
#[derive(Debug, PartialEq, Eq)]
pub struct AbiInt;

impl AbiInt {
    pub fn new(size: usize) -> (made: (AbiInt, AbiParam))
        ensures
            made.1@ == KindModel::Int(size),
    {
        (AbiInt, AbiParam { param: ParamType::Int(size) })
    }
}

/// Unsigned integers of a variable number of bytes.
#[derive(Debug, PartialEq, Eq)]
pub struct AbiVarUint;

impl AbiVarUint {
    pub fn new(size: usize) -> (made: (AbiVarUint, AbiParam))
        ensures
            made.1@ == KindModel::VarUint(size),
    {
        (AbiVarUint, AbiParam { param: ParamType::VarUint(size) })
    }
}

/// Signed integers of a variable number of bytes.
#[derive(Debug, PartialEq, Eq)]
pub struct AbiVarInt;

impl AbiVarInt {
    pub fn new(size: usize) -> (made: (AbiVarInt, AbiParam))
        ensures
            made.1@ == KindModel::VarInt(size),
    {
        (AbiVarInt, AbiParam { param: ParamType::VarInt(size) })
    }
}

/// Truth values.
#[derive(Debug, PartialEq, Eq)]
pub struct AbiBool;

impl AbiBool {
    pub fn new() -> (made: (AbiBool, AbiParam))
        ensures
            made.1@ == KindModel::Bool,
    {
        (AbiBool, AbiParam { param: ParamType::Bool })
    }
}

/// Tuples of named components.
#[derive(Debug, PartialEq, Eq)]
pub struct AbiTuple;

impl AbiTuple {
    pub fn new(items: Vec<Component>) -> (made: (AbiTuple, AbiParam))
        ensures
            made.1@ == KindModel::Tuple(components_model(items@)),
    {
        let mut params: Vec<Param> = Vec::with_capacity(items.len());
        for item in it: items
            invariant
                it.seq() == items@,
                params@.len() == it.index(),
                forall|j: int|
                    0 <= j < params@.len() ==> #[trigger] param_model(params@[j])
                        == components_model(items@)[j],
        {
            params.push(Param { name: item.name, kind: item.ty.param });
        }
        proof {
            lemma_params_model(params@);
            assert forall|j: int| 0 <= j < params@.len() implies params_model(params@)[j]
                == components_model(items@)[j] by {
                assert(param_model(params@[j]) == components_model(items@)[j]);
            }
            assert(params_model(params@) =~= components_model(items@));
        }
        (AbiTuple, AbiParam { param: ParamType::Tuple(params) })
    }
}

/// Arrays of any length.
#[derive(Debug, PartialEq, Eq)]
pub struct AbiArray;

impl AbiArray {
    pub fn new(value_type: AbiParam) -> (made: (AbiArray, AbiParam))
        ensures
            made.1@ == KindModel::Array(Box::new(value_type@)),
    {
        (AbiArray, AbiParam { param: ParamType::Array(Box::new(value_type.param)) })
    }
}

/// Arrays of one length.
#[derive(Debug, PartialEq, Eq)]
pub struct AbiFixedArray;

impl AbiFixedArray {
    pub fn new(value_type: AbiParam, len: usize) -> (made: (AbiFixedArray, AbiParam))
        ensures
            made.1@ == KindModel::FixedArray(Box::new(value_type@), len),
    {
        (AbiFixedArray, AbiParam { param: ParamType::FixedArray(Box::new(value_type.param), len) })
    }
}

/// Cells.
#[derive(Debug, PartialEq, Eq)]
pub struct AbiCell;

impl AbiCell {
    pub fn new() -> (made: (AbiCell, AbiParam))
        ensures
            made.1@ == KindModel::Cell,
    {
        (AbiCell, AbiParam { param: ParamType::Cell })
    }
}

/// Dictionaries.
#[derive(Debug, PartialEq, Eq)]
pub struct AbiMap;

impl AbiMap {
    pub fn new(key_type: AbiParam, value_type: AbiParam) -> (made: (AbiMap, AbiParam))
        ensures
            made.1@ == KindModel::Mapping(Box::new(key_type@), Box::new(value_type@)),
    {
        (
            AbiMap,
            AbiParam {
                param: ParamType::Mapping(Box::new(key_type.param), Box::new(value_type.param)),
            },
        )
    }
}

/// Addresses.
#[derive(Debug, PartialEq, Eq)]
pub struct AbiAddress;

impl AbiAddress {
    pub fn new() -> (made: (AbiAddress, AbiParam))
        ensures
            made.1@ == KindModel::Address,
    {
        (AbiAddress, AbiParam { param: ParamType::Address })
    }
}

/// Bytes, any number of them.
#[derive(Debug, PartialEq, Eq)]
pub struct AbiBytes;

impl AbiBytes {
    pub fn new() -> (made: (AbiBytes, AbiParam))
        ensures
            made.1@ == KindModel::Bytes,
    {
        (AbiBytes, AbiParam { param: ParamType::Bytes })
    }
}

/// Bytes, one number of them.
#[derive(Debug, PartialEq, Eq)]
pub struct AbiFixedBytes;

impl AbiFixedBytes {
    pub fn new(len: usize) -> (made: (AbiFixedBytes, AbiParam))
        ensures
            made.1@ == KindModel::FixedBytes(len),
    {
        (AbiFixedBytes, AbiParam { param: ParamType::FixedBytes(len) })
    }
}

/// Texts.
#[derive(Debug, PartialEq, Eq)]
pub struct AbiString;

impl AbiString {
    pub fn new() -> (made: (AbiString, AbiParam))
        ensures
            made.1@ == KindModel::String,
    {
        (AbiString, AbiParam { param: ParamType::String })
    }
}

/// Amounts of tokens.
#[derive(Debug, PartialEq, Eq)]
pub struct AbiToken;

impl AbiToken {
    pub fn new() -> (made: (AbiToken, AbiParam))
        ensures
            made.1@ == KindModel::Token,
    {
        (AbiToken, AbiParam { param: ParamType::Token })
    }
}

/// Values that may be missing.
#[derive(Debug, PartialEq, Eq)]
pub struct AbiOptional;

impl AbiOptional {
    pub fn new(value_type: AbiParam) -> (made: (AbiOptional, AbiParam))
        ensures
            made.1@ == KindModel::Optional(Box::new(value_type@)),
    {
        (AbiOptional, AbiParam { param: ParamType::Optional(Box::new(value_type.param)) })
    }
}

/// Values in a cell of their own.
#[derive(Debug, PartialEq, Eq)]
pub struct AbiRef;

impl AbiRef {
    pub fn new(value_type: AbiParam) -> (made: (AbiRef, AbiParam))
        ensures
            made.1@ == KindModel::Ref(Box::new(value_type@)),
    {
        (AbiRef, AbiParam { param: ParamType::Ref(Box::new(value_type.param)) })
    }
}

} // verus!
