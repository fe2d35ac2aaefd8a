//! The types of parameters.

use vstd::prelude::*;

verus! {

/// A named parameter.
#[derive(Debug, PartialEq, Eq)]
pub struct Param {
    pub name: String,
    pub kind: ParamType,
}

/// The type of a parameter.
#[derive(Debug, PartialEq, Eq)]
pub enum ParamType {
    /// Unsigned integer of a number of bits.
    Uint(usize),
    /// Signed integer of a number of bits.
    Int(usize),
    /// Unsigned integer of a variable number of bytes, below so many.
    VarUint(usize),
    /// Signed integer of a variable number of bytes, below so many.
    VarInt(usize),
    Bool,
    Tuple(Vec<Param>),
    Array(Box<ParamType>),
    FixedArray(Box<ParamType>, usize),
    Cell,
    /// A dictionary: the type of its keys and that of its values.
    Mapping(Box<ParamType>, Box<ParamType>),
    Address,
    Bytes,
    FixedBytes(usize),
    String,
    /// An amount of tokens.
    Token,
    Time,
    Expire,
    PublicKey,
    Optional(Box<ParamType>),
    /// A value in a cell of its own.
    Ref(Box<ParamType>),
}

/// [`Param`] over sequences.
pub struct ParamModel {
    pub name: Seq<char>,
    pub kind: KindModel,
}

/// [`ParamType`] over sequences.
pub enum KindModel {
    Uint(usize),
    Int(usize),
    VarUint(usize),
    VarInt(usize),
    Bool,
    Tuple(Seq<ParamModel>),
    Array(Box<KindModel>),
    FixedArray(Box<KindModel>, usize),
    Cell,
    Mapping(Box<KindModel>, Box<KindModel>),
    Address,
    Bytes,
    FixedBytes(usize),
    String,
    Token,
    Time,
    Expire,
    PublicKey,
    Optional(Box<KindModel>),
    Ref(Box<KindModel>),
}

/// The model of a type.
pub open spec fn kind_model(kind: ParamType) -> KindModel
    decreases kind,
{
    match kind {
        ParamType::Uint(size) => KindModel::Uint(size),
        ParamType::Int(size) => KindModel::Int(size),
        ParamType::VarUint(size) => KindModel::VarUint(size),
        ParamType::VarInt(size) => KindModel::VarInt(size),
        ParamType::Bool => KindModel::Bool,
        ParamType::Tuple(params) => KindModel::Tuple(params_model(params@)),
        ParamType::Array(ty) => KindModel::Array(Box::new(kind_model(*ty))),
        ParamType::FixedArray(ty, len) => KindModel::FixedArray(Box::new(kind_model(*ty)), len),
        ParamType::Cell => KindModel::Cell,
        ParamType::Mapping(key, value) => KindModel::Mapping(
            Box::new(kind_model(*key)),
            Box::new(kind_model(*value)),
        ),
        ParamType::Address => KindModel::Address,
        ParamType::Bytes => KindModel::Bytes,
        ParamType::FixedBytes(len) => KindModel::FixedBytes(len),
        ParamType::String => KindModel::String,
        ParamType::Token => KindModel::Token,
        ParamType::Time => KindModel::Time,
        ParamType::Expire => KindModel::Expire,
        ParamType::PublicKey => KindModel::PublicKey,
        ParamType::Optional(ty) => KindModel::Optional(Box::new(kind_model(*ty))),
        ParamType::Ref(ty) => KindModel::Ref(Box::new(kind_model(*ty))),
    }
}

/// The model of a parameter.
pub open spec fn param_model(param: Param) -> ParamModel
    decreases param,
{
    ParamModel { name: param.name@, kind: kind_model(param.kind) }
}

/// The models of parameters, in order.
pub open spec fn params_model(params: Seq<Param>) -> Seq<ParamModel>
    decreases params,
{
    Seq::new(
        params.len(),
        |i: int| if 0 <= i < params.len() { param_model(params[i]) } else { arbitrary() },
    )
}

/// What [`params_model`] holds at each place.
pub proof fn lemma_params_model(params: Seq<Param>)
    ensures
        params_model(params).len() == params.len(),
        forall|i: int|
            0 <= i < params.len() ==> #[trigger] params_model(params)[i] == param_model(params[i]),
{
    assert forall|i: int| 0 <= i < params.len() implies #[trigger] params_model(params)[i]
        == param_model(params[i]) by {}
}

impl View for ParamType {
    type V = KindModel;

    open spec fn view(&self) -> KindModel {
        kind_model(*self)
    }
}

impl View for Param {
    type V = ParamModel;

    open spec fn view(&self) -> ParamModel {
        param_model(*self)
    }
}

impl Clone for ParamType {
    fn clone(&self) -> (copy: ParamType)
        ensures
            copy@ == self@,
        decreases self,
    {
        match self {
            ParamType::Uint(size) => ParamType::Uint(*size),
            ParamType::Int(size) => ParamType::Int(*size),
            ParamType::VarUint(size) => ParamType::VarUint(*size),
            ParamType::VarInt(size) => ParamType::VarInt(*size),
            ParamType::Bool => ParamType::Bool,
            ParamType::Tuple(params) => ParamType::Tuple(copy_params(params.as_slice())),
            ParamType::Array(ty) => ParamType::Array(Box::new((&**ty).clone())),
            ParamType::FixedArray(ty, len) => {
                ParamType::FixedArray(Box::new((&**ty).clone()), *len)
            },
            ParamType::Cell => ParamType::Cell,
            ParamType::Mapping(key, value) => {
                ParamType::Mapping(Box::new((&**key).clone()), Box::new((&**value).clone()))
            },
            ParamType::Address => ParamType::Address,
            ParamType::Bytes => ParamType::Bytes,
            ParamType::FixedBytes(len) => ParamType::FixedBytes(*len),
            ParamType::String => ParamType::String,
            ParamType::Token => ParamType::Token,
            ParamType::Time => ParamType::Time,
            ParamType::Expire => ParamType::Expire,
            ParamType::PublicKey => ParamType::PublicKey,
            ParamType::Optional(ty) => ParamType::Optional(Box::new((&**ty).clone())),
            ParamType::Ref(ty) => ParamType::Ref(Box::new((&**ty).clone())),
        }
    }
}

/// A copy of parameters.
pub fn copy_params(params: &[Param]) -> (copy: Vec<Param>)
    ensures
        params_model(copy@) == params_model(params@),
    decreases params@,
{
    let mut copy: Vec<Param> = Vec::with_capacity(params.len());
    let mut i: usize = 0;
    while i < params.len()
        invariant
            i <= params@.len(),
            copy@.len() == i,
            forall|j: int|
                0 <= j < i ==> #[trigger] param_model(copy@[j]) == param_model(params@[j]),
        decreases params@.len() - i,
    {
        let param: &Param = &params[i];
        copy.push(Param { name: param.name.clone(), kind: param.kind.clone() });
        i = i + 1;
    }
    proof {
        lemma_params_model(copy@);
        lemma_params_model(params@);
        assert(params_model(copy@) =~= params_model(params@));
    }
    copy
}

impl ParamType {
    /// Whether two types are the same.
    pub fn same(&self, other: &ParamType) -> (same: bool)
        ensures
            same == (self@ == other@),
        decreases self,
    {
        match (self, other) {
            (ParamType::Uint(a), ParamType::Uint(b)) => *a == *b,
            (ParamType::Int(a), ParamType::Int(b)) => *a == *b,
            (ParamType::VarUint(a), ParamType::VarUint(b)) => *a == *b,
            (ParamType::VarInt(a), ParamType::VarInt(b)) => *a == *b,
            (ParamType::Bool, ParamType::Bool) => true,
            (ParamType::Tuple(a), ParamType::Tuple(b)) => same_params(a.as_slice(), b.as_slice()),
            (ParamType::Array(a), ParamType::Array(b)) => (&**a).same(&**b),
            (ParamType::FixedArray(a, m), ParamType::FixedArray(b, n)) => {
                *m == *n && (&**a).same(&**b)
            },
            (ParamType::Cell, ParamType::Cell) => true,
            (ParamType::Mapping(a, c), ParamType::Mapping(b, d)) => {
                (&**a).same(&**b) && (&**c).same(&**d)
            },
            (ParamType::Address, ParamType::Address) => true,
            (ParamType::Bytes, ParamType::Bytes) => true,
            (ParamType::FixedBytes(a), ParamType::FixedBytes(b)) => *a == *b,
            (ParamType::String, ParamType::String) => true,
            (ParamType::Token, ParamType::Token) => true,
            (ParamType::Time, ParamType::Time) => true,
            (ParamType::Expire, ParamType::Expire) => true,
            (ParamType::PublicKey, ParamType::PublicKey) => true,
            (ParamType::Optional(a), ParamType::Optional(b)) => (&**a).same(&**b),
            (ParamType::Ref(a), ParamType::Ref(b)) => (&**a).same(&**b),
            _ => false,
        }
    }
}

/// Whether two lists of parameters are the same, names and order included.
pub fn same_params(a: &[Param], b: &[Param]) -> (same: bool)
    ensures
        same == (params_model(a@) == params_model(b@)),
    decreases a@,
{
    proof {
        lemma_params_model(a@);
        lemma_params_model(b@);
    }
    if a.len() != b.len() {
        return false;
    }
    let mut i: usize = 0;
    while i < a.len()
        invariant
            a@.len() == b@.len(),
            i <= a@.len(),
            params_model(a@).len() == a@.len(),
            params_model(b@).len() == b@.len(),
            forall|j: int|
                0 <= j < a@.len() ==> #[trigger] params_model(a@)[j] == param_model(a@[j]),
            forall|j: int|
                0 <= j < b@.len() ==> #[trigger] params_model(b@)[j] == param_model(b@[j]),
            forall|j: int| 0 <= j < i ==> params_model(a@)[j] == params_model(b@)[j],
        decreases a@.len() - i,
    {
        let x: &Param = &a[i];
        let y: &Param = &b[i];
        if !(x.name == y.name) || !x.kind.same(&y.kind) {
            assert(params_model(a@)[i as int] != params_model(b@)[i as int]);
            return false;
        }
        i = i + 1;
    }
    assert(params_model(a@) =~= params_model(b@));
    true
}

} // verus!
