//! What the ledger library hands over: cells, bit strings and addresses, as plain values.

use vstd::prelude::*;

verus! {

/// A copy of a vector of bytes.
pub(crate) fn copy_bytes(bytes: &[u8]) -> (copy: Vec<u8>)
    ensures
        copy@ == bytes@,
{
    let mut copy: Vec<u8> = Vec::with_capacity(bytes.len());
    let mut i: usize = 0;
    while i < bytes.len()
        invariant
            i <= bytes@.len(),
            copy@ =~= bytes@.take(i as int),
        decreases bytes@.len() - i,
    {
        copy.push(bytes[i]);
        i = i + 1;
    }
    copy
}

/// Whether two sequences of bytes are the same.
pub(crate) fn same_bytes(a: &[u8], b: &[u8]) -> (same: bool)
    ensures
        same == (a@ == b@),
{
    if a.len() != b.len() {
        return false;
    }
    let mut i: usize = 0;
    while i < a.len()
        invariant
            a@.len() == b@.len(),
            i <= a@.len(),
            forall|j: int| 0 <= j < i ==> a@[j] == b@[j],
        decreases a@.len() - i,
    {
        if a[i] != b[i] {
            return false;
        }
        i = i + 1;
    }
    assert(a@ =~= b@);
    true
}

/// A tree of cells in its serialized form (a bag of cells).
#[derive(Debug, PartialEq, Eq)]
pub struct Cell {
    pub boc: Vec<u8>,
}

impl View for Cell {
    type V = Seq<u8>;

    open spec fn view(&self) -> Seq<u8> {
        self.boc@
    }
}

impl Clone for Cell {
    fn clone(&self) -> (copy: Cell)
        ensures
            copy@ == self@,
    {
        Cell { boc: copy_bytes(self.boc.as_slice()) }
    }
}

/// The initial state of a contract, serialized as [`Cell`] is.
#[derive(Debug, PartialEq, Eq)]
pub struct StateInit {
    pub boc: Vec<u8>,
}

impl View for StateInit {
    type V = Seq<u8>;

    open spec fn view(&self) -> Seq<u8> {
        self.boc@
    }
}

impl Clone for StateInit {
    fn clone(&self) -> (copy: StateInit)
        ensures
            copy@ == self@,
    {
        StateInit { boc: copy_bytes(self.boc.as_slice()) }
    }
}

/// A string of bits: the bytes that hold them and how many of the bits count.
#[derive(Debug, PartialEq, Eq)]
pub struct Bits {
    pub bytes: Vec<u8>,
    pub len: usize,
}

/// [`Bits`] over a sequence of bytes.
pub struct BitsModel {
    pub bytes: Seq<u8>,
    pub len: usize,
}

impl View for Bits {
    type V = BitsModel;

    open spec fn view(&self) -> BitsModel {
        BitsModel { bytes: self.bytes@, len: self.len }
    }
}

impl Clone for Bits {
    fn clone(&self) -> (copy: Bits)
        ensures
            copy@ == self@,
    {
        Bits { bytes: copy_bytes(self.bytes.as_slice()), len: self.len }
    }
}

impl Bits {
    /// Whether two strings of bits are held alike.
    pub fn same(&self, other: &Bits) -> (same: bool)
        ensures
            same == (self@ == other@),
    {
        self.len == other.len && same_bytes(self.bytes.as_slice(), other.bytes.as_slice())
    }
}

/// An optional string of bits over its model.
pub open spec fn optional_bits(bits: Option<Bits>) -> Option<BitsModel> {
    match bits {
        Some(b) => Some(b@),
        None => None,
    }
}

fn copy_optional_bits(bits: &Option<Bits>) -> (copy: Option<Bits>)
    ensures
        optional_bits(copy) == optional_bits(*bits),
{
    match bits {
        Some(b) => Some(b.clone()),
        None => None,
    }
}

fn same_optional_bits(a: &Option<Bits>, b: &Option<Bits>) -> (same: bool)
    ensures
        same == (optional_bits(*a) == optional_bits(*b)),
{
    match (a, b) {
        (Some(x), Some(y)) => x.same(y),
        (None, None) => true,
        _ => false,
    }
}

/// An address of the standard form: a workchain and the hash of the account.
#[derive(Debug, PartialEq, Eq)]
pub struct StdAddress {
    pub anycast: Option<Bits>,
    pub workchain: i8,
    pub account: Vec<u8>,
}

/// [`StdAddress`] over sequences of bytes.
pub struct StdAddressModel {
    pub anycast: Option<BitsModel>,
    pub workchain: i8,
    pub account: Seq<u8>,
}

impl View for StdAddress {
    type V = StdAddressModel;

    open spec fn view(&self) -> StdAddressModel {
        StdAddressModel {
            anycast: optional_bits(self.anycast),
            workchain: self.workchain,
            account: self.account@,
        }
    }
}

impl Clone for StdAddress {
    fn clone(&self) -> (copy: StdAddress)
        ensures
            copy@ == self@,
    {
        StdAddress {
            anycast: copy_optional_bits(&self.anycast),
            workchain: self.workchain,
            account: copy_bytes(self.account.as_slice()),
        }
    }
}

/// An address of the variable form: a workchain and an account of any number of bits.
#[derive(Debug, PartialEq, Eq)]
pub struct VarAddress {
    pub anycast: Option<Bits>,
    pub workchain: i32,
    pub account: Bits,
}

/// [`VarAddress`] over sequences of bytes.
pub struct VarAddressModel {
    pub anycast: Option<BitsModel>,
    pub workchain: i32,
    pub account: BitsModel,
}

impl View for VarAddress {
    type V = VarAddressModel;

    open spec fn view(&self) -> VarAddressModel {
        VarAddressModel {
            anycast: optional_bits(self.anycast),
            workchain: self.workchain,
            account: self.account@,
        }
    }
}

impl Clone for VarAddress {
    fn clone(&self) -> (copy: VarAddress)
        ensures
            copy@ == self@,
    {
        VarAddress {
            anycast: copy_optional_bits(&self.anycast),
            workchain: self.workchain,
            account: self.account.clone(),
        }
    }
}

/// The address of an account.
#[derive(Debug, PartialEq, Eq)]
pub enum Address {
    Std(StdAddress),
    Var(VarAddress),
}

/// [`Address`] over sequences of bytes.
pub enum AddressModel {
    Std(StdAddressModel),
    Var(VarAddressModel),
}

impl View for Address {
    type V = AddressModel;

    open spec fn view(&self) -> AddressModel {
        match self {
            Address::Std(a) => AddressModel::Std(a@),
            Address::Var(a) => AddressModel::Var(a@),
        }
    }
}

impl Clone for Address {
    fn clone(&self) -> (copy: Address)
        ensures
            copy@ == self@,
    {
        match self {
            Address::Std(a) => Address::Std(a.clone()),
            Address::Var(a) => Address::Var(a.clone()),
        }
    }
}

/// An address as a message may carry it: none, one outside the ledger, or an account.
#[derive(Debug, PartialEq, Eq)]
pub enum MsgAddress {
    AddrNone,
    AddrExt(Bits),
    AddrStd(StdAddress),
    AddrVar(VarAddress),
}

/// [`MsgAddress`] over sequences of bytes.
pub enum MsgAddressModel {
    AddrNone,
    AddrExt(BitsModel),
    AddrStd(StdAddressModel),
    AddrVar(VarAddressModel),
}

impl View for MsgAddress {
    type V = MsgAddressModel;

    open spec fn view(&self) -> MsgAddressModel {
        match self {
            MsgAddress::AddrNone => MsgAddressModel::AddrNone,
            MsgAddress::AddrExt(a) => MsgAddressModel::AddrExt(a@),
            MsgAddress::AddrStd(a) => MsgAddressModel::AddrStd(a@),
            MsgAddress::AddrVar(a) => MsgAddressModel::AddrVar(a@),
        }
    }
}

/// The address of an account, as a message carries it.
pub open spec fn message_address(address: AddressModel) -> MsgAddressModel {
    match address {
        AddressModel::Std(a) => MsgAddressModel::AddrStd(a),
        AddressModel::Var(a) => MsgAddressModel::AddrVar(a),
    }
}

/// The account that an address of a message names, if it names one.
pub open spec fn account_address(address: MsgAddressModel) -> Option<AddressModel> {
    match address {
        MsgAddressModel::AddrStd(a) => Some(AddressModel::Std(a)),
        MsgAddressModel::AddrVar(a) => Some(AddressModel::Var(a)),
        _ => None,
    }
}

impl MsgAddress {
    /// The address of an account, as a message carries it.
    pub fn from_account(address: &Address) -> (message: MsgAddress)
        ensures
            message@ == message_address(address@),
    {
        match address {
            Address::Std(a) => MsgAddress::AddrStd(a.clone()),
            Address::Var(a) => MsgAddress::AddrVar(a.clone()),
        }
    }

    /// The account that the address names, if it names one.
    pub fn into_account(self) -> (address: Option<Address>)
        ensures
            match address {
                Some(a) => account_address(self@) == Some(a@),
                None => account_address(self@) is None,
            },
    {
        match self {
            MsgAddress::AddrStd(a) => Some(Address::Std(a)),
            MsgAddress::AddrVar(a) => Some(Address::Var(a)),
            _ => None,
        }
    }

    /// Whether two addresses are the same.
    pub fn same(&self, other: &MsgAddress) -> (same: bool)
        ensures
            same == (self@ == other@),
    {
        match (self, other) {
            (MsgAddress::AddrNone, MsgAddress::AddrNone) => true,
            (MsgAddress::AddrExt(a), MsgAddress::AddrExt(b)) => a.same(b),
            (MsgAddress::AddrStd(a), MsgAddress::AddrStd(b)) => {
                a.workchain == b.workchain && same_optional_bits(&a.anycast, &b.anycast)
                    && same_bytes(a.account.as_slice(), b.account.as_slice())
            },
            (MsgAddress::AddrVar(a), MsgAddress::AddrVar(b)) => {
                a.workchain == b.workchain && same_optional_bits(&a.anycast, &b.anycast)
                    && a.account.same(&b.account)
            },
            _ => false,
        }
    }
}

} // verus!
