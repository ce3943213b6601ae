//! The contract's data structures.

use vstd::prelude::*;

use crate::field::Fp;

verus! {

/// The decoded parameters of a "Set" call.
///
/// `car` acts as a boolean flag: the field value one claims the key at the
/// root namespace, any other value claims it under `account`'s identity.
#[derive(Debug, Clone, PartialEq, Eq)]
pub struct SetParamsV1 {
    pub car: Fp,
    pub account: Fp,
    pub key: Fp,
    pub value: Fp,
    pub lock: bool,
}

impl SetParamsV1 {
    pub open spec fn wf(&self) -> bool {
        self.car.wf() && self.account.wf() && self.key.wf() && self.value.wf()
    }
}

/// The staged state update handed from the exec phase to the apply phase.
///
/// It is validated when staged; the apply phase trusts it as received.
#[derive(Debug, Clone, PartialEq, Eq)]
pub struct SetUpdateV1 {
    pub slot: Fp,
    pub lock: bool,
    pub value: Fp,
}

impl SetUpdateV1 {
    pub open spec fn wf(&self) -> bool {
        self.slot.wf() && self.value.wf()
    }
}

/// One entry of the host-supplied call batch: the calling contract's
/// identity and the opcode-prefixed call payload.
#[derive(Debug, Clone, PartialEq, Eq)]
pub struct ContractCall {
    pub contract_id: Fp,
    pub data: Vec<u8>,
}

} // verus!
