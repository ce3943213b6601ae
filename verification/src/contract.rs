//! The four host-driven phases of the contract.
//!
//! The host invokes `init_contract` once per deployment, then per transaction
//! `get_metadata`, `process_instruction` (exec) and `process_update` (apply),
//! each as an independent, stateless invocation communicating only through
//! the byte payloads threaded between them.
//!
//! Registering the "Set" circuit's verification artifact with the host's
//! proof subsystem, and the proof and signature verification themselves, are
//! the host's work and stand outside this library.
//!
//! The apply phase re-validates nothing: it trusts that the host only hands
//! it the output of a successful, matching exec phase.  A host that breaks
//! that contract can overwrite a locked slot; this is an explicit trust
//! boundary owned by the host, not a code path this library can reach.

use vstd::prelude::*;

use crate::codec::{
    bool_byte, decode_payload, decode_set_params, decode_set_update, encode_varint,
    spec_decode_payload, valid_params_encoding, valid_update_encoding, varint_bytes,
};
use crate::error::ContractError;
use crate::field::{
    field_modulus, le_bytes, le_nat, lemma_le_bytes_of_le_nat, poseidon2, poseidon_hash2, Fp,
};
use crate::store::Store;

verus! {

/// The opcode byte that selects the "Set" function.
pub const SET_OPCODE: u8 = 0;

/// The function a call's opcode byte selects.  A closed enumeration: an
/// unknown byte is an "unsupported function" error, never a silent no-op.
#[derive(Debug, Clone, Copy, PartialEq, Eq, Structural)]
pub enum ContractFunction {
    SetV1,
}

impl ContractFunction {
    /// Dispatch on an opcode byte.
    pub fn from_byte(b: u8) -> (r: Option<ContractFunction>)
        ensures
            r == (if b == SET_OPCODE {
                Some(ContractFunction::SetV1)
            } else {
                None::<ContractFunction>
            }),
    {
        if b == SET_OPCODE {
            Some(ContractFunction::SetV1)
        } else {
            None
        }
    }

    /// The opcode byte of this function.
    pub fn to_byte(&self) -> (r: u8)
        ensures
            r == SET_OPCODE,
    {
        match self {
            ContractFunction::SetV1 => SET_OPCODE,
        }
    }
}

/// The slot value derived from the ownership flag, the account and the key:
/// a root-namespace claim (`car` one) hashes zero with the key and ignores
/// the account; any other claim hashes the account with the key.
pub open spec fn slot_of(car: nat, account: nat, key: nat) -> nat {
    if car == 1 {
        poseidon2(0, key)
    } else {
        poseidon2(account, key)
    }
}

/// Derive the storage slot of a claim.  Pure and total: the result is a
/// function of the three input values alone, so every party re-deriving
/// state obtains the identical slot.
pub fn derive_slot(car: &Fp, account: &Fp, key: &Fp) -> (r: Fp)
    requires
        car.wf(),
        account.wf(),
        key.wf(),
    ensures
        r.wf(),
        r@ == slot_of(car@, account@, key@),
{
    let one = Fp::one();
    if car.equals(&one) {
        let zero = Fp::zero();
        poseidon_hash2(&zero, key)
    } else {
        poseidon_hash2(account, key)
    }
}

/// The storage key under which a slot's lock entry lives.
pub open spec fn slot_key(slot: nat) -> Seq<u8> {
    le_bytes(slot, 32)
}

/// The storage key of a slot's value entry: the adjacent field element.
pub open spec fn value_key(slot: nat) -> Seq<u8> {
    le_bytes((slot + 1) % field_modulus(), 32)
}

/// The lock entry of `slot` in `m` is readable: absent, or a single byte.
pub open spec fn lock_readable(m: Map<Seq<u8>, Seq<u8>>, slot: nat) -> bool {
    m.contains_key(slot_key(slot)) ==> m[slot_key(slot)].len() == 1
}

/// `slot` is locked in `m`: its lock entry is present and non-zero.
pub open spec fn locked_in(m: Map<Seq<u8>, Seq<u8>>, slot: nat) -> bool {
    &&& m.contains_key(slot_key(slot))
    &&& m[slot_key(slot)].len() == 1
    &&& m[slot_key(slot)][0] != 0
}

/// The lock invariant checker: read the lock state of `slot` in `store`.
/// A missing entry is a fresh, writable slot.  An entry that does not
/// deserialize as a boolean signals storage corruption or a format mismatch
/// and is a fatal error, never silently treated as "unlocked".
pub fn is_locked(store: &Store, slot: &Fp) -> (r: Result<bool, ContractError>)
    requires
        store.wf(),
        slot.wf(),
    ensures
        match r {
            Ok(b) => lock_readable(store@, slot@) && b == locked_in(store@, slot@),
            Err(e) => e == ContractError::DecodeFailed && !lock_readable(store@, slot@),
        },
{
    let key = slot.to_bytes();
    proof {
        lemma_le_bytes_of_le_nat(slot.repr());
        assert(key@ == slot_key(slot@));
    }
    match store.get(&key) {
        None => Ok(false),
        Some(v) => {
            if v.len() != 1 {
                Err(ContractError::DecodeFailed)
            } else {
                Ok(v[0] != 0)
            }
        },
    }
}

/// The spec-level content of a parsed "Set" call.
pub ghost struct ParsedSet {
    pub car: nat,
    pub account: nat,
    pub key: nat,
    pub value_bytes: Seq<u8>,
    pub lock: bool,
}

/// The parsing and dispatch steps shared by the metadata and exec phases:
/// decode the payload, check the call index against the batch, dispatch on
/// the selected call's opcode byte, decode its parameters.
pub open spec fn parse_set_call(ix: Seq<u8>) -> Result<ParsedSet, ContractError> {
    match spec_decode_payload(ix) {
        None => Err(ContractError::DecodeFailed),
        Some((idx, calls)) => if idx >= calls.len() {
            Err(ContractError::CallIndexOutOfRange)
        } else {
            let data = calls[idx as int].1;
            if data.len() == 0 {
                Err(ContractError::DecodeFailed)
            } else if data[0] != SET_OPCODE {
                Err(ContractError::UnsupportedFunction)
            } else if !valid_params_encoding(data.skip(1)) {
                Err(ContractError::DecodeFailed)
            } else {
                let body = data.skip(1);
                Ok(ParsedSet {
                    car: le_nat(body.subrange(0, 32)),
                    account: le_nat(body.subrange(32, 64)),
                    key: le_nat(body.subrange(64, 96)),
                    value_bytes: body.subrange(96, 128),
                    lock: body[128] != 0,
                })
            }
        },
    }
}

/// The slot a parsed call claims.
pub open spec fn parsed_slot(p: ParsedSet) -> nat {
    slot_of(p.car, p.account, p.key)
}

/// The staged update the exec phase returns: opcode, slot, lock, value.
pub open spec fn staged_update_bytes(p: ParsedSet) -> Seq<u8> {
    seq![SET_OPCODE] + slot_key(parsed_slot(p)) + seq![bool_byte(p.lock)] + p.value_bytes
}

/// What the exec phase computes: parse and dispatch, derive the slot,
/// enforce the lock invariant against the store, and stage the update — or
/// the exact error of the first failing step.
pub open spec fn stage_spec(db: Option<Map<Seq<u8>, Seq<u8>>>, ix: Seq<u8>) -> Result<
    Seq<u8>,
    ContractError,
> {
    match parse_set_call(ix) {
        Err(e) => Err(e),
        Ok(p) => match db {
            None => Err(ContractError::DbNotFound),
            Some(m) => if !lock_readable(m, parsed_slot(p)) {
                Err(ContractError::DecodeFailed)
            } else if locked_in(m, parsed_slot(p)) {
                Err(ContractError::SlotLocked)
            } else {
                Ok(staged_update_bytes(p))
            },
        },
    }
}

/// What the apply phase does to the store: write the lock byte under the
/// slot's key and the value under the adjacent key — or fail, changing
/// nothing, on a bad opcode, malformed bytes or a missing table.
pub open spec fn apply_spec(db: Option<Map<Seq<u8>, Seq<u8>>>, upd: Seq<u8>) -> Result<
    Map<Seq<u8>, Seq<u8>>,
    ContractError,
> {
    if upd.len() == 0 {
        Err(ContractError::DecodeFailed)
    } else if upd[0] != SET_OPCODE {
        Err(ContractError::UnsupportedFunction)
    } else if !valid_update_encoding(upd.skip(1)) {
        Err(ContractError::DecodeFailed)
    } else {
        match db {
            None => Err(ContractError::DbNotFound),
            Some(m) => {
                let body = upd.skip(1);
                let slot = le_nat(body.subrange(0, 32));
                Ok(m.insert(slot_key(slot), seq![bool_byte(body[32] != 0)]).insert(
                    value_key(slot),
                    body.subrange(33, 65),
                ))
            },
        }
    }
}

/// The per-deployment persistent state: the entries table, absent until
/// `init_contract` has created it.
pub struct ContractState {
    entries: Option<Store>,
}

impl ContractState {
    /// The entries table's contents, if the table exists.
    pub closed spec fn db(&self) -> Option<Map<Seq<u8>, Seq<u8>>> {
        match self.entries {
            Some(s) => Some(s@),
            None => None,
        }
    }

    pub closed spec fn wf(&self) -> bool {
        match self.entries {
            Some(s) => s.wf(),
            None => true,
        }
    }

    /// The state of a fresh deployment, before initialization.
    pub fn new() -> (r: ContractState)
        ensures
            r.wf(),
            r.db() is None,
    {
        ContractState { entries: None }
    }

    /// Read a raw entry of the table, as the host's storage would.
    pub fn stored(&self, key: &Vec<u8>) -> (r: Result<Option<Vec<u8>>, ContractError>)
        requires
            self.wf(),
        ensures
            match r {
                Ok(v) => self.db() matches Some(m) && (match v {
                    Some(b) => m.contains_key(key@) && b@ == m[key@],
                    None => !m.contains_key(key@),
                }),
                Err(e) => e == ContractError::DbNotFound && self.db() is None,
            },
    {
        match &self.entries {
            Some(s) => Ok(s.get(key)),
            None => Err(ContractError::DbNotFound),
        }
    }
}

/// Idempotent one-time setup: create the entries table if and only if it
/// does not already exist.  Redeployment never wipes existing entries.
pub fn init_contract(state: &mut ContractState)
    requires
        old(state).wf(),
    ensures
        final(state).wf(),
        old(state).db() is None ==> final(state).db() == Some(
            Map::<Seq<u8>, Seq<u8>>::empty(),
        ),
        old(state).db() is Some ==> final(state).db() == old(state).db(),
{
    if state.entries.is_none() {
        state.entries = Some(Store::new());
    }
}

/// The zkas namespace identifier of the "Set" circuit, as UTF-8 bytes.
pub open spec fn zkas_namespace_bytes() -> Seq<u8> {
    seq![83u8, 101u8, 116u8, 86u8, 49u8]
}

/// The metadata phase's output bytes: one tagged sequence of public inputs
/// — the account, the key, the value and the ownership flag, in the fixed
/// order the "Set" circuit commits to — followed by an empty sequence of
/// signature public keys.
pub open spec fn metadata_bytes(p: ParsedSet) -> Seq<u8> {
    varint_bytes(1) + varint_bytes(5) + zkas_namespace_bytes() + varint_bytes(4) + le_bytes(
        p.account,
        32,
    ) + le_bytes(p.key, 32) + p.value_bytes + le_bytes(p.car, 32) + varint_bytes(0)
}

/// What the metadata phase computes: the same parsing and dispatch as the
/// exec phase, then the packaged verifier inputs; it never touches the store.
pub open spec fn metadata_spec(ix: Seq<u8>) -> Result<Seq<u8>, ContractError> {
    match parse_set_call(ix) {
        Err(e) => Err(e),
        Ok(p) => Ok(metadata_bytes(p)),
    }
}

/// The metadata phase: package the public inputs the external proof verifier
/// needs, tagged with the "Set" circuit's namespace, and the (empty) list of
/// required signature public keys.
pub fn get_metadata(ix: &Vec<u8>) -> (r: Result<Vec<u8>, ContractError>)
    ensures
        match r {
            Ok(out) => metadata_spec(ix@) == Ok::<Seq<u8>, ContractError>(out@),
            Err(e) => metadata_spec(ix@) == Err::<Seq<u8>, ContractError>(e),
        },
{
    let (call_idx, calls) = match decode_payload(ix) {
        Ok(v) => v,
        Err(e) => {
            return Err(e);
        },
    };
    if (call_idx as usize) >= calls.len() {
        return Err(ContractError::CallIndexOutOfRange);
    }
    let data = &calls[call_idx as usize].data;
    if data.len() == 0 {
        return Err(ContractError::DecodeFailed);
    }
    match ContractFunction::from_byte(data[0]) {
        None => {
            return Err(ContractError::UnsupportedFunction);
        },
        Some(ContractFunction::SetV1) => {},
    }
    let params = match decode_set_params(data, 1) {
        Ok(p) => p,
        Err(e) => {
            return Err(e);
        },
    };
    let ghost ps = (parse_set_call(ix@))->Ok_0;
    proof {
        lemma_le_bytes_of_le_nat(params.account.repr());
        lemma_le_bytes_of_le_nat(params.key.repr());
        lemma_le_bytes_of_le_nat(params.car.repr());
    }
    let mut out: Vec<u8> = Vec::new();
    encode_varint(&mut out, 1);
    encode_varint(&mut out, 5);
    out.push(83);  // 'S'
    out.push(101);  // 'e'
    out.push(116);  // 't'
    out.push(86);  // 'V'
    out.push(49);  // '1'
    encode_varint(&mut out, 4);
    let mut account = params.account.to_bytes();
    out.append(&mut account);
    let mut key = params.key.to_bytes();
    out.append(&mut key);
    let mut value = params.value.to_bytes();
    out.append(&mut value);
    let mut car = params.car.to_bytes();
    out.append(&mut car);
    encode_varint(&mut out, 0);
    proof {
        assert(out@ =~= metadata_bytes(ps));
    }
    Ok(out)
}

/// The exec phase: stage a validated update without touching persistent
/// state.  Read-only, so it can be re-executed by multiple parties; the
/// one business-rule rejection is `SlotLocked`.
pub fn process_instruction(state: &ContractState, ix: &Vec<u8>) -> (r: Result<
    Vec<u8>,
    ContractError,
>)
    requires
        state.wf(),
    ensures
        match r {
            Ok(out) => stage_spec(state.db(), ix@) == Ok::<Seq<u8>, ContractError>(out@),
            Err(e) => stage_spec(state.db(), ix@) == Err::<Seq<u8>, ContractError>(e),
        },
{
    let (call_idx, calls) = match decode_payload(ix) {
        Ok(v) => v,
        Err(e) => {
            return Err(e);
        },
    };
    if (call_idx as usize) >= calls.len() {
        return Err(ContractError::CallIndexOutOfRange);
    }
    let data = &calls[call_idx as usize].data;
    if data.len() == 0 {
        return Err(ContractError::DecodeFailed);
    }
    match ContractFunction::from_byte(data[0]) {
        None => {
            return Err(ContractError::UnsupportedFunction);
        },
        Some(ContractFunction::SetV1) => {},
    }
    let params = match decode_set_params(data, 1) {
        Ok(p) => p,
        Err(e) => {
            return Err(e);
        },
    };
    let ghost ps = (parse_set_call(ix@))->Ok_0;
    let slot = derive_slot(&params.car, &params.account, &params.key);
    let mut slot_bytes = slot.to_bytes();
    proof {
        lemma_le_bytes_of_le_nat(slot.repr());
        assert(slot_bytes@ == slot_key(parsed_slot(ps)));
    }
    let store = match &state.entries {
        Some(s) => s,
        None => {
            return Err(ContractError::DbNotFound);
        },
    };
    match is_locked(store, &slot) {
        Err(e) => {
            return Err(e);
        },
        Ok(true) => {
            return Err(ContractError::SlotLocked);
        },
        Ok(false) => {},
    }
    let mut out: Vec<u8> = Vec::new();
    out.push(SET_OPCODE);
    out.append(&mut slot_bytes);
    if params.lock {
        out.push(1);
    } else {
        out.push(0);
    }
    let mut value = params.value.to_bytes();
    out.append(&mut value);
    proof {
        assert(out@ =~= staged_update_bytes(ps));
    }
    Ok(out)
}

/// The apply phase: commit a previously staged update, writing the lock
/// byte under the slot's key and the value under the adjacent key.  It
/// performs no re-validation; on any error the state is unchanged.
pub fn process_update(state: &mut ContractState, update_data: &Vec<u8>) -> (r: Result<
    (),
    ContractError,
>)
    requires
        old(state).wf(),
    ensures
        final(state).wf(),
        match r {
            Ok(()) => (apply_spec(old(state).db(), update_data@) matches Ok(m)
                && final(state).db() == Some(m)),
            Err(e) => apply_spec(old(state).db(), update_data@) == Err::<
                Map<Seq<u8>, Seq<u8>>,
                ContractError,
            >(e) && final(state).db() == old(state).db(),
        },
{
    if update_data.len() == 0 {
        return Err(ContractError::DecodeFailed);
    }
    match ContractFunction::from_byte(update_data[0]) {
        None => {
            return Err(ContractError::UnsupportedFunction);
        },
        Some(ContractFunction::SetV1) => {},
    }
    let update = match decode_set_update(update_data, 1) {
        Ok(u) => u,
        Err(e) => {
            return Err(e);
        },
    };
    let one = Fp::one();
    let adjacent = update.slot.add_mod(&one);
    proof {
        lemma_le_bytes_of_le_nat(update.slot.repr());
        lemma_le_bytes_of_le_nat(adjacent.repr());
    }
    match &mut state.entries {
        None => Err(ContractError::DbNotFound),
        Some(store) => {
            let mut lock_bytes: Vec<u8> = Vec::new();
            if update.lock {
                lock_bytes.push(1);
            } else {
                lock_bytes.push(0);
            }
            proof {
                assert(lock_bytes@ =~= seq![bool_byte(update.lock)]);
            }
            store.set(update.slot.to_bytes(), lock_bytes);
            store.set(adjacent.to_bytes(), update.value.to_bytes());
            Ok(())
        },
    }
}

} // verus!
