//! The four phases, end to end: slot derivation, metadata packaging,
//! staging, committing, and the lock invariant.

use map_contract::codec::{encode_payload, encode_set_params};
use map_contract::contract::{
    derive_slot, get_metadata, init_contract, process_instruction, process_update,
    ContractFunction, ContractState, SET_OPCODE,
};
use map_contract::error::ContractError;
use map_contract::field::Fp;
use map_contract::model::{ContractCall, SetParamsV1};

fn fp(x: u64) -> Fp {
    Fp::from_u64(x)
}

fn params(car: u64, account: u64, key: u64, value: u64, lock: bool) -> SetParamsV1 {
    SetParamsV1 {
        car: fp(car),
        account: fp(account),
        key: fp(key),
        value: fp(value),
        lock,
    }
}

fn set_call(p: &SetParamsV1) -> ContractCall {
    let mut data = vec![SET_OPCODE];
    data.extend(encode_set_params(p));
    ContractCall {
        contract_id: fp(99),
        data,
    }
}

fn payload(call_idx: u32, ps: &[SetParamsV1]) -> Vec<u8> {
    let calls: Vec<ContractCall> = ps.iter().map(set_call).collect();
    encode_payload(call_idx, &calls)
}

fn initialized() -> ContractState {
    let mut state = ContractState::new();
    init_contract(&mut state);
    state
}

#[test]
fn dispatcher_accepts_only_the_set_opcode() {
    assert_eq!(
        ContractFunction::from_byte(SET_OPCODE),
        Some(ContractFunction::SetV1)
    );
    assert_eq!(ContractFunction::from_byte(1), None);
    assert_eq!(ContractFunction::from_byte(0xff), None);
    assert_eq!(ContractFunction::SetV1.to_byte(), SET_OPCODE);
}

#[test]
fn derive_slot_is_deterministic() {
    let a = derive_slot(&fp(2), &fp(10), &fp(5));
    let b = derive_slot(&fp(2), &fp(10), &fp(5));
    assert_eq!(a, b);
}

#[test]
fn root_claims_ignore_account() {
    let a = derive_slot(&fp(1), &fp(10), &fp(5));
    let b = derive_slot(&fp(1), &fp(20), &fp(5));
    assert_eq!(a, b);
}

#[test]
fn owner_claims_separate_accounts() {
    let a = derive_slot(&fp(2), &fp(10), &fp(5));
    let b = derive_slot(&fp(2), &fp(11), &fp(5));
    assert_ne!(a, b);
}

#[test]
fn derived_slot_is_no_echo_of_its_inputs() {
    let slot = derive_slot(&fp(2), &fp(10), &fp(5));
    assert_ne!(slot, fp(10));
    assert_ne!(slot, fp(5));
    assert_ne!(slot, fp(2));
}

#[test]
fn metadata_packages_public_inputs() {
    // A batch of one "Set" call with key=5, value=42, car=1.
    let ix = payload(0, &[params(1, 0, 5, 42, false)]);
    let out = get_metadata(&ix).expect("metadata must succeed");

    let mut expected: Vec<u8> = Vec::new();
    expected.push(1); // one (namespace, inputs) pair
    expected.push(5); // namespace length
    expected.extend_from_slice(b"SetV1");
    expected.push(4); // four public inputs: account, key, value, car
    expected.extend(fp(0).to_bytes());
    expected.extend(fp(5).to_bytes());
    expected.extend(fp(42).to_bytes());
    expected.extend(fp(1).to_bytes());
    expected.push(0); // no signature public keys
    assert_eq!(out, expected);
}

#[test]
fn metadata_matches_reference_serializer() {
    let ix = payload(0, &[params(1, 0, 5, 42, false)]);
    let out = get_metadata(&ix).expect("metadata must succeed");

    let to_arr = |f: Fp| -> [u8; 32] {
        let mut a = [0u8; 32];
        a.copy_from_slice(&f.to_bytes());
        a
    };
    let inputs = vec![to_arr(fp(0)), to_arr(fp(5)), to_arr(fp(42)), to_arr(fp(1))];
    let mut reference = darkfi_serial::serialize(&vec![("SetV1".to_string(), inputs)]);
    reference.extend(darkfi_serial::serialize(&Vec::<u8>::new()));
    assert_eq!(out, reference);
}

#[test]
fn stage_out_of_range_is_a_range_error() {
    // An index past the batch fails with the range error, never a decoding
    // or lock error.
    let ix = payload(5, &[params(1, 0, 5, 42, false)]);
    let state = initialized();
    assert_eq!(
        process_instruction(&state, &ix),
        Err(ContractError::CallIndexOutOfRange)
    );
    assert_eq!(get_metadata(&ix), Err(ContractError::CallIndexOutOfRange));

    // The range check comes first even when the batched call itself is
    // garbage: an unknown opcode and undecodable parameters.
    let junk = ContractCall {
        contract_id: fp(99),
        data: vec![9u8, 9, 9],
    };
    let ix = encode_payload(3, &vec![junk]);
    assert_eq!(
        process_instruction(&state, &ix),
        Err(ContractError::CallIndexOutOfRange)
    );
}

#[test]
fn stage_unknown_opcode() {
    let mut call = set_call(&params(1, 0, 5, 42, false));
    call.data[0] = 1;
    let ix = encode_payload(0, &vec![call]);
    let state = initialized();
    assert_eq!(
        process_instruction(&state, &ix),
        Err(ContractError::UnsupportedFunction)
    );
}

#[test]
fn stage_empty_call_data() {
    let call = ContractCall {
        contract_id: fp(99),
        data: vec![],
    };
    let ix = encode_payload(0, &vec![call]);
    let state = initialized();
    assert_eq!(
        process_instruction(&state, &ix),
        Err(ContractError::DecodeFailed)
    );
}

#[test]
fn stage_malformed_params() {
    let call = ContractCall {
        contract_id: fp(99),
        data: vec![SET_OPCODE, 1, 2, 3],
    };
    let ix = encode_payload(0, &vec![call]);
    let state = initialized();
    assert_eq!(
        process_instruction(&state, &ix),
        Err(ContractError::DecodeFailed)
    );
}

#[test]
fn stage_before_init_finds_no_table() {
    let ix = payload(0, &[params(1, 0, 5, 42, false)]);
    let state = ContractState::new();
    assert_eq!(
        process_instruction(&state, &ix),
        Err(ContractError::DbNotFound)
    );
}

#[test]
fn apply_before_init_finds_no_table() {
    let ix = payload(0, &[params(1, 0, 5, 42, false)]);
    let staged = process_instruction(&initialized(), &ix).expect("staging must succeed");
    let mut state = ContractState::new();
    assert_eq!(
        process_update(&mut state, &staged),
        Err(ContractError::DbNotFound)
    );
}

#[test]
fn apply_unknown_opcode() {
    let mut state = initialized();
    let upd = vec![7u8; 66];
    assert_eq!(
        process_update(&mut state, &upd),
        Err(ContractError::UnsupportedFunction)
    );
}

#[test]
fn apply_malformed_update() {
    let mut state = initialized();
    let upd = vec![SET_OPCODE, 1, 2];
    assert_eq!(
        process_update(&mut state, &upd),
        Err(ContractError::DecodeFailed)
    );
}

#[test]
fn commit_writes_lock_and_value_on_adjacent_keys() {
    let mut state = initialized();
    let ix = payload(0, &[params(1, 0, 5, 42, true)]);
    let staged = process_instruction(&state, &ix).expect("staging must succeed");
    assert_eq!(staged.len(), 66);
    assert_eq!(staged[0], SET_OPCODE);
    process_update(&mut state, &staged).expect("commit must succeed");

    let slot = derive_slot(&fp(1), &fp(0), &fp(5));
    let value_slot = slot.add_mod(&Fp::one());
    let lock_entry = state.stored(&slot.to_bytes()).unwrap();
    assert_eq!(lock_entry, Some(vec![1u8]));
    let value_entry = state.stored(&value_slot.to_bytes()).unwrap();
    assert_eq!(value_entry, Some(fp(42).to_bytes()));
}

#[test]
fn locked_slot_rejects_further_staging() {
    let mut state = initialized();
    let first = payload(0, &[params(1, 0, 5, 42, true)]);
    let staged = process_instruction(&state, &first).expect("first staging must succeed");
    process_update(&mut state, &staged).expect("first commit must succeed");

    // Any later write to the same slot fails with the domain error.
    let second = payload(0, &[params(1, 0, 5, 7, false)]);
    assert_eq!(
        process_instruction(&state, &second),
        Err(ContractError::SlotLocked)
    );
}

#[test]
fn unlocked_root_claim_is_overwritten_by_the_next_writer() {
    let mut state = initialized();
    // Two root-namespace claims to the same key from different callers.
    let first = payload(0, &[params(1, 10, 5, 42, false)]);
    let staged = process_instruction(&state, &first).expect("first staging must succeed");
    process_update(&mut state, &staged).expect("first commit must succeed");

    let second = payload(0, &[params(1, 20, 5, 7, false)]);
    let staged2 = process_instruction(&state, &second).expect("second staging must succeed");
    process_update(&mut state, &staged2).expect("second commit must succeed");

    let slot = derive_slot(&fp(1), &fp(0), &fp(5));
    let value_slot = slot.add_mod(&Fp::one());
    assert_eq!(
        state.stored(&value_slot.to_bytes()).unwrap(),
        Some(fp(7).to_bytes())
    );
}

#[test]
fn stage_rereads_committed_state_unchanged() {
    // Staging is read-only: after staging, the store is unchanged and the
    // same staging can be repeated with the same result.
    let state = initialized();
    let ix = payload(0, &[params(1, 0, 5, 42, false)]);
    let a = process_instruction(&state, &ix).expect("staging must succeed");
    let b = process_instruction(&state, &ix).expect("staging must succeed");
    assert_eq!(a, b);
}

#[test]
fn init_is_idempotent_and_keeps_entries() {
    let mut state = initialized();
    let ix = payload(0, &[params(1, 0, 5, 42, false)]);
    let staged = process_instruction(&state, &ix).expect("staging must succeed");
    process_update(&mut state, &staged).expect("commit must succeed");

    // A redeployment must not wipe existing entries.
    init_contract(&mut state);
    let slot = derive_slot(&fp(1), &fp(0), &fp(5));
    assert_eq!(state.stored(&slot.to_bytes()).unwrap(), Some(vec![0u8]));
}

#[test]
fn corrupt_lock_entry_is_not_treated_as_unlocked() {
    // The apply phase re-validates nothing, so a malicious host can commit a
    // forged update whose 32-byte value lands under another claim's lock
    // key.  A lock entry that fails to deserialize as a boolean must then be
    // a fatal error, never silently "unlocked".
    let mut state = initialized();
    let slot = derive_slot(&fp(1), &fp(0), &fp(5));

    // The field element -1, so that (slot - 1) + 1 == slot.
    let mut minus_one_bytes = vec![
        0x00u8, 0x00, 0x00, 0x00, 0xed, 0x30, 0x2d, 0x99, 0x1b, 0xf9, 0x4c, 0x09, 0xfc, 0x98,
        0x46, 0x22,
    ];
    minus_one_bytes.extend_from_slice(&[0u8; 14]);
    minus_one_bytes.push(0x00);
    minus_one_bytes.push(0x40);
    let minus_one = Fp::from_bytes(minus_one_bytes).expect("the modulus minus one is canonical");
    assert_eq!(slot.add_mod(&minus_one).add_mod(&Fp::one()), slot);

    // Forge an update for slot - 1: its value entry lands under `slot`.
    let mut forged = vec![SET_OPCODE];
    forged.extend(slot.add_mod(&minus_one).to_bytes());
    forged.push(0);
    forged.extend(fp(7).to_bytes());
    process_update(&mut state, &forged).expect("the apply phase re-validates nothing");

    let ix = payload(0, &[params(1, 0, 5, 42, false)]);
    assert_eq!(
        process_instruction(&state, &ix),
        Err(ContractError::DecodeFailed)
    );
}
