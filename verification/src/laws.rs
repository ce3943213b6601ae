//! The laws the contract's phases obey, stated and proved over the spec
//! pipeline that the entrypoints' contracts speak of.

use vstd::prelude::*;

use crate::codec::{
    bool_byte, params_bytes, update_body_bytes, valid_params_encoding, valid_update_encoding,
};
use crate::contract::{
    apply_spec, locked_in, parse_set_call, parsed_slot, slot_key, slot_of, stage_spec,
    staged_update_bytes, value_key, ParsedSet, SET_OPCODE,
};
use crate::error::ContractError;
use crate::field::{field_modulus, le_nat, lemma_le_nat_of_le_bytes, pow256};
use crate::model::{SetParamsV1, SetUpdateV1};

verus! {

/// The field modulus fits in 32 bytes.
pub proof fn lemma_modulus_below_pow256_32()
    ensures
        field_modulus() < pow256(32),
{
    assert(pow256(32) > field_modulus()) by {
        reveal_with_fuel(pow256, 33);
    }
}

/// Root-namespace claims ignore the account: for `car` one, any two accounts
/// derive the same slot for the same key.
pub proof fn lemma_root_claims_share_slot(a: nat, b: nat, k: nat)
    ensures
        slot_of(1, a, k) == slot_of(1, b, k),
{
}

/// A slot's lock entry and its value entry live under distinct storage keys:
/// the adjacent field element of a field value is never the value itself.
pub proof fn lemma_adjacent_keys_distinct(slot: nat)
    requires
        slot < field_modulus(),
    ensures
        value_key(slot) != slot_key(slot),
{
    lemma_modulus_below_pow256_32();
    let adjacent = (slot + 1) % field_modulus();
    if slot + 1 < field_modulus() {
        vstd::arithmetic::div_mod::lemma_small_mod(slot + 1, field_modulus());
        assert(adjacent == slot + 1);
    } else {
        assert(slot + 1 == field_modulus());
        vstd::arithmetic::div_mod::lemma_mod_self_0(field_modulus() as int);
        assert(adjacent == 0);
    }
    assert(adjacent != slot);
    lemma_le_nat_of_le_bytes(adjacent, 32);
    lemma_le_nat_of_le_bytes(slot, 32);
}

/// Two-write atomicity of the apply phase: after a successful commit, the
/// slot's key holds exactly the lock byte, the adjacent key holds exactly
/// the value bytes, and every other storage key is untouched.
pub proof fn lemma_apply_two_writes(m: Map<Seq<u8>, Seq<u8>>, upd: Seq<u8>)
    requires
        apply_spec(Some(m), upd) is Ok,
    ensures
        ({
            let body = upd.skip(1);
            let slot = le_nat(body.subrange(0, 32));
            let m2 = apply_spec(Some(m), upd)->Ok_0;
            &&& m2.contains_key(slot_key(slot))
            &&& m2[slot_key(slot)] == seq![bool_byte(body[32] != 0)]
            &&& m2.contains_key(value_key(slot))
            &&& m2[value_key(slot)] == body.subrange(33, 65)
            &&& forall|k: Seq<u8>|
                k != slot_key(slot) && k != value_key(slot) ==> (m2.contains_key(k)
                    <==> m.contains_key(k)) && (m.contains_key(k) ==> m2[k] == m[k])
        }),
{
    let body = upd.skip(1);
    let slot = le_nat(body.subrange(0, 32));
    crate::field::lemma_le_nat_bound(body.subrange(0, 32));
    lemma_adjacent_keys_distinct(slot);
}

/// Lock monotonicity at the staging phase: a locked slot makes the exec
/// phase reject with the domain error, whatever the rest of the call says.
pub proof fn lemma_stage_rejects_locked(m: Map<Seq<u8>, Seq<u8>>, ix: Seq<u8>)
    requires
        parse_set_call(ix) is Ok,
        locked_in(m, parsed_slot(parse_set_call(ix)->Ok_0)),
    ensures
        stage_spec(Some(m), ix) == Err::<Seq<u8>, ContractError>(ContractError::SlotLocked),
{
}

/// Lock monotonicity across a commit: once an update with the lock flag set
/// commits, every later staging attempt for the same slot is rejected with
/// the domain error.
pub proof fn lemma_locked_commit_blocks_stage(
    m: Map<Seq<u8>, Seq<u8>>,
    upd: Seq<u8>,
    ix: Seq<u8>,
)
    requires
        apply_spec(Some(m), upd) is Ok,
        upd.skip(1)[32] != 0,
        parse_set_call(ix) is Ok,
        parsed_slot(parse_set_call(ix)->Ok_0) == le_nat(upd.skip(1).subrange(0, 32)),
    ensures
        stage_spec(Some(apply_spec(Some(m), upd)->Ok_0), ix) == Err::<Seq<u8>, ContractError>(
            ContractError::SlotLocked,
        ),
{
    lemma_apply_two_writes(m, upd);
    let m2 = apply_spec(Some(m), upd)->Ok_0;
    let slot = le_nat(upd.skip(1).subrange(0, 32));
    assert(m2[slot_key(slot)] == seq![1u8]);
    assert(locked_in(m2, slot));
    lemma_stage_rejects_locked(m2, ix);
}

/// First write wins for contended claims: after a commit for a slot, a later
/// staging attempt for the same slot succeeds — and so overwrites — exactly
/// when the committed update left the slot unlocked.  Together with
/// `lemma_root_claims_share_slot` this covers two root-namespace claims to
/// the same key from different callers.
pub proof fn lemma_first_write_wins(m: Map<Seq<u8>, Seq<u8>>, upd: Seq<u8>, ix: Seq<u8>)
    requires
        apply_spec(Some(m), upd) is Ok,
        parse_set_call(ix) is Ok,
        parsed_slot(parse_set_call(ix)->Ok_0) == le_nat(upd.skip(1).subrange(0, 32)),
    ensures
        upd.skip(1)[32] == 0 ==> stage_spec(Some(apply_spec(Some(m), upd)->Ok_0), ix) == Ok::<
            Seq<u8>,
            ContractError,
        >(staged_update_bytes(parse_set_call(ix)->Ok_0)),
        upd.skip(1)[32] != 0 ==> stage_spec(Some(apply_spec(Some(m), upd)->Ok_0), ix) == Err::<
            Seq<u8>,
            ContractError,
        >(ContractError::SlotLocked),
{
    lemma_apply_two_writes(m, upd);
    let m2 = apply_spec(Some(m), upd)->Ok_0;
    let slot = le_nat(upd.skip(1).subrange(0, 32));
    if upd.skip(1)[32] == 0 {
        assert(m2[slot_key(slot)] == seq![0u8]);
        assert(!locked_in(m2, slot));
    } else {
        lemma_locked_commit_blocks_stage(m, upd, ix);
    }
}

/// Round-trip encoding of `SetParamsV1`: the wire bytes of a well-formed
/// value are a valid encoding, and decoding them recovers every field.
pub proof fn lemma_params_round_trip(p: SetParamsV1)
    requires
        p.wf(),
    ensures
        valid_params_encoding(params_bytes(p)),
        params_bytes(p).subrange(0, 32) == p.car.repr(),
        params_bytes(p).subrange(32, 64) == p.account.repr(),
        params_bytes(p).subrange(64, 96) == p.key.repr(),
        params_bytes(p).subrange(96, 128) == p.value.repr(),
        (params_bytes(p)[128] != 0) == p.lock,
{
    let s = params_bytes(p);
    assert(s.subrange(0, 32) =~= p.car.repr());
    assert(s.subrange(32, 64) =~= p.account.repr());
    assert(s.subrange(64, 96) =~= p.key.repr());
    assert(s.subrange(96, 128) =~= p.value.repr());
    assert(s[128] == bool_byte(p.lock));
}

/// Round-trip encoding of `SetUpdateV1`: the wire bytes of a well-formed
/// value are a valid encoding, and decoding them recovers every field.
pub proof fn lemma_update_round_trip(u: SetUpdateV1)
    requires
        u.wf(),
    ensures
        valid_update_encoding(update_body_bytes(u)),
        update_body_bytes(u).subrange(0, 32) == u.slot.repr(),
        (update_body_bytes(u)[32] != 0) == u.lock,
        update_body_bytes(u).subrange(33, 65) == u.value.repr(),
{
    let s = update_body_bytes(u);
    assert(s.subrange(0, 32) =~= u.slot.repr());
    assert(s.subrange(33, 65) =~= u.value.repr());
    assert(s[32] == bool_byte(u.lock));
}

/// The update staged by the exec phase is itself a decodable update whose
/// slot is the parsed claim's slot: what exec hands out, apply accepts.
pub proof fn lemma_staged_update_decodes(p: ParsedSet)
    requires
        parsed_slot(p) < field_modulus(),
        p.value_bytes.len() == 32,
        le_nat(p.value_bytes) < field_modulus(),
    ensures
        staged_update_bytes(p).len() == 66,
        staged_update_bytes(p)[0] == SET_OPCODE,
        valid_update_encoding(staged_update_bytes(p).skip(1)),
        le_nat(staged_update_bytes(p).skip(1).subrange(0, 32)) == parsed_slot(p),
        staged_update_bytes(p).skip(1)[32] == bool_byte(p.lock),
        staged_update_bytes(p).skip(1).subrange(33, 65) == p.value_bytes,
{
    let s = staged_update_bytes(p);
    let body = s.skip(1);
    lemma_modulus_below_pow256_32();
    crate::field::lemma_le_bytes_len(parsed_slot(p), 32);
    assert(body.subrange(0, 32) =~= slot_key(parsed_slot(p)));
    assert(body.subrange(33, 65) =~= p.value_bytes);
    lemma_le_nat_of_le_bytes(parsed_slot(p), 32);
}

} // verus!
