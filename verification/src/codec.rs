//! The wire format.
//!
//! Every structure the host threads between phases has a fixed, invertible
//! byte encoding: integers are little-endian, lengths are minimal variable
//! width integers, field elements are their canonical 32-byte representation
//! and booleans are one byte, written as 0 or 1 and read as "non-zero".

use vstd::prelude::*;

use crate::error::ContractError;
use crate::field::{
    copy_range, field_modulus, le_bytes, le_bytes_exec, le_nat, lemma_le_nat_bound,
    lemma_pow256_monotone, pow256, Fp,
};
use crate::model::{ContractCall, SetParamsV1, SetUpdateV1};

verus! {

/// The byte that encodes a boolean.
pub open spec fn bool_byte(b: bool) -> u8 {
    if b {
        1u8
    } else {
        0u8
    }
}

/// The minimal variable-width encoding of a length or count.
pub open spec fn varint_bytes(n: nat) -> Seq<u8> {
    if n <= 0xfc {
        seq![n as u8]
    } else if n <= 0xffff {
        seq![0xfdu8] + le_bytes(n, 2)
    } else if n <= 0xffffffff {
        seq![0xfeu8] + le_bytes(n, 4)
    } else {
        seq![0xffu8] + le_bytes(n, 8)
    }
}

/// Decode a variable-width integer at the front of `s`: the value and the
/// number of bytes consumed, or nothing if the bytes are short or not
/// minimal.
pub open spec fn spec_decode_varint(s: Seq<u8>) -> Option<(nat, nat)> {
    if s.len() == 0 {
        None
    } else if s[0] <= 0xfc {
        Some(((s[0] as nat), 1))
    } else if s[0] == 0xfd {
        if s.len() >= 3 && le_nat(s.subrange(1, 3)) > 0xfc {
            Some((le_nat(s.subrange(1, 3)), 3))
        } else {
            None
        }
    } else if s[0] == 0xfe {
        if s.len() >= 5 && le_nat(s.subrange(1, 5)) > 0xffff {
            Some((le_nat(s.subrange(1, 5)), 5))
        } else {
            None
        }
    } else {
        if s.len() >= 9 && le_nat(s.subrange(1, 9)) > 0xffffffff {
            Some((le_nat(s.subrange(1, 9)), 9))
        } else {
            None
        }
    }
}

/// Read the little-endian value of the `k` bytes of `d` starting at `at`.
pub fn read_le_u64(d: &Vec<u8>, at: usize, k: usize) -> (r: u64)
    requires
        at + k <= d.len(),
        k <= 8,
    ensures
        r as nat == le_nat(d@.subrange(at as int, at + k)),
    decreases k,
{
    proof {
        lemma_le_nat_bound(d@.subrange(at as int, at + k));
        lemma_pow256_monotone(k as nat, 8);
        assert(pow256(8) == 0x10000000000000000) by {
            reveal_with_fuel(pow256, 9);
        }
    }
    if k == 0 {
        assert(d@.subrange(at as int, at as int) =~= Seq::<u8>::empty());
        0
    } else {
        let rest = read_le_u64(d, at + 1, k - 1);
        proof {
            let s = d@.subrange(at as int, at + k);
            assert(s.drop_first() =~= d@.subrange(at + 1 as int, at + 1 + (k - 1)));
            lemma_le_nat_bound(s.drop_first());
            lemma_pow256_monotone((k - 1) as nat, 7);
            assert(pow256(7) == 0x100000000000000) by {
                reveal_with_fuel(pow256, 8);
            }
            assert(256 * (rest as nat) <= 256 * (pow256(7) - 1)) by (nonlinear_arith)
                requires
                    rest as nat <= pow256(7) - 1,
            ;
        }
        d[at] as u64 + 256 * rest
    }
}

/// Decode a variable-width integer of `d` starting at `at`; on success the
/// value and the position just past it.
pub fn decode_varint(d: &Vec<u8>, at: usize) -> (r: Result<(u64, usize), ContractError>)
    requires
        at <= d.len(),
    ensures
        match r {
            Ok((v, np)) => {
                &&& spec_decode_varint(d@.skip(at as int)) == Some((v as nat, (np - at) as nat))
                &&& at < np <= d.len()
            },
            Err(e) => {
                &&& e == ContractError::DecodeFailed
                &&& spec_decode_varint(d@.skip(at as int)) is None
            },
        },
{
    let ghost s = d@.skip(at as int);
    if at == d.len() {
        return Err(ContractError::DecodeFailed);
    }
    let tag = d[at];
    proof {
        assert(s[0] == d@[at as int]);
    }
    if tag <= 0xfc {
        Ok((tag as u64, at + 1))
    } else if tag == 0xfd {
        if d.len() - at < 3 {
            return Err(ContractError::DecodeFailed);
        }
        let v = read_le_u64(d, at + 1, 2);
        proof {
            assert(s.subrange(1, 3) =~= d@.subrange(at + 1 as int, at + 3));
        }
        if v <= 0xfc {
            return Err(ContractError::DecodeFailed);
        }
        Ok((v, at + 3))
    } else if tag == 0xfe {
        if d.len() - at < 5 {
            return Err(ContractError::DecodeFailed);
        }
        let v = read_le_u64(d, at + 1, 4);
        proof {
            assert(s.subrange(1, 5) =~= d@.subrange(at + 1 as int, at + 5));
        }
        if v <= 0xffff {
            return Err(ContractError::DecodeFailed);
        }
        Ok((v, at + 5))
    } else {
        if d.len() - at < 9 {
            return Err(ContractError::DecodeFailed);
        }
        let v = read_le_u64(d, at + 1, 8);
        proof {
            assert(s.subrange(1, 9) =~= d@.subrange(at + 1 as int, at + 9));
        }
        if v <= 0xffffffff {
            return Err(ContractError::DecodeFailed);
        }
        Ok((v, at + 9))
    }
}

/// Append the minimal variable-width encoding of `n` to `out`.
pub fn encode_varint(out: &mut Vec<u8>, n: u64)
    ensures
        final(out)@ == old(out)@ + varint_bytes(n as nat),
{
    if n <= 0xfc {
        out.push(n as u8);
        proof {
            assert(out@ =~= old(out)@ + varint_bytes(n as nat));
        }
    } else if n <= 0xffff {
        out.push(0xfd);
        let mut tail = le_bytes_exec(n, 2);
        out.append(&mut tail);
        proof {
            assert(out@ =~= old(out)@ + varint_bytes(n as nat));
        }
    } else if n <= 0xffffffff {
        out.push(0xfe);
        let mut tail = le_bytes_exec(n, 4);
        out.append(&mut tail);
        proof {
            assert(out@ =~= old(out)@ + varint_bytes(n as nat));
        }
    } else {
        out.push(0xff);
        let mut tail = le_bytes_exec(n, 8);
        out.append(&mut tail);
        proof {
            assert(out@ =~= old(out)@ + varint_bytes(n as nat));
        }
    }
}

/// The wire encoding of `SetParamsV1`: the four field elements in order,
/// then the lock byte.
pub open spec fn params_bytes(p: SetParamsV1) -> Seq<u8> {
    p.car.repr() + p.account.repr() + p.key.repr() + p.value.repr() + seq![bool_byte(p.lock)]
}

/// The byte strings that decode as `SetParamsV1`.
pub open spec fn valid_params_encoding(s: Seq<u8>) -> bool {
    &&& s.len() == 129
    &&& le_nat(s.subrange(0, 32)) < field_modulus()
    &&& le_nat(s.subrange(32, 64)) < field_modulus()
    &&& le_nat(s.subrange(64, 96)) < field_modulus()
    &&& le_nat(s.subrange(96, 128)) < field_modulus()
}

/// Decode the bytes of `d` from `at` to the end as `SetParamsV1`.
pub fn decode_set_params(d: &Vec<u8>, at: usize) -> (r: Result<SetParamsV1, ContractError>)
    requires
        at <= d.len(),
    ensures
        match r {
            Ok(p) => {
                let s = d@.skip(at as int);
                &&& valid_params_encoding(s)
                &&& p.wf()
                &&& p.car.repr() == s.subrange(0, 32)
                &&& p.account.repr() == s.subrange(32, 64)
                &&& p.key.repr() == s.subrange(64, 96)
                &&& p.value.repr() == s.subrange(96, 128)
                &&& p.lock == (s[128] != 0)
            },
            Err(e) => {
                &&& e == ContractError::DecodeFailed
                &&& !valid_params_encoding(d@.skip(at as int))
            },
        },
{
    let ghost s = d@.skip(at as int);
    if d.len() - at != 129 {
        return Err(ContractError::DecodeFailed);
    }
    proof {
        assert(s.subrange(0, 32) =~= d@.subrange(at as int, at + 32));
        assert(s.subrange(32, 64) =~= d@.subrange(at + 32, at + 64));
        assert(s.subrange(64, 96) =~= d@.subrange(at + 64, at + 96));
        assert(s.subrange(96, 128) =~= d@.subrange(at + 96, at + 128));
        assert(s[128] == d@[at + 128]);
    }
    let car = match Fp::from_bytes(copy_range(d, at, at + 32)) {
        Some(f) => f,
        None => {
            return Err(ContractError::DecodeFailed);
        },
    };
    let account = match Fp::from_bytes(copy_range(d, at + 32, at + 64)) {
        Some(f) => f,
        None => {
            return Err(ContractError::DecodeFailed);
        },
    };
    let key = match Fp::from_bytes(copy_range(d, at + 64, at + 96)) {
        Some(f) => f,
        None => {
            return Err(ContractError::DecodeFailed);
        },
    };
    let value = match Fp::from_bytes(copy_range(d, at + 96, at + 128)) {
        Some(f) => f,
        None => {
            return Err(ContractError::DecodeFailed);
        },
    };
    let lock = d[at + 128] != 0;
    Ok(SetParamsV1 { car, account, key, value, lock })
}

/// Encode `SetParamsV1` to its wire bytes.
pub fn encode_set_params(p: &SetParamsV1) -> (r: Vec<u8>)
    ensures
        r@ == params_bytes(*p),
{
    let mut out = p.car.to_bytes();
    let mut account = p.account.to_bytes();
    out.append(&mut account);
    let mut key = p.key.to_bytes();
    out.append(&mut key);
    let mut value = p.value.to_bytes();
    out.append(&mut value);
    if p.lock {
        out.push(1);
    } else {
        out.push(0);
    }
    proof {
        assert(out@ =~= params_bytes(*p));
    }
    out
}

/// The wire encoding of `SetUpdateV1` (without the opcode prefix): the slot,
/// the lock byte, the value.
pub open spec fn update_body_bytes(u: SetUpdateV1) -> Seq<u8> {
    u.slot.repr() + seq![bool_byte(u.lock)] + u.value.repr()
}

/// The byte strings that decode as `SetUpdateV1`.
pub open spec fn valid_update_encoding(s: Seq<u8>) -> bool {
    &&& s.len() == 65
    &&& le_nat(s.subrange(0, 32)) < field_modulus()
    &&& le_nat(s.subrange(33, 65)) < field_modulus()
}

/// Decode the bytes of `d` from `at` to the end as `SetUpdateV1`.
pub fn decode_set_update(d: &Vec<u8>, at: usize) -> (r: Result<SetUpdateV1, ContractError>)
    requires
        at <= d.len(),
    ensures
        match r {
            Ok(u) => {
                let s = d@.skip(at as int);
                &&& valid_update_encoding(s)
                &&& u.wf()
                &&& u.slot.repr() == s.subrange(0, 32)
                &&& u.lock == (s[32] != 0)
                &&& u.value.repr() == s.subrange(33, 65)
            },
            Err(e) => {
                &&& e == ContractError::DecodeFailed
                &&& !valid_update_encoding(d@.skip(at as int))
            },
        },
{
    let ghost s = d@.skip(at as int);
    if d.len() - at != 65 {
        return Err(ContractError::DecodeFailed);
    }
    proof {
        assert(s.subrange(0, 32) =~= d@.subrange(at as int, at + 32));
        assert(s.subrange(33, 65) =~= d@.subrange(at + 33, at + 65));
        assert(s[32] == d@[at + 32]);
    }
    let slot = match Fp::from_bytes(copy_range(d, at, at + 32)) {
        Some(f) => f,
        None => {
            return Err(ContractError::DecodeFailed);
        },
    };
    let lock = d[at + 32] != 0;
    let value = match Fp::from_bytes(copy_range(d, at + 33, at + 65)) {
        Some(f) => f,
        None => {
            return Err(ContractError::DecodeFailed);
        },
    };
    Ok(SetUpdateV1 { slot, lock, value })
}

/// Encode `SetUpdateV1` to its wire bytes (without the opcode prefix).
pub fn encode_set_update(u: &SetUpdateV1) -> (r: Vec<u8>)
    ensures
        r@ == update_body_bytes(*u),
{
    let mut out = u.slot.to_bytes();
    if u.lock {
        out.push(1);
    } else {
        out.push(0);
    }
    let mut value = u.value.to_bytes();
    out.append(&mut value);
    proof {
        assert(out@ =~= update_body_bytes(*u));
    }
    out
}

/// The spec-level content of a decoded call: its contract identity bytes and
/// its opcode-prefixed payload.
pub open spec fn call_rep(c: ContractCall) -> (Seq<u8>, Seq<u8>) {
    (c.contract_id.repr(), c.data@)
}

/// Decode one call at the front of `s`: its content and the bytes consumed.
pub open spec fn spec_decode_call(s: Seq<u8>) -> Option<((Seq<u8>, Seq<u8>), nat)> {
    if s.len() < 32 {
        None
    } else if le_nat(s.subrange(0, 32)) >= field_modulus() {
        None
    } else {
        match spec_decode_varint(s.skip(32)) {
            None => None,
            Some((n, c)) => if 32 + c + n <= s.len() {
                Some(((s.subrange(0, 32), s.subrange((32 + c) as int, (32 + c + n) as int)), (32 + c + n) as nat))
            } else {
                None
            },
        }
    }
}

/// Decode exactly `k` calls at the front of `s`.
pub open spec fn spec_decode_calls(s: Seq<u8>, k: nat) -> Option<(Seq<(Seq<u8>, Seq<u8>)>, nat)>
    decreases k,
{
    if k == 0 {
        Some((Seq::empty(), 0))
    } else {
        match spec_decode_call(s) {
            None => None,
            Some((cr, c)) => match spec_decode_calls(s.skip(c as int), (k - 1) as nat) {
                None => None,
                Some((rest, c2)) => Some((seq![cr] + rest, (c + c2) as nat)),
            },
        }
    }
}

/// Decode a whole exec/metadata payload: the call index and the call batch.
/// Every byte must be consumed.
pub open spec fn spec_decode_payload(s: Seq<u8>) -> Option<(nat, Seq<(Seq<u8>, Seq<u8>)>)> {
    if s.len() < 4 {
        None
    } else {
        match spec_decode_varint(s.skip(4)) {
            None => None,
            Some((k, c)) => match spec_decode_calls(s.skip((4 + c) as int), k) {
                None => None,
                Some((rs, c2)) => if 4 + c + c2 == s.len() {
                    Some((le_nat(s.subrange(0, 4)), rs))
                } else {
                    None
                },
            },
        }
    }
}

/// The decoded calls carry exactly the spec-level contents.
pub open spec fn calls_match(cs: Seq<ContractCall>, rs: Seq<(Seq<u8>, Seq<u8>)>) -> bool {
    &&& cs.len() == rs.len()
    &&& forall|i: int| 0 <= i < cs.len() ==> (#[trigger] cs[i]).contract_id.wf() && call_rep(
        cs[i],
    ) == rs[i]
}

/// Decode one call of `d` starting at `at`; on success also the position
/// just past it.
pub fn decode_call(d: &Vec<u8>, at: usize) -> (r: Result<(ContractCall, usize), ContractError>)
    requires
        at <= d.len(),
    ensures
        match r {
            Ok((c, np)) => {
                &&& spec_decode_call(d@.skip(at as int)) == Some((call_rep(c), (np - at) as nat))
                &&& c.contract_id.wf()
                &&& at < np <= d.len()
            },
            Err(e) => {
                &&& e == ContractError::DecodeFailed
                &&& spec_decode_call(d@.skip(at as int)) is None
            },
        },
{
    let ghost s = d@.skip(at as int);
    if d.len() - at < 32 {
        return Err(ContractError::DecodeFailed);
    }
    proof {
        assert(s.subrange(0, 32) =~= d@.subrange(at as int, at + 32));
    }
    let contract_id = match Fp::from_bytes(copy_range(d, at, at + 32)) {
        Some(f) => f,
        None => {
            return Err(ContractError::DecodeFailed);
        },
    };
    proof {
        assert(s.skip(32) =~= d@.skip(at + 32));
    }
    let (n, p1) = match decode_varint(d, at + 32) {
        Ok(v) => v,
        Err(e) => {
            return Err(e);
        },
    };
    if n > (d.len() - p1) as u64 {
        return Err(ContractError::DecodeFailed);
    }
    let data = copy_range(d, p1, p1 + n as usize);
    proof {
        assert(s.subrange(32 + (p1 - (at + 32)), 32 + (p1 - (at + 32)) + n) =~= d@.subrange(
            p1 as int,
            p1 + n,
        ));
    }
    Ok((ContractCall { contract_id, data }, p1 + n as usize))
}

/// Decode exactly `k` calls of `d` starting at `at`.
pub fn decode_calls(d: &Vec<u8>, at: usize, k: u64) -> (r: Result<
    (Vec<ContractCall>, usize),
    ContractError,
>)
    requires
        at <= d.len(),
    ensures
        match r {
            Ok((cs, np)) => match spec_decode_calls(d@.skip(at as int), k as nat) {
                Some((rs, c)) => calls_match(cs@, rs) && np - at == c && at <= np <= d.len(),
                None => false,
            },
            Err(e) => {
                &&& e == ContractError::DecodeFailed
                &&& spec_decode_calls(d@.skip(at as int), k as nat) is None
            },
        },
    decreases k,
{
    if k == 0 {
        let cs: Vec<ContractCall> = Vec::new();
        return Ok((cs, at));
    }
    let (c0, p1) = match decode_call(d, at) {
        Ok(v) => v,
        Err(e) => {
            return Err(e);
        },
    };
    proof {
        assert(d@.skip(at as int).skip((p1 - at) as int) =~= d@.skip(p1 as int));
    }
    let (mut rest, p2) = match decode_calls(d, p1, k - 1) {
        Ok(v) => v,
        Err(e) => {
            return Err(e);
        },
    };
    let ghost rest0 = rest@;
    rest.insert(0, c0);
    proof {
        assert(rest@ =~= seq![c0] + rest0);
        let rs0 = (spec_decode_calls(d@.skip(p1 as int), (k - 1) as nat)->0).0;
        assert(calls_match(rest@, seq![call_rep(c0)] + rs0)) by {
            assert(forall|i: int| 1 <= i < rest@.len() ==> rest@[i] == rest0[i - 1]);
        }
    }
    Ok((rest, p2))
}

/// Decode a whole exec/metadata payload of `d`: the call index and the call
/// batch, failing unless every byte is consumed.
pub fn decode_payload(d: &Vec<u8>) -> (r: Result<(u32, Vec<ContractCall>), ContractError>)
    ensures
        match r {
            Ok((idx, cs)) => match spec_decode_payload(d@) {
                Some((i, rs)) => i == idx as nat && calls_match(cs@, rs),
                None => false,
            },
            Err(e) => {
                &&& e == ContractError::DecodeFailed
                &&& spec_decode_payload(d@) is None
            },
        },
{
    if d.len() < 4 {
        return Err(ContractError::DecodeFailed);
    }
    let idx64 = read_le_u64(d, 0, 4);
    proof {
        lemma_le_nat_bound(d@.subrange(0, 4));
        assert(pow256(4) == 0x100000000) by {
            reveal_with_fuel(pow256, 5);
        }
    }
    let idx = idx64 as u32;
    let (k, p1) = match decode_varint(d, 4) {
        Ok(v) => v,
        Err(e) => {
            return Err(e);
        },
    };
    proof {
        assert(d@.skip(0) =~= d@);
        assert(d@.skip(4 + (p1 - 4) as int) =~= d@.skip(p1 as int));
    }
    let (calls, p2) = match decode_calls(d, p1, k) {
        Ok(v) => v,
        Err(e) => {
            return Err(e);
        },
    };
    if p2 != d.len() {
        return Err(ContractError::DecodeFailed);
    }
    Ok((idx, calls))
}

/// The wire encoding of one call.
pub open spec fn call_bytes(c: ContractCall) -> Seq<u8> {
    c.contract_id.repr() + varint_bytes(c.data@.len()) + c.data@
}

/// The concatenated wire encodings of a call batch.
pub open spec fn calls_bytes(cs: Seq<ContractCall>) -> Seq<u8>
    decreases cs.len(),
{
    if cs.len() == 0 {
        Seq::empty()
    } else {
        calls_bytes(cs.drop_last()) + call_bytes(cs.last())
    }
}

/// The wire encoding of a whole exec/metadata payload.
pub open spec fn payload_bytes(idx: nat, cs: Seq<ContractCall>) -> Seq<u8> {
    le_bytes(idx, 4) + varint_bytes(cs.len()) + calls_bytes(cs)
}

/// Append the wire encoding of one call to `out`.
pub fn encode_call(out: &mut Vec<u8>, c: &ContractCall)
    ensures
        final(out)@ == old(out)@ + call_bytes(*c),
{
    let mut cid = c.contract_id.to_bytes();
    out.append(&mut cid);
    encode_varint(out, c.data.len() as u64);
    let mut data = copy_range(&c.data, 0, c.data.len());
    proof {
        assert(c.data@.subrange(0, c.data@.len() as int) =~= c.data@);
    }
    out.append(&mut data);
    proof {
        assert(out@ =~= old(out)@ + call_bytes(*c));
    }
}

/// Encode a call index and a call batch as one payload.
pub fn encode_payload(call_idx: u32, calls: &Vec<ContractCall>) -> (r: Vec<u8>)
    ensures
        r@ == payload_bytes(call_idx as nat, calls@),
{
    let mut out = le_bytes_exec(call_idx as u64, 4);
    encode_varint(&mut out, calls.len() as u64);
    let n = calls.len();
    let mut i: usize = 0;
    while i < n
        invariant
            i <= n,
            n == calls.len(),
            out@ == le_bytes(call_idx as nat, 4) + varint_bytes(calls@.len()) + calls_bytes(
                calls@.take(i as int),
            ),
        decreases n - i,
    {
        encode_call(&mut out, &calls[i]);
        proof {
            assert(calls@.take(i + 1).drop_last() =~= calls@.take(i as int));
            assert(calls@.take(i + 1).last() == calls@[i as int]);
            assert(out@ =~= le_bytes(call_idx as nat, 4) + varint_bytes(calls@.len())
                + calls_bytes(calls@.take(i + 1)));
        }
        i = i + 1;
    }
    proof {
        assert(calls@.take(n as int) =~= calls@);
    }
    out
}

} // verus!
