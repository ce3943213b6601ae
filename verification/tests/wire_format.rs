//! The wire format round-trips and matches the serialization the host uses.

use map_contract::codec::{
    decode_payload, decode_set_params, decode_set_update, encode_payload, encode_set_params,
    encode_set_update, encode_varint,
};
use map_contract::error::ContractError;
use map_contract::field::Fp;
use map_contract::model::{ContractCall, SetParamsV1, SetUpdateV1};

fn fp(x: u64) -> Fp {
    Fp::from_u64(x)
}

fn sample_params() -> SetParamsV1 {
    SetParamsV1 {
        car: fp(1),
        account: fp(0),
        key: fp(5),
        value: fp(42),
        lock: true,
    }
}

#[test]
fn params_round_trip() {
    let p = sample_params();
    let bytes = encode_set_params(&p);
    assert_eq!(bytes.len(), 129);
    let decoded = decode_set_params(&bytes, 0).expect("round trip must decode");
    assert_eq!(decoded, p);
}

#[test]
fn params_round_trip_unlocked() {
    let mut p = sample_params();
    p.lock = false;
    p.car = fp(7);
    let bytes = encode_set_params(&p);
    let decoded = decode_set_params(&bytes, 0).expect("round trip must decode");
    assert_eq!(decoded, p);
}

#[test]
fn update_round_trip() {
    let u = SetUpdateV1 {
        slot: fp(9),
        lock: false,
        value: fp(3),
    };
    let bytes = encode_set_update(&u);
    assert_eq!(bytes.len(), 65);
    let decoded = decode_set_update(&bytes, 0).expect("round trip must decode");
    assert_eq!(decoded, u);
}

#[test]
fn params_reject_noncanonical_field() {
    // 32 bytes of 0xff exceed the field modulus: not a canonical encoding.
    let bytes = vec![0xffu8; 129];
    assert_eq!(
        decode_set_params(&bytes, 0),
        Err(ContractError::DecodeFailed)
    );
}

#[test]
fn params_reject_wrong_length() {
    let bytes = vec![0u8; 128];
    assert_eq!(
        decode_set_params(&bytes, 0),
        Err(ContractError::DecodeFailed)
    );
    let bytes = vec![0u8; 130];
    assert_eq!(
        decode_set_params(&bytes, 0),
        Err(ContractError::DecodeFailed)
    );
}

#[test]
fn update_reject_noncanonical_value() {
    let mut bytes = encode_set_update(&SetUpdateV1 {
        slot: fp(9),
        lock: false,
        value: fp(3),
    });
    for b in bytes.iter_mut().skip(33) {
        *b = 0xff;
    }
    assert_eq!(
        decode_set_update(&bytes, 0),
        Err(ContractError::DecodeFailed)
    );
}

#[test]
fn field_from_bytes_checks_canonicity() {
    assert!(Fp::from_bytes(vec![0u8; 32]).is_some());
    assert!(Fp::from_bytes(vec![0xffu8; 32]).is_none());
    assert!(Fp::from_bytes(vec![0u8; 31]).is_none());
    let two = fp(2);
    assert_eq!(Fp::from_bytes(two.to_bytes()), Some(two));
}

#[test]
fn varint_matches_reference_serializer() {
    for n in [
        0u64,
        1,
        0xfc,
        0xfd,
        0xffff,
        0x10000,
        0xffffffff,
        0x100000000,
        u64::MAX,
    ] {
        let mut ours: Vec<u8> = Vec::new();
        encode_varint(&mut ours, n);
        let reference = darkfi_serial::serialize(&darkfi_serial::VarInt(n));
        assert_eq!(ours, reference, "varint encoding of {n}");
    }
}

#[test]
fn payload_matches_reference_serializer() {
    let call = ContractCall {
        contract_id: fp(77),
        data: vec![0u8, 1, 2, 3],
    };
    let ours = encode_payload(1, &vec![call.clone()]);

    let mut cid = [0u8; 32];
    cid.copy_from_slice(&fp(77).to_bytes());
    let reference: Vec<u8> =
        darkfi_serial::serialize(&(1u32, vec![(cid, vec![0u8, 1, 2, 3])]));
    assert_eq!(ours, reference);

    let (idx, calls) = decode_payload(&ours).expect("payload must decode");
    assert_eq!(idx, 1);
    assert_eq!(calls, vec![call]);
}

#[test]
fn payload_rejects_trailing_bytes() {
    let call = ContractCall {
        contract_id: fp(77),
        data: vec![0u8],
    };
    let mut bytes = encode_payload(0, &vec![call]);
    bytes.push(0);
    assert_eq!(decode_payload(&bytes), Err(ContractError::DecodeFailed));
}

#[test]
fn payload_rejects_non_minimal_varint() {
    let call = ContractCall {
        contract_id: fp(77),
        data: vec![0u8],
    };
    let bytes = encode_payload(0, &vec![call]);
    // Replace the one-byte count with a wider, non-minimal form of 1.
    let mut tampered = bytes[..4].to_vec();
    tampered.extend_from_slice(&[0xfd, 1, 0]);
    tampered.extend_from_slice(&bytes[5..]);
    assert_eq!(decode_payload(&tampered), Err(ContractError::DecodeFailed));
}
