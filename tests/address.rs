use sn_interface::address::{
    ChunkAddress, DataAddress, Error, RegisterAddress, ReplicatedDataAddress,
};
use sn_interface::name::XorName;
use sn_interface::zbase32;
use std::cmp::Ordering;

fn last_bit_name() -> XorName {
    let mut bytes = [0u8; 32];
    bytes[31] = 1;
    XorName(bytes)
}

fn sample_name(seed: u8) -> XorName {
    let mut bytes = [0u8; 32];
    for (i, b) in bytes.iter_mut().enumerate() {
        *b = seed.wrapping_mul(31).wrapping_add(i as u8);
    }
    XorName(bytes)
}

#[test]
fn zbase32_encode_decode_chunk_address() -> Result<(), Error> {
    let name: xor_name::XorName = xor_name::rand::random();
    let address = DataAddress::Bytes(XorName(name.0));
    let encoded = address.encode_to_zbase32()?;
    let decoded = DataAddress::decode_from_zbase32(&encoded)?;
    assert_eq!(address, decoded);
    Ok(())
}

#[test]
fn zbase32_known_texts() {
    assert_eq!(zbase32::encode(b"hello"), "pb1sa5dx");
    assert_eq!(zbase32::encode(&[0xf0]), "6y");
    assert_eq!(zbase32::encode(&[]), "");
    assert_eq!(zbase32::encode(&[0u8; 5]), "yyyyyyyy");
    assert_eq!(zbase32::encode(&[0xffu8; 5]), "99999999");
}

#[test]
fn zbase32_decodes_known_texts() {
    assert_eq!(zbase32::decode("pb1sa5dx"), Some(b"hello".to_vec()));
    assert_eq!(zbase32::decode("6y"), Some(vec![0xf0]));
    assert_eq!(zbase32::decode(""), Some(vec![]));
}

#[test]
fn zbase32_rejects_bad_texts() {
    // A symbol outside the alphabet.
    assert_eq!(zbase32::decode("pb1sa5dl"), None);
    assert_eq!(zbase32::decode("pb1sa5d\u{e9}"), None);
    // A length that no byte string encodes to.
    assert_eq!(zbase32::decode("y"), None);
    assert_eq!(zbase32::decode("yyy"), None);
    assert_eq!(zbase32::decode("yyyyyy"), None);
    // Padding bits that are not zero.
    assert_eq!(zbase32::decode("6b"), None);
}

#[test]
fn data_address_round_trip_all_variants() {
    for seed in [0u8, 1, 7, 200, 255] {
        let n = sample_name(seed);
        for address in [
            DataAddress::safe_key(n),
            DataAddress::bytes(n),
            DataAddress::register(n, 0),
            DataAddress::register(n, 7),
            DataAddress::register(n, u64::MAX),
        ] {
            let text = address.encode_to_zbase32().unwrap();
            assert_eq!(DataAddress::decode_from_zbase32(&text), Ok(address));
        }
    }
}

#[test]
fn chunk_address_round_trip() {
    for seed in [0u8, 3, 128, 255] {
        let c = ChunkAddress(sample_name(seed));
        let text = c.encode_to_zbase32().unwrap();
        assert_eq!(text.len(), 52);
        assert_eq!(ChunkAddress::decode_from_zbase32(&text), Ok(c));
    }
    let c = ChunkAddress(last_bit_name());
    assert_eq!(
        c.encode_to_zbase32().unwrap(),
        "yyyyyyyyyyyyyyyyyyyyyyyyyyyyyyyyyyyyyyyyyyyyyyyyyyyo"
    );
}

#[test]
fn variants_are_distinct() {
    let n = sample_name(9);
    let b = DataAddress::bytes(n);
    let s = DataAddress::safe_key(n);
    let r = DataAddress::register(n, 3);
    assert_ne!(b, s);
    assert_ne!(b, r);
    assert_ne!(s, r);
    assert_ne!(b.encode_to_zbase32(), s.encode_to_zbase32());
}

#[test]
fn tag_distinguishes_registers() {
    let n = sample_name(4);
    assert_ne!(DataAddress::register(n, 1), DataAddress::register(n, 2));
    assert_ne!(
        DataAddress::register(n, 1).encode_to_zbase32(),
        DataAddress::register(n, 2).encode_to_zbase32()
    );
}

#[test]
fn name_projection() {
    let n = sample_name(5);
    for tag in [0u64, 1, 42, u64::MAX] {
        assert_eq!(DataAddress::register(n, tag).name(), &n);
    }
    assert_eq!(DataAddress::bytes(n).name(), &n);
    assert_eq!(DataAddress::safe_key(n).name(), &n);
    assert_eq!(ChunkAddress(n).name(), &n);
    assert_eq!(RegisterAddress::new(n, 8).name(), &n);
    assert_eq!(RegisterAddress::new(n, 8).tag(), 8);
}

#[test]
fn decode_rejects_foreign_symbols() {
    let text = DataAddress::bytes(sample_name(1)).encode_to_zbase32().unwrap();
    let mut bad: Vec<char> = text.chars().collect();
    bad[10] = 'l';
    let bad: String = bad.into_iter().collect();
    assert_eq!(DataAddress::decode_from_zbase32(&bad), Err(Error::FailedToParse));
    assert_eq!(ChunkAddress::decode_from_zbase32("0"), Err(Error::FailedToParse));
    assert_eq!(DataAddress::decode_from_zbase32("!@#$"), Err(Error::FailedToParse));
}

#[test]
fn decode_rejects_truncation() {
    let text = DataAddress::register(sample_name(2), 99).encode_to_zbase32().unwrap();
    for k in 0..text.len() {
        assert_eq!(
            DataAddress::decode_from_zbase32(&text[..k]),
            Err(Error::FailedToParse)
        );
    }
    let text = DataAddress::bytes(sample_name(2)).encode_to_zbase32().unwrap();
    assert_eq!(
        DataAddress::decode_from_zbase32(&text[..text.len() - 1]),
        Err(Error::FailedToParse)
    );
    assert_eq!(DataAddress::decode_from_zbase32(""), Err(Error::FailedToParse));
}

#[test]
fn decode_rejects_unknown_variant() {
    let mut bytes = vec![3u8, 0, 0, 0];
    bytes.extend_from_slice(&[0u8; 32]);
    let text = zbase32::encode(&bytes);
    assert_eq!(DataAddress::decode_from_zbase32(&text), Err(Error::FailedToParse));
    assert_eq!(DataAddress::from_bytes(&bytes), None);
}

#[test]
fn binary_form_layout() {
    let n = last_bit_name();
    let bytes = DataAddress::register(n, 7).to_bytes();
    let mut expected = vec![2u8, 0, 0, 0];
    expected.extend_from_slice(&n.0);
    expected.extend_from_slice(&[7, 0, 0, 0, 0, 0, 0, 0]);
    assert_eq!(bytes, expected);
    assert_eq!(DataAddress::from_bytes(&bytes), Some(DataAddress::register(n, 7)));
    assert_eq!(ChunkAddress(n).to_bytes(), n.0.to_vec());
}

#[test]
fn replicated_address_copy() {
    let n = sample_name(6);
    let chunk = ReplicatedDataAddress::Chunk(ChunkAddress(n));
    let copy = chunk.to_replicated_address();
    assert_eq!(copy, chunk);
    assert!(!std::ptr::eq(&copy, &chunk));
    assert_eq!(copy.name(), &n);
    let reg = ReplicatedDataAddress::Register(RegisterAddress::new(n, 11));
    let copy = reg.to_replicated_address();
    assert_eq!(copy, reg);
    assert_eq!(copy.name(), &n);
    assert_ne!(copy, chunk);
}

#[test]
fn register_scenario_last_bit_tag_seven() {
    let n = last_bit_name();
    let address = DataAddress::register(n, 7);
    let text = address.encode_to_zbase32().unwrap();
    assert_eq!(
        text,
        "yeyyyyyyyyyyyyyyyyyyyyyyyyyyyyyyyyyyyyyyyyyyyyyyyyyyyyyyyrdoyyyyyyyyyyy"
    );
    let decoded = DataAddress::decode_from_zbase32(&text).unwrap();
    assert_eq!(decoded, DataAddress::Register(RegisterAddress::new(n, 7)));
    let bytes_text = DataAddress::bytes(n).encode_to_zbase32().unwrap();
    assert_eq!(
        bytes_text,
        "yryyyyyyyyyyyyyyyyyyyyyyyyyyyyyyyyyyyyyyyyyyyyyyyyyyyyyyyr"
    );
    assert_ne!(text, bytes_text);
    assert_eq!(
        DataAddress::safe_key(n).encode_to_zbase32().unwrap(),
        "yyyyyyyyyyyyyyyyyyyyyyyyyyyyyyyyyyyyyyyyyyyyyyyyyyyyyyyyyr"
    );
}

#[test]
fn largest_values_round_trip() {
    let n = XorName([0xff; 32]);
    let address = DataAddress::register(n, u64::MAX);
    let text = address.encode_to_zbase32().unwrap();
    assert_eq!(
        text,
        "yeyyyy8999999999999999999999999999999999999999999999999999999999999999a"
    );
    assert_eq!(DataAddress::decode_from_zbase32(&text), Ok(address));
}

fn ordering_samples() -> Vec<DataAddress> {
    let mut out = Vec::new();
    for seed in [0u8, 1, 250] {
        let n = sample_name(seed);
        out.push(DataAddress::safe_key(n));
        out.push(DataAddress::bytes(n));
        out.push(DataAddress::register(n, 0));
        out.push(DataAddress::register(n, 5));
    }
    out.push(DataAddress::bytes(XorName([0xff; 32])));
    out.push(DataAddress::safe_key(XorName([0; 32])));
    out
}

#[test]
fn ordering_is_total_and_consistent() {
    let samples = ordering_samples();
    for a in &samples {
        for b in &samples {
            let ab = a.partial_cmp(b).unwrap();
            let ba = b.partial_cmp(a).unwrap();
            assert_eq!(ab, ba.reverse());
            assert_eq!(ab == Ordering::Equal, a == b);
            assert_eq!(ab, a.cmp(b));
            let count = [a < b, a == b, a > b].iter().filter(|x| **x).count();
            assert_eq!(count, 1);
            for c in &samples {
                if a < b && b < c {
                    assert!(a < c);
                }
            }
        }
    }
}

#[test]
fn ordering_by_variant_then_payload() {
    let n = sample_name(3);
    let high = XorName([0xff; 32]);
    let low = XorName([0; 32]);
    assert!(DataAddress::safe_key(high) < DataAddress::bytes(low));
    assert!(DataAddress::bytes(high) < DataAddress::register(low, 0));
    assert!(DataAddress::register(n, 1) < DataAddress::register(n, 2));
    assert!(DataAddress::register(low, u64::MAX) < DataAddress::register(high, 0));
    let mut a = [0u8; 32];
    a[0] = 1;
    let mut b = [0u8; 32];
    b[31] = 9;
    assert!(XorName(a) > XorName(b));
    assert!(ChunkAddress(XorName(b)) < ChunkAddress(XorName(a)));
    assert!(
        ReplicatedDataAddress::Chunk(ChunkAddress(high))
            < ReplicatedDataAddress::Register(RegisterAddress::new(low, 0))
    );
    let mut sorted = ordering_samples();
    sorted.sort();
    for w in sorted.windows(2) {
        assert!(w[0] <= w[1]);
    }
}
