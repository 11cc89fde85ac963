use registry::value::{decode, encode, u16_to_u8_vec, Error, Type, TryIntoTypeError};
use registry::{Data, WideString};

fn wide(s: &str) -> WideString {
    WideString::from_str(s).unwrap()
}

fn utf16_bytes(s: &str) -> Vec<u8> {
    s.encode_utf16().flat_map(|u| u.to_le_bytes()).collect()
}

#[test]
fn scalar_round_trip() {
    for v in [0u32, 1, 0x1234FEFE, u32::MAX] {
        let (tag, bytes) = encode(&Data::U32(v));
        assert_eq!(tag, 4);
        assert_eq!(decode(tag, bytes).unwrap(), Data::U32(v));
        let (tag, bytes) = encode(&Data::U32BE(v));
        assert_eq!(tag, 5);
        assert_eq!(decode(tag, bytes).unwrap(), Data::U32BE(v));
    }
    for v in [0u64, 0x1234FEFE_1234FEFE, u64::MAX] {
        let (tag, bytes) = encode(&Data::U64(v));
        assert_eq!(tag, 11);
        assert_eq!(decode(tag, bytes).unwrap(), Data::U64(v));
    }
}

#[test]
fn text_round_trip() {
    for s in ["Meow meow", "", "caf\u{e9}", "\u{1F600} emoji", "x"] {
        let (tag, bytes) = encode(&Data::String(wide(s)));
        assert_eq!(tag, 1);
        assert_eq!(decode(tag, bytes).unwrap(), Data::String(wide(s)));
        let (tag, bytes) = encode(&Data::ExpandString(wide(s)));
        assert_eq!(tag, 2);
        assert_eq!(decode(tag, bytes).unwrap(), Data::ExpandString(wide(s)));
    }
}

#[test]
fn multi_string_round_trip() {
    let lists: Vec<Vec<&str>> = vec![
        vec!["Meow meow", "Woop woop"],
        vec![],
        vec!["a", ""],
        vec!["", "b", ""],
        vec!["same", "same"],
        vec!["\u{1F600}"],
    ];
    for list in lists {
        let data = Data::MultiString(list.iter().map(|s| wide(s)).collect());
        let (tag, bytes) = encode(&data);
        assert_eq!(tag, 7);
        assert_eq!(decode(tag, bytes).unwrap(), data);
    }
}

#[test]
fn multi_string_single_empty_entry_reads_as_empty_list() {
    let (_, bytes) = encode(&Data::MultiString(vec![wide("")]));
    assert_eq!(bytes, vec![0, 0, 0, 0]);
    assert_eq!(decode(7, bytes).unwrap(), Data::MultiString(vec![]));
}

#[test]
fn endianness_distinction() {
    assert_eq!(encode(&Data::U32(0x1234FEFE)).1, vec![0xFE, 0xFE, 0x34, 0x12]);
    assert_eq!(encode(&Data::U32BE(0x1234FEFE)).1, vec![0x12, 0x34, 0xFE, 0xFE]);
    assert_eq!(
        encode(&Data::U64(0x1234FEFE_1234FEFE)).1,
        vec![0xFE, 0xFE, 0x34, 0x12, 0xFE, 0xFE, 0x34, 0x12]
    );
    assert_eq!(decode(4, vec![0xFE, 0xFE, 0x34, 0x12, 0x99]).unwrap(), Data::U32(0x1234FEFE));
    assert_eq!(decode(5, vec![0x12, 0x34, 0xFE, 0xFE]).unwrap(), Data::U32BE(0x1234FEFE));
}

#[test]
fn multi_string_termination() {
    let data = Data::MultiString(vec![wide("a"), wide("b")]);
    let bytes = data.to_bytes();
    assert_eq!(bytes, vec![0x61, 0, 0, 0, 0x62, 0, 0, 0, 0, 0]);
    assert_eq!(bytes.len(), 10);
    assert_eq!(Data::MultiString(vec![]).to_bytes(), vec![0, 0, 0, 0]);
}

#[test]
fn string_encoding() {
    assert_eq!(Data::String(wide("ab")).to_bytes(), vec![0x61, 0, 0x62, 0, 0, 0]);
    assert_eq!(Data::String(wide("")).to_bytes(), vec![0, 0]);
    assert_eq!(
        Data::String(wide("\u{1F600}")).to_bytes(),
        vec![0x3D, 0xD8, 0x00, 0xDE, 0, 0]
    );
}

#[test]
fn payload_free_types_encode_empty() {
    for (data, tag) in [
        (Data::Untyped, 0u32),
        (Data::Link, 6),
        (Data::ResourceList, 8),
        (Data::FullResourceDescriptor, 9),
        (Data::ResourceRequirementsList, 10),
    ] {
        let (t, bytes) = encode(&data);
        assert_eq!(t, tag);
        assert!(bytes.is_empty());
        assert_eq!(decode(tag, vec![1, 2, 3]).unwrap(), data);
    }
}

#[test]
fn malformed_tag_rejection() {
    assert_eq!(decode(12, vec![1, 2, 3, 4]), Err(Error::UnhandledType(12)));
    assert_eq!(decode(0xFFFFFFFF, vec![]), Err(Error::UnhandledType(0xFFFFFFFF)));
}

#[test]
fn truncated_numeric_rejection() {
    assert_eq!(decode(4, vec![0x01, 0x02]), Err(Error::BufferTooShort(2)));
    assert_eq!(decode(5, vec![]), Err(Error::BufferTooShort(0)));
    assert_eq!(decode(11, vec![1, 2, 3, 4, 5, 6, 7]), Err(Error::BufferTooShort(7)));
}

#[test]
fn missing_terminator_rejection() {
    assert_eq!(decode(1, utf16_bytes("abc")), Err(Error::MissingNul));
    assert_eq!(decode(2, utf16_bytes("abc")), Err(Error::MissingNul));
    assert_eq!(decode(1, vec![]), Err(Error::MissingNul));
}

#[test]
fn odd_text_buffer_rejected() {
    assert_eq!(decode(1, vec![0x61, 0, 0]), Err(Error::InvalidBufferSize(3)));
    assert_eq!(decode(7, vec![0, 0, 0, 0, 0]), Err(Error::InvalidBufferSize(5)));
}

#[test]
fn invalid_utf16_rejected() {
    assert_eq!(decode(1, vec![0x00, 0xD8, 0, 0]), Err(Error::InvalidUtf16));
    assert_eq!(
        decode(7, vec![0x61, 0, 0, 0, 0x00, 0xDC, 0, 0, 0, 0]),
        Err(Error::InvalidUtf16)
    );
}

#[test]
fn missing_double_nul_rejected() {
    assert_eq!(decode(7, vec![0x61, 0, 0, 0]), Err(Error::MissingMultiNul));
    assert_eq!(decode(7, vec![0, 0]), Err(Error::MissingMultiNul));
    assert_eq!(decode(7, vec![]), Err(Error::MissingMultiNul));
}

#[test]
fn string_reads_up_to_first_nul() {
    let mut bytes = utf16_bytes("ab");
    bytes.extend_from_slice(&[0, 0, 0x63, 0, 0, 0]);
    assert_eq!(decode(1, bytes).unwrap(), Data::String(wide("ab")));
}

#[test]
fn binary_passthrough() {
    for buf in [vec![], vec![0u8, 0, 0], vec![1, 2, 3, 4, 255], vec![0, 0x61, 0]] {
        assert_eq!(decode(3, buf.clone()).unwrap(), Data::Binary(buf.clone()));
        assert_eq!(encode(&Data::Binary(buf.clone())), (3, buf));
    }
}

#[test]
fn decode_is_deterministic() {
    let inputs: Vec<(u32, Vec<u8>)> = vec![
        (1, utf16_bytes("abc\0")),
        (7, vec![0x61, 0, 0, 0, 0, 0]),
        (4, vec![1, 2]),
        (12, vec![]),
        (3, vec![9, 8, 7]),
    ];
    for (tag, buf) in inputs {
        assert_eq!(decode(tag, buf.clone()), decode(tag, buf));
    }
}

#[test]
fn type_tags() {
    assert_eq!(Type::try_from(0), Ok(Type::Untyped));
    assert_eq!(Type::try_from(7), Ok(Type::MultiString));
    assert_eq!(Type::try_from(11), Ok(Type::U64));
    assert_eq!(Type::try_from(12), Err(TryIntoTypeError(12)));
    assert_eq!(Type::U32BE.to_u32(), 5);
    assert_eq!(Data::MultiString(vec![]).as_type(), Type::MultiString);
    assert_eq!(Data::U64(3).as_type(), Type::U64);
}

#[test]
fn units_to_bytes() {
    assert_eq!(u16_to_u8_vec(vec![0x0201, 0xFFEE]), vec![0x01, 0x02, 0xEE, 0xFF]);
    assert_eq!(u16_to_u8_vec(vec![]), Vec::<u8>::new());
}

#[test]
fn text_must_end_in_nul() {
    assert_eq!(decode(1, vec![0x61, 0, 0, 0, 0x62, 0]), Err(Error::MissingNul));
    assert_eq!(decode(2, vec![0, 0, 0x62, 0]), Err(Error::MissingNul));
    assert_eq!(decode(1, vec![0x61, 0, 0, 0]).unwrap(), Data::String(wide("a")));
}
