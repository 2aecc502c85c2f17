use contract_events::compact::{decode_compact, encode_compact, le_bytes_vec};
use contract_events::cursor::ByteCursor;
use contract_events::decode::decode_value;
use contract_events::error::DecodeError;
use contract_events::registry::{CaseDef, FieldDef, PrimType, TypeDef, TypeRegistry};
use contract_events::value::Value;

fn reg_with(defs: Vec<TypeDef>) -> TypeRegistry {
    let mut reg = TypeRegistry::new();
    for td in defs {
        assert!(reg.register(td).is_some());
    }
    reg
}

fn compact_round_trip(v: u128) {
    let enc = encode_compact(v);
    let mut c = ByteCursor::new(enc.clone());
    let got = decode_compact(&mut c).unwrap();
    assert_eq!(got, v);
    assert_eq!(c.remaining(), 0);
}

#[test]
fn compact_round_trips_at_mode_boundaries() {
    for v in [
        0u128,
        1,
        63,
        64,
        16383,
        16384,
        0x3fff_ffff,
        0x4000_0000,
        u64::MAX as u128,
        u128::MAX,
    ] {
        compact_round_trip(v);
    }
}

#[test]
fn compact_decode_consumes_exactly_the_encoding() {
    for v in [0u128, 63, 64, 16383, 16384, 0x4000_0000, u128::MAX] {
        let enc = encode_compact(v);
        let n = enc.len();
        let mut padded = enc;
        padded.push(0xee);
        padded.push(0xff);
        let mut c = ByteCursor::new(padded);
        assert_eq!(decode_compact(&mut c).unwrap(), v);
        assert_eq!(c.remaining(), 2, "exactly {} bytes must be consumed", n);
    }
}

#[test]
fn compact_length_over_sixteen_bytes_is_refused() {
    // Tag 3 with a length field of 17.
    let mut c = ByteCursor::new(vec![(13 << 2) | 3]);
    assert_eq!(decode_compact(&mut c), Err(DecodeError::CompactTooLarge));
}

#[test]
fn uint_decode_then_reencode_is_identity() {
    let reg = reg_with(vec![TypeDef::Primitive(PrimType::UInt(32))]);
    let bytes = vec![0x78, 0x56, 0x34, 0x12];
    let mut c = ByteCursor::new(bytes.clone());
    let v = decode_value(&mut c, 0, &reg).unwrap();
    assert_eq!(v, Value::UInt(0x12345678));
    assert_eq!(c.remaining(), 0);
    // Re-encode the decoded magnitude at the same width.
    assert_eq!(le_bytes_vec(0x12345678, 4), bytes);
}

#[test]
fn uint_widths_decode_little_endian() {
    let reg = reg_with(vec![
        TypeDef::Primitive(PrimType::UInt(8)),
        TypeDef::Primitive(PrimType::UInt(64)),
        TypeDef::Primitive(PrimType::UInt(128)),
    ]);
    let mut c = ByteCursor::new(vec![0x2a]);
    assert_eq!(decode_value(&mut c, 0, &reg).unwrap(), Value::UInt(42));
    let mut c = ByteCursor::new(vec![1, 0, 0, 0, 0, 0, 0, 0]);
    assert_eq!(decode_value(&mut c, 1, &reg).unwrap(), Value::UInt(1));
    let mut c = ByteCursor::new(vec![0xff; 16]);
    assert_eq!(decode_value(&mut c, 2, &reg).unwrap(), Value::UInt(u128::MAX));
}

#[test]
fn int_decode_sign_extends() {
    let reg = reg_with(vec![
        TypeDef::Primitive(PrimType::Int(8)),
        TypeDef::Primitive(PrimType::Int(16)),
        TypeDef::Primitive(PrimType::Int(128)),
    ]);
    let mut c = ByteCursor::new(vec![0xff]);
    assert_eq!(decode_value(&mut c, 0, &reg).unwrap(), Value::Int(-1));
    let mut c = ByteCursor::new(vec![0x00, 0x80]);
    assert_eq!(decode_value(&mut c, 1, &reg).unwrap(), Value::Int(-32768));
    let mut c = ByteCursor::new(vec![0x7f]);
    assert_eq!(decode_value(&mut c, 0, &reg).unwrap(), Value::Int(127));
    let mut c = ByteCursor::new(vec![0xff; 16]);
    assert_eq!(decode_value(&mut c, 2, &reg).unwrap(), Value::Int(-1));
}

#[test]
fn bool_decode_accepts_only_zero_and_one() {
    let reg = reg_with(vec![TypeDef::Primitive(PrimType::Bool)]);
    let mut c = ByteCursor::new(vec![0]);
    assert_eq!(decode_value(&mut c, 0, &reg).unwrap(), Value::Bool(false));
    let mut c = ByteCursor::new(vec![1]);
    assert_eq!(decode_value(&mut c, 0, &reg).unwrap(), Value::Bool(true));
    let mut c = ByteCursor::new(vec![2]);
    assert_eq!(decode_value(&mut c, 0, &reg), Err(DecodeError::InvalidBool));
}

#[test]
fn string_decode_checks_utf8() {
    let reg = reg_with(vec![TypeDef::Primitive(PrimType::Str)]);
    // Compact length 3, then "abc".
    let mut c = ByteCursor::new(vec![3 << 2, b'a', b'b', b'c']);
    assert_eq!(
        decode_value(&mut c, 0, &reg).unwrap(),
        Value::Str(String::from("abc"))
    );
    assert_eq!(c.remaining(), 0);
    // Compact length 1, then an invalid UTF-8 byte.
    let mut c = ByteCursor::new(vec![1 << 2, 0xff]);
    assert_eq!(decode_value(&mut c, 0, &reg), Err(DecodeError::InvalidString));
}

#[test]
fn char_decode_checks_scalar_range() {
    let reg = reg_with(vec![TypeDef::Primitive(PrimType::Char)]);
    let mut c = ByteCursor::new(vec![0x41, 0, 0, 0]);
    assert_eq!(decode_value(&mut c, 0, &reg).unwrap(), Value::Char('A'));
    // 0xD800 is a surrogate, not a scalar value.
    let mut c = ByteCursor::new(vec![0x00, 0xd8, 0, 0]);
    assert_eq!(decode_value(&mut c, 0, &reg), Err(DecodeError::InvalidString));
}

#[test]
fn bytes_decode_is_length_prefixed() {
    let reg = reg_with(vec![TypeDef::Primitive(PrimType::Bytes)]);
    let mut c = ByteCursor::new(vec![2 << 2, 0xde, 0xad, 0x99]);
    assert_eq!(
        decode_value(&mut c, 0, &reg).unwrap(),
        Value::Bytes(vec![0xde, 0xad])
    );
    assert_eq!(c.remaining(), 1);
}

#[test]
fn sequence_decode_reads_compact_count() {
    let reg = reg_with(vec![
        TypeDef::Primitive(PrimType::UInt(8)),
        TypeDef::Sequence(0),
    ]);
    let mut c = ByteCursor::new(vec![3 << 2, 5, 6, 7]);
    assert_eq!(
        decode_value(&mut c, 1, &reg).unwrap(),
        Value::List(vec![Value::UInt(5), Value::UInt(6), Value::UInt(7)])
    );
    assert_eq!(c.remaining(), 0);
}

#[test]
fn tuple_decode_in_order_and_empty_is_unit() {
    let reg = reg_with(vec![
        TypeDef::Primitive(PrimType::UInt(8)),
        TypeDef::Primitive(PrimType::UInt(16)),
        TypeDef::Tuple(vec![0, 1]),
        TypeDef::Tuple(vec![]),
    ]);
    let mut c = ByteCursor::new(vec![9, 0x34, 0x12]);
    assert_eq!(
        decode_value(&mut c, 2, &reg).unwrap(),
        Value::Tuple(vec![Value::UInt(9), Value::UInt(0x1234)])
    );
    let mut c = ByteCursor::new(vec![]);
    assert_eq!(decode_value(&mut c, 3, &reg).unwrap(), Value::Unit);
}

#[test]
fn composite_names_unnamed_fields_positionally() {
    // Three fields: unnamed, named "x", unnamed: the unnamed ones must be
    // called "0" and "1" in declaration order, whatever lies between.
    let reg = reg_with(vec![
        TypeDef::Primitive(PrimType::UInt(8)),
        TypeDef::Composite(vec![
            FieldDef { name: None, ty: 0 },
            FieldDef { name: Some(String::from("x")), ty: 0 },
            FieldDef { name: None, ty: 0 },
        ]),
    ]);
    let mut c = ByteCursor::new(vec![10, 11, 12]);
    assert_eq!(
        decode_value(&mut c, 1, &reg).unwrap(),
        Value::Composite(vec![
            (String::from("0"), Value::UInt(10)),
            (String::from("x"), Value::UInt(11)),
            (String::from("1"), Value::UInt(12)),
        ])
    );
}

#[test]
fn variant_decode_picks_case_by_discriminant() {
    let reg = reg_with(vec![
        TypeDef::Primitive(PrimType::UInt(8)),
        TypeDef::Variant(vec![
            CaseDef { disc: 0, name: String::from("A"), fields: vec![] },
            CaseDef {
                disc: 7,
                name: String::from("B"),
                fields: vec![FieldDef { name: Some(String::from("v")), ty: 0 }],
            },
        ]),
    ]);
    let mut c = ByteCursor::new(vec![7, 99]);
    assert_eq!(
        decode_value(&mut c, 1, &reg).unwrap(),
        Value::Variant(
            String::from("B"),
            vec![(String::from("v"), Value::UInt(99))]
        )
    );
}

#[test]
fn unknown_discriminant_is_never_a_silent_case() {
    let reg = reg_with(vec![
        TypeDef::Primitive(PrimType::UInt(8)),
        TypeDef::Variant(vec![
            CaseDef { disc: 0, name: String::from("A"), fields: vec![] },
            CaseDef { disc: 1, name: String::from("B"), fields: vec![] },
        ]),
    ]);
    for d in [2u8, 5, 255] {
        let mut c = ByteCursor::new(vec![d]);
        assert_eq!(
            decode_value(&mut c, 1, &reg),
            Err(DecodeError::UnknownVariant)
        );
    }
}

#[test]
fn unresolved_type_id_fails() {
    let reg = reg_with(vec![TypeDef::Primitive(PrimType::UInt(8))]);
    let mut c = ByteCursor::new(vec![1]);
    assert_eq!(decode_value(&mut c, 5, &reg), Err(DecodeError::UnknownType));
}

#[test]
fn short_payload_reports_end_of_input() {
    let reg = reg_with(vec![TypeDef::Primitive(PrimType::UInt(32))]);
    let mut c = ByteCursor::new(vec![1, 2]);
    assert_eq!(
        decode_value(&mut c, 0, &reg),
        Err(DecodeError::UnexpectedEndOfInput)
    );
}

#[test]
fn registry_refuses_forward_references() {
    let mut reg = TypeRegistry::new();
    // A sequence of a type that is not registered yet.
    assert!(reg.register(TypeDef::Sequence(0)).is_none());
    assert_eq!(reg.register(TypeDef::Primitive(PrimType::UInt(8))), Some(0));
    assert_eq!(reg.register(TypeDef::Sequence(0)), Some(1));
    // A primitive width that is not whole bytes up to 128 bits.
    assert!(reg.register(TypeDef::Primitive(PrimType::UInt(12))).is_none());
}

#[test]
fn compact_value_decodes_as_uint() {
    let reg = reg_with(vec![
        TypeDef::Primitive(PrimType::UInt(32)),
        TypeDef::Compact(0),
    ]);
    let enc = encode_compact(1_000_000);
    let mut c = ByteCursor::new(enc);
    assert_eq!(decode_value(&mut c, 1, &reg).unwrap(), Value::UInt(1_000_000));
}
