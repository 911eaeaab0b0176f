use jsruntime::{ObjectPointer, StringPointer, Value, ValueType};

#[test]
fn test() {
    assert_eq!(std::mem::size_of::<Value>(), 8);
    assert_eq!(std::mem::size_of::<ValueType>(), 8);
}

fn type_of(bits: u64) -> ValueType<'static> {
    Value::from_bits(bits).get_type()
}

#[test]
fn plain_floats_are_floats() {
    // 0.0, 1.0, the canonical quiet NaN and +infinity carry no tag.
    for bits in [0u64, 0x3FF0_0000_0000_0000, 0x7FF8_0000_0000_0000, 0x7FF0_0000_0000_0000] {
        assert!(matches!(type_of(bits), ValueType::Float));
    }
    // Just below and just above the tag range.
    assert!(matches!(type_of(0xFFEF_FFFF_FFFF_FFFF), ValueType::Float));
    assert!(matches!(type_of(0xFFFA_0000_0000_0000), ValueType::Float));
    assert!(matches!(type_of(u64::MAX), ValueType::Float));
}

#[test]
fn tagged_values() {
    assert!(matches!(type_of(0xFFF0_0000_0000_0000), ValueType::FloatNaN));
    assert!(matches!(type_of(0xFFF2_0000_0000_0000), ValueType::Null));
    assert!(matches!(type_of(0xFFF3_1234_0000_0001), ValueType::Undefined));
    assert!(matches!(type_of(0xFFF5_0000_0000_0000), ValueType::Boolean(true)));
    assert!(matches!(type_of(0xFFF6_0000_0000_0000), ValueType::Boolean(false)));
}

#[test]
fn payloads_are_the_low_32_bits() {
    match type_of(0xFFF1_ABCD_0000_002A) {
        ValueType::Object(p) => assert_eq!(p.index(), 42),
        _ => panic!("expected an object"),
    }
    match type_of(0xFFF4_0000_DEAD_BEEF) {
        ValueType::String(p) => assert_eq!(p.index(), 0xDEAD_BEEF),
        _ => panic!("expected a string"),
    }
    match type_of(0xFFF8_0000_0000_0007) {
        ValueType::StringReference(p) => assert_eq!(p.index(), 7),
        _ => panic!("expected a string reference"),
    }
    match type_of(0xFFF9_0001_0000_0003) {
        ValueType::NumberReference(n) => assert_eq!(n, 3),
        _ => panic!("expected a number reference"),
    }
}

#[test]
fn local_carries_its_tag() {
    match type_of(0xFFF7_0000_0000_0005) {
        ValueType::Local(n) => assert_eq!(n, 0xFFF7),
        _ => panic!("expected a local"),
    }
}

#[test]
fn box_roundtrip() {
    for payload in [0u32, 1, 0x8000_0000, u32::MAX] {
        let bits = (0xFFF1u64 << 48) | payload as u64;
        match type_of(bits) {
            ValueType::Object(p) => assert_eq!(p.index(), payload),
            _ => panic!("expected an object"),
        }
        let bits = (0xFFF9u64 << 48) | payload as u64;
        match type_of(bits) {
            ValueType::NumberReference(n) => assert_eq!(n, payload),
            _ => panic!("expected a number reference"),
        }
    }
}

#[test]
fn bits_give_back_the_pattern() {
    assert_eq!(Value::from_bits(0x1234_5678_9ABC_DEF0).bits(), 0x1234_5678_9ABC_DEF0);
    assert_eq!(ObjectPointer::new(9).index(), 9);
    assert_eq!(StringPointer::new(11).index(), 11);
}

#[test]
fn middle_bits_do_not_matter() {
    for middle in [0u64, 0x1234, 0xFFFF] {
        let bits = (0xFFF4u64 << 48) | (middle << 32) | 17;
        match type_of(bits) {
            ValueType::String(p) => assert_eq!(p.index(), 17),
            _ => panic!("expected a string"),
        }
        assert!(matches!(type_of((0xFFF2u64 << 48) | (middle << 32)), ValueType::Null));
    }
}
