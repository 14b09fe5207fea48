use cql::meta::{ColType, ColTypeOption};
use cql::types::{Blob, ColMap, ColValue, DecodeError, IpAddr, Uuid};

fn key(value: ColValue) -> String {
    match value.as_map_key() {
        Ok(text) => text,
        Err(e) => panic!("no key: {:?}", e),
    }
}

fn decoded(id: ColType, bytes: &[u8]) -> ColValue {
    match ColValue::try_decode(&ColTypeOption { id, value: None }, &Some(bytes.to_vec())) {
        Some(Ok(value)) => value,
        other => panic!("no value: {:?}", other),
    }
}

#[test]
fn texts_are_their_own_keys() {
    assert_eq!(key(ColValue::String("a b".to_string())), "a b");
    assert_eq!(key(ColValue::String(String::new())), "");
}

#[test]
fn numbers_as_keys() {
    assert_eq!(key(ColValue::Int(0)), "0");
    assert_eq!(key(ColValue::Int(-120)), "-120");
    assert_eq!(key(ColValue::Int(i64::MIN)), "-9223372036854775808");
    assert_eq!(key(ColValue::Int(i64::MAX)), "9223372036854775807");
}

#[test]
fn booleans_as_keys() {
    assert_eq!(key(ColValue::Boolean(true)), "true");
    assert_eq!(key(ColValue::Boolean(false)), "false");
}

#[test]
fn doubles_as_keys() {
    assert_eq!(key(ColValue::Double(1.5f64.to_bits())), "1.5");
    assert_eq!(key(ColValue::Double((-0.25f64).to_bits())), "-0.25");
    assert_eq!(key(ColValue::Double(3f64.to_bits())), "3");
    assert_eq!(key(ColValue::Double(f64::NAN.to_bits())), "NaN");
    assert_eq!(key(ColValue::Double(f64::INFINITY.to_bits())), "inf");
    assert_eq!(key(decoded(ColType::Float, &0.1f32.to_be_bytes())), "0.10000000149011612");
}

#[test]
fn dates_and_times_as_keys() {
    assert_eq!(key(decoded(ColType::Date, &18_321i32.to_be_bytes())), "2020-02-29");
    assert_eq!(key(decoded(ColType::Time, &1_500_000_000i64.to_be_bytes())), "00:00:01.500");
    assert_eq!(
        key(decoded(ColType::Timestamp, &1_600_000_000_000i64.to_be_bytes())),
        "2020-09-13 12:26:40 UTC"
    );
}

#[test]
fn addresses_as_keys() {
    assert_eq!(key(ColValue::Inet(IpAddr::V4([192, 168, 0, 1]))), "192.168.0.1");
    let mut octets = [0u8; 16];
    octets[15] = 1;
    assert_eq!(key(ColValue::Inet(IpAddr::V6(octets))), "::1");
    octets[0] = 0x20;
    octets[1] = 0x01;
    assert_eq!(key(ColValue::Inet(IpAddr::V6(octets))), "2001::1");
}

#[test]
fn identifiers_as_keys() {
    let uuid = Uuid { uuid: [0xab; 16] };
    assert_eq!(key(ColValue::Uuid(uuid)), "abababab-abab-abab-abab-abababababab");
}

#[test]
fn hyphens_are_in_their_places() {
    let text = Uuid { uuid: [0x0f; 16] }.to_hyphenated_string();
    assert_eq!(text.len(), 36);
    for (i, c) in text.chars().enumerate() {
        assert_eq!(c == '-', i == 8 || i == 13 || i == 18 || i == 23);
    }
}

#[test]
fn bytes_as_keys() {
    assert_eq!(key(ColValue::Blob(Blob { bytes: vec![0xde, 0xad, 0x01] })), "DEAD01");
}

#[test]
fn keys_of_one_kind_are_written_apart() {
    let mut seen: Vec<String> = Vec::new();
    for n in -150i64..150 {
        seen.push(key(ColValue::Int(n)));
    }
    for i in 0..seen.len() {
        for j in 0..i {
            assert_ne!(seen[i], seen[j]);
        }
    }
    let a = key(ColValue::Inet(IpAddr::V4([1, 11, 1, 1])));
    let b = key(ColValue::Inet(IpAddr::V4([11, 1, 1, 1])));
    assert_ne!(a, b);
}

#[test]
fn nulls_sequences_and_maps_are_no_keys() {
    let values = vec![
        ColValue::Null,
        ColValue::SeqOf(Vec::new()),
        ColValue::MapOf(ColMap::new()),
    ];
    for value in values {
        match value.as_map_key() {
            Err(DecodeError::General(message)) => assert_eq!(message, "Unexpected map key type"),
            other => panic!("a key: {:?}", other),
        }
    }
}

#[test]
fn names_are_kept_once() {
    let mut map = ColMap::new();
    assert!(map.get(&"a".to_string()).is_none());
    map.insert("a".to_string(), ColValue::Int(1));
    map.insert("b".to_string(), ColValue::Int(2));
    map.insert("a".to_string(), ColValue::Int(3));
    assert!(matches!(map.get(&"a".to_string()), Some(ColValue::Int(3))));
    assert!(matches!(map.get(&"b".to_string()), Some(ColValue::Int(2))));
    assert!(map.get(&"c".to_string()).is_none());
    let names: Vec<String> = map.into_entries().into_iter().map(|(name, _)| name).collect();
    assert_eq!(names, vec!["a".to_string(), "b".to_string()]);
}
