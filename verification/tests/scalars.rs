use cql::calendar::{is_date, is_datetime, is_time, to_date, to_datetime, to_time};
use cql::floating::widen;
use cql::meta::{ColType, ColTypeOption};
use cql::types::{ColValue, DecodeError, IpAddr};

fn decoded(id: ColType, bytes: &[u8]) -> Option<Result<ColValue, DecodeError>> {
    ColValue::try_decode(&ColTypeOption { id, value: None }, &Some(bytes.to_vec()))
}

fn value(id: ColType, bytes: &[u8]) -> ColValue {
    match decoded(id, bytes) {
        Some(Ok(value)) => value,
        other => panic!("no value: {:?}", other),
    }
}

fn whole(id: ColType, bytes: &[u8]) -> i64 {
    match value(id, bytes) {
        ColValue::Int(n) => n,
        other => panic!("not a number: {:?}", other),
    }
}

fn double(id: ColType, bytes: &[u8]) -> f64 {
    match value(id, bytes) {
        ColValue::Double(bits) => f64::from_bits(bits),
        other => panic!("not a double: {:?}", other),
    }
}

fn text(id: ColType, bytes: &[u8]) -> String {
    match value(id, bytes) {
        ColValue::String(text) => text,
        other => panic!("not text: {:?}", other),
    }
}

fn fails_with_io(id: ColType, bytes: &[u8]) -> bool {
    matches!(decoded(id, bytes), Some(Err(DecodeError::Io(_))))
}

#[test]
fn test_col_value_size() {
    assert_eq!(64, std::mem::size_of::<ColValue>());
}

#[test]
fn absent_cells_are_null() {
    let ids = [ColType::Varchar, ColType::Int, ColType::List, ColType::Uuid, ColType::Udt];
    for id in ids {
        let t = ColTypeOption { id, value: None };
        assert!(ColValue::is_decodable(&t, &None));
        assert!(matches!(ColValue::decode(&t, &None), Ok(ColValue::Null)));
    }
}

#[test]
fn text_columns() {
    for id in [ColType::Varchar, ColType::Ascii, ColType::Custom] {
        assert_eq!(text(id, "na\u{ef}ve \u{1F600}".as_bytes()), "na\u{ef}ve \u{1F600}");
        assert_eq!(text(id, b""), "");
        assert_eq!(text(id, &[b'a', 0xff, b'b']), "a\u{FFFD}b");
    }
}

#[test]
fn tinyint_columns() {
    assert_eq!(whole(ColType::Tinyint, &[0x7f]), 127);
    assert_eq!(whole(ColType::Tinyint, &[0x80]), -128);
    assert_eq!(whole(ColType::Tinyint, &[0xff, 0x01]), -1);
    assert!(decoded(ColType::Tinyint, &[]).is_none());
}

#[test]
fn smallint_columns() {
    assert_eq!(whole(ColType::Smallint, &[0x01, 0x02]), 258);
    assert_eq!(whole(ColType::Smallint, &[0xff, 0xfe]), -2);
    assert_eq!(whole(ColType::Smallint, &[0xff]), 255);
    assert_eq!(whole(ColType::Smallint, &[0x01, 0x00, 0x03]), 3);
    assert!(decoded(ColType::Smallint, &[]).is_none());
    assert!(decoded(ColType::Smallint, &[0; 9]).is_none());
}

#[test]
fn int_columns() {
    assert_eq!(whole(ColType::Int, &i32::MIN.to_be_bytes()), -2_147_483_648);
    assert_eq!(whole(ColType::Int, &123_456i32.to_be_bytes()), 123_456);
    assert!(decoded(ColType::Int, &[]).is_none());
    assert!(decoded(ColType::Int, &[0; 9]).is_none());
}

#[test]
fn bigint_and_counter_columns() {
    for id in [ColType::Bigint, ColType::Counter] {
        assert_eq!(whole(id, &i64::MIN.to_be_bytes()), i64::MIN);
        assert_eq!(whole(id, &i64::MAX.to_be_bytes()), i64::MAX);
        assert_eq!(whole(id, &[0xff, 0xff]), 65_535);
        assert!(decoded(id, &[]).is_none());
        assert!(decoded(id, &[0; 9]).is_none());
    }
}

#[test]
fn varint_columns() {
    assert_eq!(whole(ColType::Varint, &[0xff]), -1);
    assert_eq!(whole(ColType::Varint, &[0x00, 0xff]), 255);
    assert_eq!(whole(ColType::Varint, &[0x80, 0x00, 0x00]), -8_388_608);
    assert_eq!(whole(ColType::Varint, &(-5i64).to_be_bytes()), -5);
    assert!(decoded(ColType::Varint, &[]).is_none());
    assert!(decoded(ColType::Varint, &[0; 9]).is_none());
}

#[test]
fn whole_numbers_read_back() {
    for n in [0i64, 1, -1, 127, -128, 300, -40_000, i64::MAX, i64::MIN] {
        assert_eq!(whole(ColType::Bigint, &n.to_be_bytes()), n);
        assert_eq!(whole(ColType::Varint, &n.to_be_bytes()), n);
    }
    for n in [0i32, 77, -77, i32::MAX, i32::MIN] {
        assert_eq!(whole(ColType::Int, &n.to_be_bytes()), i64::from(n));
    }
    for n in [0i16, 300, -300, i16::MAX, i16::MIN] {
        assert_eq!(whole(ColType::Smallint, &n.to_be_bytes()), i64::from(n));
    }
}

#[test]
fn double_columns() {
    assert_eq!(double(ColType::Double, &(-2.5e100f64).to_be_bytes()), -2.5e100);
    assert_eq!(double(ColType::Double, &[0x3f, 0xf0, 0, 0, 0, 0, 0, 0, 9]), 1.0);
    assert!(fails_with_io(ColType::Double, &[0; 7]));
    assert!(fails_with_io(ColType::Double, &[]));
}

#[test]
fn float_columns() {
    assert_eq!(double(ColType::Float, &1.5f32.to_be_bytes()), 1.5);
    assert_eq!(double(ColType::Float, &0.1f32.to_be_bytes()), f64::from(0.1f32));
    assert_eq!(double(ColType::Float, &[0x3f, 0x80, 0, 0, 9]), 1.0);
    assert!(double(ColType::Float, &f32::NAN.to_be_bytes()).is_nan());
    assert!(fails_with_io(ColType::Float, &[0; 3]));
}

#[test]
fn widening_keeps_the_number() {
    let mut bits: u32 = 0;
    for _ in 0..200_000 {
        let single = f32::from_bits(bits);
        let wide = f64::from_bits(widen(bits));
        if single.is_nan() {
            assert!(wide.is_nan());
        } else {
            assert_eq!(f64::from(single).to_bits(), wide.to_bits());
        }
        bits = bits.wrapping_mul(1_664_525).wrapping_add(1_013_904_223);
    }
    for bits in [1u32, 2, 3, 0x007f_ffff, 0x0080_0000, 0x8000_0000, 0x8000_0001, 0x7f80_0000] {
        assert_eq!(f64::from(f32::from_bits(bits)).to_bits(), widen(bits));
    }
}

#[test]
fn boolean_columns() {
    assert!(matches!(value(ColType::Boolean, &[0]), ColValue::Boolean(false)));
    assert!(matches!(value(ColType::Boolean, &[1]), ColValue::Boolean(true)));
    assert!(matches!(value(ColType::Boolean, &[2, 0]), ColValue::Boolean(true)));
    assert!(fails_with_io(ColType::Boolean, &[]));
}

#[test]
fn blob_columns() {
    match value(ColType::Blob, &[0x00, 0x0a, 0xff]) {
        ColValue::Blob(blob) => {
            assert_eq!(blob.bytes, vec![0x00, 0x0a, 0xff]);
            assert_eq!(blob.to_hex_string(), "000AFF");
        }
        other => panic!("not a blob: {:?}", other),
    }
    match value(ColType::Blob, &[]) {
        ColValue::Blob(blob) => assert_eq!(blob.to_hex_string(), ""),
        other => panic!("not a blob: {:?}", other),
    }
}

#[test]
fn uuid_columns() {
    let bytes: [u8; 16] = [
        0x93, 0x6d, 0xa0, 0x1f, 0x9a, 0xbd, 0x4d, 0x9d, 0x80, 0xc7, 0x02, 0xaf, 0x85, 0xc8, 0x22,
        0xa8,
    ];
    for id in [ColType::Uuid, ColType::Timeuuid] {
        match value(id, &bytes) {
            ColValue::Uuid(id) => {
                assert_eq!(id.uuid, bytes);
                assert_eq!(id.to_hyphenated_string(), "936da01f-9abd-4d9d-80c7-02af85c822a8");
            }
            other => panic!("not an identifier: {:?}", other),
        }
        assert!(matches!(decoded(id, &bytes[..15]), Some(Err(DecodeError::UUIDParse(_)))));
        assert!(matches!(decoded(id, &[]), Some(Err(DecodeError::UUIDParse(_)))));
    }
}

#[test]
fn inet_columns() {
    match value(ColType::Inet, &[127, 0, 0, 1]) {
        ColValue::Inet(IpAddr::V4(octets)) => assert_eq!(octets, [127, 0, 0, 1]),
        other => panic!("not an address: {:?}", other),
    }
    let six: [u8; 16] = [0x20, 0x01, 0x0d, 0xb8, 0, 0, 0, 0, 0, 0, 0, 0, 0, 0, 0, 1];
    match value(ColType::Inet, &six) {
        ColValue::Inet(IpAddr::V6(octets)) => assert_eq!(octets, six),
        other => panic!("not an address: {:?}", other),
    }
    assert!(fails_with_io(ColType::Inet, &[1, 2, 3]));
    assert!(fails_with_io(ColType::Inet, &[0; 17]));
}

#[test]
fn decimal_and_null_columns() {
    assert_eq!(text(ColType::Decimal, &[0, 0, 0, 2, 5]), "__UNSUPPORTED TYPE__");
    assert!(matches!(value(ColType::Null, &[1, 2]), ColValue::Null));
}

#[test]
fn date_columns() {
    let date = |days: i32| match decoded(ColType::Date, &days.to_be_bytes()) {
        Some(Ok(ColValue::Date(date))) => Some(date),
        None => None,
        other => panic!("not a date: {:?}", other),
    };
    let written = |days: i32| date(days).map(|d| d.to_text());
    assert_eq!(written(0).as_deref(), Some("1970-01-01"));
    assert_eq!(written(-1).as_deref(), Some("1969-12-31"));
    assert_eq!(written(18_321).as_deref(), Some("2020-02-29"));
    assert_eq!(written(-719_528).as_deref(), Some("0000-01-01"));
    assert_eq!(written(-719_529).as_deref(), Some("-0001-12-31"));
    assert_eq!(written(2_932_897).as_deref(), Some("+10000-01-01"));
    assert_eq!(written(-96_465_292).as_deref(), Some("-262143-01-01"));
    assert_eq!(written(95_026_236).as_deref(), Some("+262142-12-31"));
    assert_eq!(written(-96_465_293), None);
    assert_eq!(written(95_026_237), None);
    let leap = date(18_321).unwrap();
    assert_eq!((leap.year(), leap.month(), leap.day()), (2020, 2, 29));
    assert!(decoded(ColType::Date, &[]).is_none());
    assert!(decoded(ColType::Date, &[0; 9]).is_none());
}

#[test]
fn every_day_of_four_centuries_is_the_next() {
    let mut before = to_date(-135_140);
    for d in -135_139..11_000 {
        let date = to_date(d);
        let (y, m, day) = (date.year(), date.month(), date.day());
        if day > 1 {
            assert_eq!((before.year(), before.month(), before.day()), (y, m, day - 1));
        } else if m > 1 {
            assert_eq!((before.year(), before.month()), (y, m - 1));
            assert!(before.day() >= 28);
        } else {
            assert_eq!((before.year(), before.month(), before.day()), (y - 1, 12, 31));
        }
        before = date;
    }
}

#[test]
fn time_columns() {
    let written = |nanos: i64| match decoded(ColType::Time, &nanos.to_be_bytes()) {
        Some(Ok(ColValue::Time(time))) => Some(time.to_text()),
        None => None,
        other => panic!("not a time: {:?}", other),
    };
    assert_eq!(written(0).as_deref(), Some("00:00:00"));
    assert_eq!(written(1_500_000_000).as_deref(), Some("00:00:01.500"));
    assert_eq!(written(1_000_500_000).as_deref(), Some("00:00:01.000500"));
    assert_eq!(written(45_296_000_000_007).as_deref(), Some("12:34:56.000000007"));
    assert_eq!(written(86_399_999_999_999).as_deref(), Some("23:59:59.999999999"));
    assert_eq!(written(86_400_000_000_000), None);
    assert_eq!(written(-1).as_deref(), Some("00:00:00"));
    assert_eq!(written(-5_000_000_001).as_deref(), Some("00:00:00"));
    assert_eq!(written(i64::MAX).as_deref(), Some("00:00:00.854775807"));
    assert_eq!(written(4_294_967_295_000_000_000), None);
    assert_eq!(written(4_294_967_296_000_000_003).as_deref(), Some("00:00:00.000000003"));
    assert!(decoded(ColType::Time, &[]).is_none());
}

#[test]
fn times_by_their_parts() {
    let time = to_time(45_296_000_000_007);
    assert_eq!((time.hour(), time.minute(), time.second()), (12, 34, 56));
    assert_eq!(time.nanosecond(), 7);
    assert!(is_time(86_399_999_999_999));
    assert!(!is_time(86_400_000_000_000));
    assert!(is_time(-1));
}

#[test]
fn timestamp_columns() {
    let written = |ms: i64| match decoded(ColType::Timestamp, &ms.to_be_bytes()) {
        Some(Ok(ColValue::Timestamp(instant))) => Some(instant.to_text()),
        None => None,
        other => panic!("not an instant: {:?}", other),
    };
    assert_eq!(written(0).as_deref(), Some("1970-01-01 00:00:00 UTC"));
    assert_eq!(written(-1).as_deref(), Some("1969-12-31 23:59:59.999 UTC"));
    assert_eq!(written(1_600_000_000_123).as_deref(), Some("2020-09-13 12:26:40.123 UTC"));
    assert_eq!(
        written(-96_465_292 * 86_400_000).as_deref(),
        Some("-262143-01-01 00:00:00 UTC")
    );
    assert_eq!(
        written(95_026_237 * 86_400_000 - 1).as_deref(),
        Some("+262142-12-31 23:59:59.999 UTC")
    );
    assert_eq!(written(-96_465_292 * 86_400_000 - 1), None);
    assert_eq!(written(95_026_237 * 86_400_000), None);
    assert_eq!(written(i64::MIN), None);
    assert!(decoded(ColType::Timestamp, &[]).is_none());
}

#[test]
fn instants_by_their_parts() {
    let instant = to_datetime(1_600_000_000_123);
    let (date, time) = (instant.date(), instant.time());
    assert_eq!((date.year(), date.month(), date.day()), (2020, 9, 13));
    assert_eq!((time.hour(), time.minute(), time.second()), (12, 26, 40));
    assert_eq!(time.nanosecond(), 123_000_000);
    assert!(is_datetime(0));
    assert!(!is_datetime(i64::MAX));
    assert!(is_date(0));
    assert!(!is_date(i32::MAX));
}
