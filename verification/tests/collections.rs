use cql::meta::{CTuple, CUdt, ColType, ColTypeOption, ColTypeOptionValue};
use cql::types::{ColMap, ColValue, DecodeError};

fn plain(id: ColType) -> ColTypeOption {
    ColTypeOption { id, value: None }
}

fn list_of(t: ColTypeOption) -> ColTypeOption {
    ColTypeOption {
        id: ColType::List,
        value: Some(ColTypeOptionValue::CList(Box::new(t))),
    }
}

fn set_of(t: ColTypeOption) -> ColTypeOption {
    ColTypeOption {
        id: ColType::SetOf,
        value: Some(ColTypeOptionValue::CSet(Box::new(t))),
    }
}

fn map_of(k: ColTypeOption, v: ColTypeOption) -> ColTypeOption {
    ColTypeOption {
        id: ColType::MapOf,
        value: Some(ColTypeOptionValue::CMap((Box::new(k), Box::new(v)))),
    }
}

fn tuple_of(types: Vec<ColTypeOption>) -> ColTypeOption {
    ColTypeOption {
        id: ColType::Tuple,
        value: Some(ColTypeOptionValue::TupleType(CTuple { types })),
    }
}

fn udt_of(fields: Vec<(&str, ColTypeOption)>) -> ColTypeOption {
    let descriptions = fields.into_iter().map(|(name, t)| (name.to_string(), t)).collect();
    ColTypeOption {
        id: ColType::Udt,
        value: Some(ColTypeOptionValue::UdtType(CUdt { descriptions })),
    }
}

fn frame(cell: Option<&[u8]>) -> Vec<u8> {
    match cell {
        None => (-1i32).to_be_bytes().to_vec(),
        Some(bytes) => {
            let mut framed = (bytes.len() as i32).to_be_bytes().to_vec();
            framed.extend_from_slice(bytes);
            framed
        }
    }
}

fn counted(count: i32, cells: &[Option<&[u8]>]) -> Vec<u8> {
    let mut sent = count.to_be_bytes().to_vec();
    sent.extend(frames(cells));
    sent
}

fn frames(cells: &[Option<&[u8]>]) -> Vec<u8> {
    cells.iter().flat_map(|cell| frame(*cell)).collect()
}

fn decoded(t: &ColTypeOption, bytes: Vec<u8>) -> Option<Result<ColValue, DecodeError>> {
    ColValue::try_decode(t, &Some(bytes))
}

fn items(t: &ColTypeOption, bytes: Vec<u8>) -> Vec<ColValue> {
    match decoded(t, bytes) {
        Some(Ok(ColValue::SeqOf(items))) => items,
        other => panic!("no sequence: {:?}", other),
    }
}

fn fields(t: &ColTypeOption, bytes: Vec<u8>) -> ColMap {
    match decoded(t, bytes) {
        Some(Ok(ColValue::MapOf(map))) => map,
        other => panic!("no map: {:?}", other),
    }
}

fn ints(items: &[ColValue]) -> Vec<i64> {
    items
        .iter()
        .map(|item| match item {
            ColValue::Int(n) => *n,
            other => panic!("not a number: {:?}", other),
        })
        .collect()
}

fn int_at(map: &ColMap, name: &str) -> i64 {
    match map.get(&name.to_string()) {
        Some(ColValue::Int(n)) => *n,
        other => panic!("not a number: {:?}", other),
    }
}

fn general(r: Option<Result<ColValue, DecodeError>>) -> String {
    match r {
        Some(Err(DecodeError::General(message))) => message,
        other => panic!("no message: {:?}", other),
    }
}

fn is_io(r: Option<Result<ColValue, DecodeError>>) -> bool {
    matches!(r, Some(Err(DecodeError::Io(_))))
}

#[test]
fn lists_and_sets_read_back() {
    for t in [list_of(plain(ColType::Smallint)), set_of(plain(ColType::Smallint))] {
        let sent = counted(3, &[Some(&[0, 3]), Some(&[0, 1]), Some(&[0xff, 0xfe])]);
        assert_eq!(ints(&items(&t, sent)), vec![3, 1, -2]);
        assert!(items(&t, counted(0, &[])).is_empty());
    }
}

#[test]
fn absent_elements_are_null() {
    let t = list_of(plain(ColType::Int));
    let found = items(&t, counted(2, &[None, Some(&[0, 0, 0, 9])]));
    assert_eq!(found.len(), 2);
    assert!(matches!(found[0], ColValue::Null));
    assert!(matches!(found[1], ColValue::Int(9)));
}

#[test]
fn lists_in_lists() {
    let t = list_of(list_of(plain(ColType::Tinyint)));
    let first = counted(2, &[Some(&[1]), Some(&[2])]);
    let second = counted(1, &[Some(&[3])]);
    let found = items(&t, counted(2, &[Some(&first), Some(&second)]));
    match (&found[0], &found[1]) {
        (ColValue::SeqOf(a), ColValue::SeqOf(b)) => {
            assert_eq!(ints(a), vec![1, 2]);
            assert_eq!(ints(b), vec![3]);
        }
        other => panic!("no sequences: {:?}", other),
    }
}

#[test]
fn lists_that_end_too_early() {
    let t = list_of(plain(ColType::Int));
    assert!(is_io(decoded(&t, Vec::new())));
    assert!(is_io(decoded(&t, vec![0, 0, 0])));
    assert!(is_io(decoded(&t, counted(2, &[Some(&[0, 0, 0, 1])]))));
    assert!(is_io(decoded(&set_of(plain(ColType::Int)), counted(1, &[]))));
}

#[test]
fn counts_below_zero_are_faults() {
    let key = plain(ColType::Int);
    assert!(decoded(&list_of(plain(ColType::Int)), counted(-1, &[])).is_none());
    assert!(decoded(&set_of(plain(ColType::Int)), counted(-7, &[])).is_none());
    assert!(decoded(&map_of(key, plain(ColType::Int)), counted(-1, &[])).is_none());
    let t = list_of(plain(ColType::Int));
    assert!(!ColValue::is_decodable(&t, &Some(counted(-1, &[]))));
}

#[test]
fn the_first_trouble_decides() {
    let t = list_of(plain(ColType::Boolean));
    assert!(is_io(decoded(&t, counted(2, &[Some(&[1]), Some(&[])]))));
    let t = tuple_of(vec![plain(ColType::Boolean), plain(ColType::Tinyint)]);
    assert!(is_io(decoded(&t, frames(&[Some(&[]), Some(&[])]))));
    let t = tuple_of(vec![plain(ColType::Tinyint), plain(ColType::Boolean)]);
    assert!(decoded(&t, frames(&[Some(&[]), Some(&[])])).is_none());
}

#[test]
fn lists_without_the_type_of_their_elements() {
    let sent = counted(1, &[Some(&[1])]);
    for id in [ColType::List, ColType::SetOf] {
        let message = general(decoded(&plain(id), sent.clone()));
        assert_eq!(message, "Error converting list/set");
        let t = ColTypeOption { id, value: Some(ColTypeOptionValue::ColType(ColType::Int)) };
        assert_eq!(general(decoded(&t, sent.clone())), "Error converting list/set");
    }
}

#[test]
fn lists_take_the_type_of_a_set_and_sets_that_of_a_list() {
    let sent = counted(1, &[Some(&[5])]);
    let element = || Box::new(plain(ColType::Tinyint));
    let list = ColTypeOption {
        id: ColType::List,
        value: Some(ColTypeOptionValue::CSet(element())),
    };
    let set = ColTypeOption {
        id: ColType::SetOf,
        value: Some(ColTypeOptionValue::CList(element())),
    };
    assert_eq!(ints(&items(&list, sent.clone())), vec![5]);
    assert_eq!(ints(&items(&set, sent)), vec![5]);
}

#[test]
fn maps_read_back() {
    let t = map_of(plain(ColType::Varchar), plain(ColType::Tinyint));
    let sent = counted(2, &[Some(b"one"), Some(&[1]), Some(b"two"), Some(&[2])]);
    let map = fields(&t, sent);
    assert_eq!(int_at(&map, "one"), 1);
    assert_eq!(int_at(&map, "two"), 2);
    assert_eq!(map.into_entries().len(), 2);
}

#[test]
fn keys_of_maps_are_written_out() {
    let t = map_of(plain(ColType::Date), plain(ColType::Tinyint));
    let day = 18_321i32.to_be_bytes();
    let map = fields(&t, counted(1, &[Some(&day), Some(&[7])]));
    assert_eq!(int_at(&map, "2020-02-29"), 7);
}

#[test]
fn the_later_of_two_equal_keys_wins() {
    let t = map_of(plain(ColType::Tinyint), plain(ColType::Tinyint));
    let sent = counted(3, &[Some(&[1]), Some(&[10]), Some(&[2]), Some(&[20]), Some(&[1]), Some(&[30])]);
    let map = fields(&t, sent);
    assert_eq!(int_at(&map, "1"), 30);
    assert_eq!(int_at(&map, "2"), 20);
    assert_eq!(map.into_entries().len(), 2);
}

#[test]
fn keys_that_differ_are_kept_apart() {
    let t = map_of(plain(ColType::Inet), plain(ColType::Tinyint));
    let sent = counted(2, &[Some(&[1, 11, 1, 1]), Some(&[1]), Some(&[11, 1, 1, 1]), Some(&[2])]);
    let map = fields(&t, sent);
    assert_eq!(int_at(&map, "1.11.1.1"), 1);
    assert_eq!(int_at(&map, "11.1.1.1"), 2);
}

#[test]
fn maps_with_keys_that_cannot_be() {
    let t = map_of(plain(ColType::Int), plain(ColType::Int));
    let sent = counted(1, &[None, Some(&[0, 0, 0, 1])]);
    assert_eq!(general(decoded(&t, sent)), "Unexpected map key type");
    let t = map_of(list_of(plain(ColType::Int)), plain(ColType::Int));
    let sent = counted(1, &[Some(&[0, 0, 0, 0]), Some(&[0, 0, 0, 1])]);
    assert_eq!(general(decoded(&t, sent)), "Unexpected map key type");
}

#[test]
fn the_key_is_seen_to_before_the_value() {
    let t = map_of(plain(ColType::Boolean), plain(ColType::Uuid));
    assert!(is_io(decoded(&t, counted(1, &[Some(&[]), Some(&[])]))));
    let r = decoded(&t, counted(1, &[Some(&[1]), Some(&[])]));
    assert!(matches!(r, Some(Err(DecodeError::UUIDParse(_)))));
}

#[test]
fn maps_that_end_too_early() {
    let t = map_of(plain(ColType::Tinyint), plain(ColType::Tinyint));
    assert!(is_io(decoded(&t, vec![0])));
    assert!(is_io(decoded(&t, counted(1, &[Some(&[1])]))));
}

#[test]
fn maps_without_their_types() {
    let sent = counted(0, &[]);
    assert_eq!(general(decoded(&plain(ColType::MapOf), sent)), "Error converting map");
}

#[test]
fn tuples_read_back() {
    let t = tuple_of(vec![plain(ColType::Tinyint), plain(ColType::Varchar), plain(ColType::Int)]);
    let found = items(&t, frames(&[Some(&[4]), Some(b"x"), None]));
    assert_eq!(found.len(), 3);
    assert!(matches!(found[0], ColValue::Int(4)));
    assert!(matches!(&found[1], ColValue::String(s) if s == "x"));
    assert!(matches!(found[2], ColValue::Null));
}

#[test]
fn tuples_that_end_too_early() {
    let t = tuple_of(vec![plain(ColType::Tinyint), plain(ColType::Tinyint)]);
    assert!(is_io(decoded(&t, frames(&[Some(&[4])]))));
}

#[test]
fn tuples_without_their_types() {
    assert_eq!(general(decoded(&plain(ColType::Tuple), Vec::new())), "Error converting tuple");
}

#[test]
fn user_defined_values_read_back() {
    let t = udt_of(vec![("a", plain(ColType::Tinyint)), ("b", plain(ColType::Varchar))]);
    let map = fields(&t, frames(&[Some(&[4]), Some(b"x")]));
    assert_eq!(int_at(&map, "a"), 4);
    assert!(matches!(map.get(&"b".to_string()), Some(ColValue::String(s)) if s == "x"));
    assert_eq!(map.into_entries().len(), 2);
}

#[test]
fn fields_that_were_not_sent_are_null() {
    let t = udt_of(vec![
        ("a", plain(ColType::Tinyint)),
        ("b", plain(ColType::Varchar)),
        ("c", plain(ColType::Int)),
    ]);
    let map = fields(&t, frames(&[Some(&[4])]));
    assert_eq!(int_at(&map, "a"), 4);
    assert!(matches!(map.get(&"b".to_string()), Some(ColValue::Null)));
    assert!(matches!(map.get(&"c".to_string()), Some(ColValue::Null)));
}

#[test]
fn fields_that_the_bytes_end_in_are_null() {
    let t = udt_of(vec![("a", plain(ColType::Int)), ("b", plain(ColType::Int))]);
    let mut sent = 4i32.to_be_bytes().to_vec();
    sent.extend_from_slice(&[0, 0]);
    let map = fields(&t, sent);
    assert!(matches!(map.get(&"a".to_string()), Some(ColValue::Null)));
    assert!(matches!(map.get(&"b".to_string()), Some(ColValue::Null)));
}

#[test]
fn user_defined_values_without_their_types() {
    assert_eq!(general(decoded(&plain(ColType::Udt), Vec::new())), "Error converting UDT");
}

#[test]
fn user_defined_values_in_lists() {
    let t = list_of(udt_of(vec![("a", plain(ColType::Tinyint))]));
    let inner = frames(&[Some(&[6])]);
    let found = items(&t, counted(1, &[Some(&inner)]));
    match &found[0] {
        ColValue::MapOf(map) => assert_eq!(int_at(map, "a"), 6),
        other => panic!("no map: {:?}", other),
    }
}
