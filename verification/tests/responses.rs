use cql::columns::to_column;
use cql::layout::is_readable;
use cql::meta::{ColType, ColTypeOptionValue};
use cql::response::{process_response, process_response_in_turn};
use cql::types::{ColMap, ColValue, DecodeError};

fn short(n: u16) -> Vec<u8> {
    n.to_be_bytes().to_vec()
}

fn long(n: i32) -> Vec<u8> {
    n.to_be_bytes().to_vec()
}

fn string(text: &str) -> Vec<u8> {
    let mut sent = short(text.len() as u16);
    sent.extend_from_slice(text.as_bytes());
    sent
}

fn cell(bytes: &[u8]) -> Vec<u8> {
    let mut sent = long(bytes.len() as i32);
    sent.extend_from_slice(bytes);
    sent
}

/// A column of a table that all columns share.
fn column(name: &str, kind: &[u8]) -> Vec<u8> {
    [string(name), kind.to_vec()].concat()
}

/// Metadata with the names of the table given once.
fn metadata(columns: &[Vec<u8>]) -> Vec<u8> {
    let head = [long(1), long(columns.len() as i32), string("ks"), string("t")];
    [head.concat(), columns.concat()].concat()
}

fn rows_body(columns: &[Vec<u8>], rows: i32, cells: &[Vec<u8>]) -> Vec<u8> {
    [long(2), metadata(columns), long(rows), cells.concat()].concat()
}

fn two_columns() -> Vec<Vec<u8>> {
    vec![column("n", &[0, 0x14]), column("s", &[0, 0x0d])]
}

fn sample() -> Vec<u8> {
    let cells = [cell(&[1]), cell(b"one"), cell(&[2]), long(-1)];
    rows_body(&two_columns(), 2, &cells)
}

fn decoded(body: &[u8]) -> Vec<Option<Result<ColMap, DecodeError>>> {
    match process_response(8, body) {
        Some(Ok(Some(rows))) => rows,
        other => panic!("no rows: {:?}", other),
    }
}

fn is_without_rows(opcode: u8, body: &[u8]) -> bool {
    matches!(process_response(opcode, body), Some(Ok(None)))
        && matches!(process_response_in_turn(opcode, body), Some(Ok(None)))
}

fn is_rejected(opcode: u8, body: &[u8]) -> bool {
    matches!(process_response(opcode, body), Some(Err(_)))
        && matches!(process_response_in_turn(opcode, body), Some(Err(_)))
}

fn is_fault(opcode: u8, body: &[u8]) -> bool {
    process_response(opcode, body).is_none()
        && process_response_in_turn(opcode, body).is_none()
        && !is_readable(opcode, body)
}

fn int_at(map: &ColMap, name: &str) -> i64 {
    match map.get(&name.to_string()) {
        Some(ColValue::Int(n)) => *n,
        other => panic!("not a number: {:?}", other),
    }
}

#[test]
fn rows_of_a_response() {
    let rows = decoded(&sample());
    assert_eq!(rows.len(), 2);
    match (&rows[0], &rows[1]) {
        (Some(Ok(first)), Some(Ok(second))) => {
            assert_eq!(int_at(first, "n"), 1);
            let text = first.get(&"s".to_string());
            assert!(matches!(text, Some(ColValue::String(s)) if s == "one"));
            assert_eq!(int_at(second, "n"), 2);
            assert!(matches!(second.get(&"s".to_string()), Some(ColValue::Null)));
        }
        other => panic!("no rows: {:?}", other),
    }
}

#[test]
fn rows_with_a_table_for_each_column() {
    let columns = [string("ks"), string("t"), column("n", &[0, 0x14])].concat();
    let body = [long(2), long(0), long(1), columns, long(1), cell(&[7])].concat();
    match &decoded(&body)[0] {
        Some(Ok(row)) => assert_eq!(int_at(row, "n"), 7),
        other => panic!("no row: {:?}", other),
    }
}

#[test]
fn rows_with_more_to_come() {
    let head = [long(3), long(1), cell(b"state"), string("ks"), string("t")].concat();
    let body = [long(2), head, column("n", &[0, 0x14]), long(1), cell(&[7])].concat();
    assert_eq!(decoded(&body).len(), 1);
    let cut = [long(2), long(3), long(1), long(9), vec![1]].concat();
    assert!(is_rejected(8, &cut));
}

#[test]
fn rows_without_columns() {
    let body = rows_body(&[], 3, &[]);
    let rows = decoded(&body);
    assert_eq!(rows.len(), 3);
    assert!(rows.iter().all(|row| matches!(row, Some(Ok(_)))));
    let none = [long(2), long(0), long(-4), long(-5)].concat();
    assert!(decoded(&none).is_empty());
}

#[test]
fn a_row_in_trouble_does_not_touch_the_others() {
    let columns = [column("b", &[0, 0x04])];
    let body = rows_body(&columns, 3, &[cell(&[1]), cell(&[]), cell(&[0])]);
    let rows = decoded(&body);
    assert!(matches!(rows[0], Some(Ok(_))));
    assert!(matches!(rows[1], Some(Err(DecodeError::Io(_)))));
    assert!(matches!(rows[2], Some(Ok(_))));
}

#[test]
fn rows_of_a_response_in_turn() {
    let columns = [column("b", &[0, 0x04])];
    let body = rows_body(&columns, 3, &[cell(&[1]), cell(&[]), cell(&[0])]);
    match process_response_in_turn(8, &body) {
        Some(Ok(Some((rows, trouble)))) => {
            assert_eq!(rows.len(), 1);
            assert!(matches!(trouble, Some(Some(DecodeError::Io(_)))));
        }
        other => panic!("no rows: {:?}", other),
    }
    match process_response_in_turn(8, &sample()) {
        Some(Ok(Some((rows, None)))) => assert_eq!(rows.len(), 2),
        other => panic!("no rows: {:?}", other),
    }
}

#[test]
fn responses_without_rows() {
    assert!(is_without_rows(2, &[]));
    assert!(is_without_rows(16, &[9, 9]));
    assert!(is_without_rows(8, &long(1)));
    assert!(is_without_rows(8, &[long(3), string("ks")].concat()));
    let change = [long(5), string("CREATED"), string("KEYSPACE"), string("ks")].concat();
    assert!(is_without_rows(8, &change));
    assert!(is_without_rows(0, &[long(0), string("message")].concat()));
    assert!(is_without_rows(3, &string("class")));
    assert!(is_without_rows(6, &short(0)));
    assert!(is_without_rows(14, &cell(&[1])));
    let event = [string("SCHEMA_CHANGE"), string("DROPPED"), string("KEYSPACE"), string("ks")];
    assert!(is_without_rows(12, &event.concat()));
}

#[test]
fn prepared_queries_hold_no_rows() {
    let id = [short(2), vec![1, 2]].concat();
    let bound = [long(1), long(1), long(1), short(0), string("ks"), string("t")].concat();
    let head = [long(4), id, bound, column("n", &[0, 0x09])].concat();
    let body = [head.clone(), metadata(&two_columns())].concat();
    assert!(is_without_rows(8, &body));
    assert!(is_rejected(8, &head));
    assert!(is_rejected(8, &[long(4), short(9)].concat()));
    let without_id = [long(4), short(0xffff), long(0), long(0), long(0), long(0), long(0)].concat();
    assert!(is_without_rows(8, &without_id));
    let keys_cut = [long(4), short(0), long(0), long(0), long(3), short(0)].concat();
    assert!(is_rejected(8, &keys_cut));
    let columns_cut = [long(4), short(0), long(0), long(1), long(0)].concat();
    assert!(is_fault(8, &columns_cut));
    let rows_cut = [long(4), short(0), long(0), long(0), long(0), long(0), long(1)].concat();
    assert!(is_fault(8, &rows_cut));
}

#[test]
fn responses_that_cannot_be_read() {
    assert!(is_rejected(8, &[]));
    assert!(is_rejected(8, &long(6)));
    assert!(is_rejected(8, &[long(2), long(1)].concat()));
    assert!(is_rejected(8, &[long(2), long(1), long(0)].concat()));
    assert!(is_rejected(8, &[long(2), metadata(&two_columns())].concat()));
    assert!(is_rejected(8, &[long(3), short(4)].concat()));
    assert!(is_rejected(8, &[long(3), short(1), vec![0xff]].concat()));
    assert!(is_rejected(3, &[]));
    assert!(is_rejected(14, &long(1)));
    assert!(is_rejected(0, &long(0)));
    assert!(is_rejected(12, &string("?")));
}

#[test]
fn opcodes_of_requests_are_faults() {
    for opcode in [1u8, 4, 5, 7, 9, 10, 11, 13, 15, 17, 255] {
        assert!(is_fault(opcode, &sample()));
    }
}

#[test]
fn columns_and_cells_that_are_cut_are_faults() {
    let head = [long(1), long(1), string("ks"), string("t")].concat();
    assert!(is_fault(8, &[long(2), head.clone()].concat()));
    assert!(is_fault(8, &[long(2), head.clone(), string("n")].concat()));
    assert!(is_fault(8, &[long(2), head.clone(), column("n", &[0, 0x0a])].concat()));
    assert!(is_fault(8, &[long(2), head, column("n", &[0, 0x20])].concat()));
    assert!(is_fault(8, &rows_body(&two_columns(), 1, &[cell(&[1])])));
    assert!(is_fault(8, &rows_body(&two_columns(), 1, &[cell(&[1]), long(5)])));
}

#[test]
fn bodies_that_can_be_read_are_read() {
    let body = sample();
    for end in 0..body.len() {
        let cut = &body[..end];
        assert_eq!(process_response(8, cut).is_some(), is_readable(8, cut));
        for changed in [0u8, 1, 0x20, 0x30, 0x31, 0x80, 0xff] {
            let mut other = body.clone();
            other[end] = changed;
            let large = other[8] > 0 || other[9] > 0 || other[10] > 0;
            if !large && end != 8 {
                assert_eq!(process_response(8, &other).is_some(), is_readable(8, &other));
            }
        }
    }
}

#[test]
fn types_made_of_types() {
    let list = [short(0x20), short(0x14)].concat();
    let set = [short(0x22), list.clone()].concat();
    let map = [short(0x21), short(0x0d), short(0x09)].concat();
    let tuple = [short(0x31), short(2), short(0x14), short(0x0d)].concat();
    let fields = [column("a", &[0, 0x14]), column("b", &list)].concat();
    let udt = [short(0x30), string("ks"), string("u"), short(2), fields].concat();
    let custom = [short(0), string("class")].concat();
    let columns = [
        column("l", &list),
        column("s", &set),
        column("m", &map),
        column("t", &tuple),
        column("u", &udt),
        column("c", &custom),
    ];
    let sent_list = [long(2), cell(&[3]), cell(&[4])].concat();
    let cells = [
        cell(&sent_list),
        cell(&[long(1), cell(&sent_list)].concat()),
        cell(&[long(1), cell(b"k"), cell(&long(5))].concat()),
        cell(&[cell(&[6]), cell(b"x")].concat()),
        cell(&[cell(&[7]), cell(&sent_list)].concat()),
        cell(b"text"),
    ];
    let rows = decoded(&rows_body(&columns, 1, &cells));
    let row = match &rows[0] {
        Some(Ok(row)) => row,
        other => panic!("no row: {:?}", other),
    };
    let at = |name: &str| match row.get(&name.to_string()) {
        Some(value) => value,
        None => panic!("nothing at {}", name),
    };
    assert!(matches!(at("l"), ColValue::SeqOf(items) if matches!(items[..], [ColValue::Int(3), ColValue::Int(4)])));
    assert!(matches!(at("s"), ColValue::SeqOf(items) if matches!(items[..], [ColValue::SeqOf(_)])));
    assert!(matches!(at("m"), ColValue::MapOf(map) if int_at(map, "k") == 5));
    assert!(matches!(at("t"), ColValue::SeqOf(items) if matches!(items[..], [ColValue::Int(6), ColValue::String(_)])));
    assert!(matches!(at("u"), ColValue::MapOf(map) if int_at(map, "a") == 7));
    assert!(matches!(at("c"), ColValue::String(text) if text == "text"));
}

#[test]
fn columns_keep_their_names_and_types() {
    let spec = cdrs::frame::frame_result::ColSpec {
        ksname: None,
        tablename: None,
        name: cdrs::types::CString::new("n".to_string()),
        col_type: cdrs::frame::frame_result::ColTypeOption {
            id: cdrs::frame::frame_result::ColType::Map,
            value: Some(cdrs::frame::frame_result::ColTypeOptionValue::ColType(
                cdrs::frame::frame_result::ColType::Set,
            )),
        },
    };
    let column = to_column(&spec);
    assert_eq!(column.name, "n");
    assert!(matches!(column.col_type.id, ColType::MapOf));
    assert!(matches!(
        column.col_type.value,
        Some(ColTypeOptionValue::ColType(ColType::SetOf))
    ));
}

#[test]
fn sizes_that_room_is_asked_for() {
    let word = std::mem::size_of::<usize>();
    assert_eq!(std::mem::size_of::<cdrs::frame::frame_result::ColSpec>(), 19 * word);
    assert_eq!(std::mem::size_of::<cdrs::types::CBytes>(), 3 * word);
    assert_eq!(std::mem::size_of::<(cdrs::types::CBytes, cdrs::types::CBytes)>(), 6 * word);
    assert_eq!(std::mem::size_of::<Option<i16>>(), 4);
}
