use cql::meta::{ColSpec, ColType, ColTypeOption};
use cql::rows::{process_rows, process_rows_in_turn, row_to_fields};
use cql::types::{ColMap, ColValue, DecodeError};

fn col(name: &str, id: ColType) -> ColSpec {
    ColSpec {
        name: name.to_string(),
        col_type: ColTypeOption { id, value: None },
    }
}

fn int_at(map: &ColMap, name: &str) -> i64 {
    match map.get(&name.to_string()) {
        Some(ColValue::Int(n)) => *n,
        other => panic!("not a number: {:?}", other),
    }
}

#[test]
fn rows_by_the_names_of_their_columns() {
    let cols = vec![col("n", ColType::Tinyint), col("s", ColType::Varchar), col("z", ColType::Int)];
    let row = vec![Some(vec![5]), Some(b"text".to_vec()), None];
    match row_to_fields(&cols, &row) {
        Some(Ok(map)) => {
            assert_eq!(int_at(&map, "n"), 5);
            assert!(matches!(map.get(&"s".to_string()), Some(ColValue::String(s)) if s == "text"));
            assert!(matches!(map.get(&"z".to_string()), Some(ColValue::Null)));
            assert_eq!(map.into_entries().len(), 3);
        }
        other => panic!("no row: {:?}", other),
    }
}

#[test]
fn the_last_of_two_columns_of_one_name_wins() {
    let cols = vec![col("n", ColType::Tinyint), col("n", ColType::Tinyint)];
    match row_to_fields(&cols, &vec![Some(vec![1]), Some(vec![2])]) {
        Some(Ok(map)) => {
            assert_eq!(int_at(&map, "n"), 2);
            assert_eq!(map.into_entries().len(), 1);
        }
        other => panic!("no row: {:?}", other),
    }
}

#[test]
fn cells_beyond_the_columns_are_left_alone() {
    let cols = vec![col("n", ColType::Tinyint)];
    let r = row_to_fields(&cols, &vec![Some(vec![1]), Some(Vec::new())]);
    assert!(matches!(r, Some(Ok(_))));
    assert!(matches!(row_to_fields(&Vec::new(), &Vec::new()), Some(Ok(_))));
}

#[test]
fn the_first_column_in_trouble_decides_the_row() {
    let cols = vec![col("b", ColType::Boolean), col("u", ColType::Uuid), col("t", ColType::Tinyint)];
    let r = row_to_fields(&cols, &vec![Some(vec![1]), Some(vec![1]), Some(Vec::new())]);
    assert!(matches!(r, Some(Err(DecodeError::UUIDParse(_)))));
    let r = row_to_fields(&cols, &vec![Some(Vec::new()), Some(vec![1]), Some(Vec::new())]);
    assert!(matches!(r, Some(Err(DecodeError::Io(_)))));
    assert!(row_to_fields(&cols, &vec![Some(vec![1]), None, Some(Vec::new())]).is_none());
}

#[test]
fn rows_that_lack_a_cell_are_faults() {
    let cols = vec![col("a", ColType::Tinyint), col("b", ColType::Tinyint)];
    assert!(row_to_fields(&cols, &vec![Some(vec![1])]).is_none());
}

#[test]
fn each_row_is_decoded_on_its_own() {
    let cols = vec![col("b", ColType::Boolean)];
    let rows = vec![vec![Some(vec![1])], vec![Some(Vec::new())], Vec::new(), vec![None]];
    let decoded = process_rows(&cols, &rows);
    assert_eq!(decoded.len(), 4);
    assert!(matches!(decoded[0], Some(Ok(_))));
    assert!(matches!(decoded[1], Some(Err(DecodeError::Io(_)))));
    assert!(decoded[2].is_none());
    assert!(matches!(decoded[3], Some(Ok(_))));
}

#[test]
fn rows_in_turn_stop_at_the_first_in_trouble() {
    let cols = vec![col("b", ColType::Boolean)];
    let good = || vec![Some(vec![1])];
    let bad = || vec![Some(Vec::new())];
    let (decoded, trouble) = process_rows_in_turn(&cols, &vec![good(), good(), bad(), good()]);
    assert_eq!(decoded.len(), 2);
    assert!(matches!(trouble, Some(Some(DecodeError::Io(_)))));
    let (decoded, trouble) = process_rows_in_turn(&cols, &vec![good(), Vec::new()]);
    assert_eq!(decoded.len(), 1);
    assert!(matches!(trouble, Some(None)));
    let (decoded, trouble) = process_rows_in_turn(&cols, &vec![good(), good()]);
    assert_eq!(decoded.len(), 2);
    assert!(trouble.is_none());
}
