//! The calls into the `cdrs` driver that turn the bytes of a cell into values, and those of a response
//! into rows.
//!
//! Nothing here is proved: each item states what one function of the driver, or one type that
//! it hands back, is relied on for.

use cdrs::frame::frame_response::ResponseBody;
use cdrs::frame::frame_result::{
    CTuple as WireTuple, CUdt as WireUdt, ColSpec as WireColumn, ColType as WireKind,
    ColTypeOption as WireType, ColTypeOptionValue as WireParts,
};
use cdrs::frame::Opcode;
use cdrs::types::data_serialization_types::{
    decode_double, decode_float, decode_inet, decode_list, decode_map, decode_set, decode_timeuuid,
    decode_tuple, decode_udt,
};
use cdrs::types::value::Value;
use cdrs::types::CBytes;
use vstd::prelude::*;
use vstd::utf8::{decode_utf8, valid_utf8};

use crate::bytes::{
    be_int, be_nat, cell_pairs, cells, cells_of, list_cells, map_cells, reservable, rows_of,
    twos, udt_cells_of, words, Cell,
};
use crate::columns::wire_columns;
use crate::layout::{body_part, readable, Part};
use crate::meta::ColumnView;

verus! {

/// `std::io::Error`, which most of the driver's readers fail with. It is carried along unread.
#[verifier::external_type_specification]
#[verifier::external_body]
pub struct ExIoError(std::io::Error);

/// `std::string::FromUtf8Error`, which the driver's text readers name as their error.
#[verifier::external_type_specification]
#[verifier::external_body]
pub struct ExFromUtf8Error(std::string::FromUtf8Error);

/// `uuid::Error`, which the driver's reader of unique identifiers fails with. It is carried along
/// unread.
#[verifier::external_type_specification]
#[verifier::external_body]
pub struct ExUuidError(uuid::Error);

/// `cdrs::error::Error`, which the driver's reading of a response fails with. It is carried along
/// unread.
#[verifier::external_type_specification]
#[verifier::external_body]
pub struct ExDriverError(cdrs::error::Error);

/// `cdrs::types::CString`, in which the driver keeps names.
#[verifier::external_type_specification]
#[verifier::external_body]
pub struct ExCString(cdrs::types::CString);

/// The driver's `ColType`, variant by variant.
#[verifier::external_type_specification]
pub struct ExWireKind(WireKind);

/// The driver's `ColTypeOption`, field by field.
#[verifier::external_type_specification]
pub struct ExWireType(WireType);

/// The driver's `ColTypeOptionValue`, variant by variant.
#[verifier::external_type_specification]
pub struct ExWireParts(WireParts);

/// The driver's `CUdt`, field by field.
#[verifier::external_type_specification]
pub struct ExWireUdt(WireUdt);

/// The driver's `CTuple`, field by field.
#[verifier::external_type_specification]
pub struct ExWireTuple(WireTuple);

/// The driver's `ColSpec`, field by field.
#[verifier::external_type_specification]
pub struct ExWireColumn(WireColumn);

/// The characters that a `CString` holds.
pub uninterp spec fn name_text(name: cdrs::types::CString) -> Seq<char>;

/// The columns and the rows that `ResponseBody::from` finds in the body of a response: `None` where it
/// fails, and nothing inside where the response is one without rows.
pub uninterp spec fn response_rows(opcode: u8, body: Seq<u8>) -> Option<
    Option<(Seq<ColumnView>, Seq<Seq<Cell>>)>,
>;

/// The text that `decode_varchar` makes of some bytes.
pub uninterp spec fn varchar_text(bytes: Seq<u8>) -> Seq<char>;

/// The text that `decode_ascii` makes of some bytes.
pub uninterp spec fn ascii_text(bytes: Seq<u8>) -> Seq<char>;

/// The text that `decode_custom` makes of some bytes.
pub uninterp spec fn custom_text(bytes: Seq<u8>) -> Seq<char>;

/// The cells that `decode_udt` finds in some bytes for a number of fields.
pub uninterp spec fn udt_cells(bytes: Seq<u8>, fields: nat) -> Seq<Cell>;

/// The driver's `decode_varchar` never fails. Bytes that are UTF-8 become the text they encode;
/// of others only that the text depends on nothing but them is said.
pub assume_specification[ cdrs::types::data_serialization_types::decode_varchar ](
    bytes: &[u8],
) -> (r: Result<String, std::string::FromUtf8Error>)
    ensures
        r is Ok,
        r->Ok_0@ == varchar_text(bytes@),
        valid_utf8(bytes@) ==> r->Ok_0@ == decode_utf8(bytes@),
;

/// The driver's `decode_ascii` never fails. Bytes that are UTF-8 become the text they encode;
/// of others only that the text depends on nothing but them is said.
pub assume_specification[ cdrs::types::data_serialization_types::decode_ascii ](bytes: &[u8]) -> (r:
    Result<String, std::string::FromUtf8Error>)
    ensures
        r is Ok,
        r->Ok_0@ == ascii_text(bytes@),
        valid_utf8(bytes@) ==> r->Ok_0@ == decode_utf8(bytes@),
;

/// The driver's `decode_custom` never fails. Bytes that are UTF-8 become the text they encode;
/// of others only that the text depends on nothing but them is said.
pub assume_specification[ cdrs::types::data_serialization_types::decode_custom ](
    bytes: &[u8],
) -> (r: Result<String, std::string::FromUtf8Error>)
    ensures
        r is Ok,
        r->Ok_0@ == custom_text(bytes@),
        valid_utf8(bytes@) ==> r->Ok_0@ == decode_utf8(bytes@),
;

/// The driver's `decode_tinyint` reads the first byte as a signed number; it panics where there
/// is none.
pub assume_specification[ cdrs::types::data_serialization_types::decode_tinyint ](
    bytes: &[u8],
) -> (r: Result<i8, std::io::Error>)
    requires
        bytes@.len() >= 1,
    ensures
        r is Ok,
        r->Ok_0 == twos(bytes@[0] as nat, 8),
;

/// The driver's `decode_smallint` reads up to eight bytes as one unsigned number and keeps its
/// low sixteen bits; it panics on no bytes and on more than eight.
pub assume_specification[ cdrs::types::data_serialization_types::decode_smallint ](
    bytes: &[u8],
) -> (r: Result<i16, std::io::Error>)
    requires
        1 <= bytes@.len() <= 8,
    ensures
        r is Ok,
        r->Ok_0 == twos(be_nat(bytes@), 16),
;

/// The driver's `decode_int` reads up to eight bytes as one unsigned number and keeps its low
/// thirty-two bits; it panics on no bytes and on more than eight.
pub assume_specification[ cdrs::types::data_serialization_types::decode_int ](bytes: &[u8]) -> (r:
    Result<i32, std::io::Error>)
    requires
        1 <= bytes@.len() <= 8,
    ensures
        r is Ok,
        r->Ok_0 == twos(be_nat(bytes@), 32),
;

/// The driver's `decode_bigint` reads up to eight bytes as one unsigned number and takes its
/// sixty-four bits as signed; it panics on no bytes and on more than eight.
pub assume_specification[ cdrs::types::data_serialization_types::decode_bigint ](
    bytes: &[u8],
) -> (r: Result<i64, std::io::Error>)
    requires
        1 <= bytes@.len() <= 8,
    ensures
        r is Ok,
        r->Ok_0 == twos(be_nat(bytes@), 64),
;

/// The driver's `decode_varint` reads up to eight bytes as one signed number of that many bytes;
/// it panics on no bytes and on more than eight.
pub assume_specification[ cdrs::types::data_serialization_types::decode_varint ](
    bytes: &[u8],
) -> (r: Result<i64, std::io::Error>)
    requires
        1 <= bytes@.len() <= 8,
    ensures
        r is Ok,
        r->Ok_0 == twos(be_nat(bytes@), 8 * bytes@.len()),
;

/// The driver's `decode_boolean` tells whether the first byte is other than zero, and fails where
/// there is none.
pub assume_specification[ cdrs::types::data_serialization_types::decode_boolean ](
    bytes: &[u8],
) -> (r: Result<bool, std::io::Error>)
    ensures
        r is Ok <==> bytes@.len() >= 1,
        r is Ok ==> r->Ok_0 == (bytes@[0] != 0),
;

/// The driver's `decode_date` reads up to eight bytes as one unsigned number and keeps its low
/// thirty-two bits; it panics on no bytes and on more than eight.
pub assume_specification[ cdrs::types::data_serialization_types::decode_date ](bytes: &[u8]) -> (r:
    Result<i32, std::io::Error>)
    requires
        1 <= bytes@.len() <= 8,
    ensures
        r is Ok,
        r->Ok_0 == twos(be_nat(bytes@), 32),
;

/// The driver's `decode_time` reads up to eight bytes as one signed number of that many bytes;
/// it panics on no bytes and on more than eight.
pub assume_specification[ cdrs::types::data_serialization_types::decode_time ](bytes: &[u8]) -> (r:
    Result<i64, std::io::Error>)
    requires
        1 <= bytes@.len() <= 8,
    ensures
        r is Ok,
        r->Ok_0 == twos(be_nat(bytes@), 8 * bytes@.len()),
;

/// The driver's `decode_timestamp` reads up to eight bytes as one unsigned number and takes its
/// sixty-four bits as signed; it panics on no bytes and on more than eight.
pub assume_specification[ cdrs::types::data_serialization_types::decode_timestamp ](
    bytes: &[u8],
) -> (r: Result<i64, std::io::Error>)
    requires
        1 <= bytes@.len() <= 8,
    ensures
        r is Ok,
        r->Ok_0 == twos(be_nat(bytes@), 64),
;

/// The driver's `decode_float` takes the first four bytes as the bits of a single-precision
/// number, and fails where there are fewer. The number is handed on as its bits.
#[verifier::external_body]
pub(crate) fn read_single(bytes: &[u8]) -> (r: Result<u32, std::io::Error>)
    ensures
        r is Ok <==> bytes@.len() >= 4,
        r is Ok ==> r->Ok_0 == be_nat(bytes@.take(4)),
{
    match decode_float(bytes) {
        Ok(number) => Ok(number.to_bits()),
        Err(e) => Err(e),
    }
}

/// The driver's `decode_double` takes the first eight bytes as the bits of a double-precision
/// number, and fails where there are fewer. The number is handed on as its bits.
#[verifier::external_body]
pub(crate) fn read_double(bytes: &[u8]) -> (r: Result<u64, std::io::Error>)
    ensures
        r is Ok <==> bytes@.len() >= 8,
        r is Ok ==> r->Ok_0 == be_nat(bytes@.take(8)),
{
    match decode_double(bytes) {
        Ok(number) => Ok(number.to_bits()),
        Err(e) => Err(e),
    }
}

/// The driver's `decode_inet` takes four or sixteen bytes as the octets of an address, and fails
/// on any other number of them. The address is handed on as its octets, which the driver's
/// `Value::new_normal` gives back.
#[verifier::external_body]
pub(crate) fn read_inet(bytes: &[u8]) -> (r: Result<Vec<u8>, std::io::Error>)
    ensures
        r is Ok <==> bytes@.len() == 4 || bytes@.len() == 16,
        r is Ok ==> r->Ok_0@ == bytes@,
{
    match decode_inet(bytes) {
        Ok(address) => Ok(Value::new_normal(address).body),
        Err(e) => Err(e),
    }
}

/// The driver's `decode_timeuuid` takes sixteen bytes as a unique identifier, and fails on any
/// other number of them. The identifier is handed on as its bytes.
#[verifier::external_body]
pub(crate) fn read_uuid(bytes: &[u8]) -> (r: Result<[u8; 16], uuid::Error>)
    ensures
        r is Ok <==> bytes@.len() == 16,
        r is Ok ==> r->Ok_0@ == bytes@,
{
    match decode_timeuuid(bytes) {
        Ok(id) => Ok(*id.as_bytes()),
        Err(e) => Err(e),
    }
}

/// The driver's `decode_list` reads a count and then that many cells, and fails where the bytes
/// end before they do. It first asks for room for the count, and panics on a count that is
/// negative or beyond what any allocator grants, at three machine words
/// a cell. A cell is handed on as its bytes.
#[verifier::external_body]
pub(crate) fn read_list(bytes: &[u8]) -> (r: Result<Vec<Option<Vec<u8>>>, std::io::Error>)
    requires
        bytes@.len() >= 4 ==> reservable(be_int(bytes@), words(3)),
    ensures
        r is Ok <==> list_cells(bytes@) is Some,
        r is Ok ==> Some(cells(r->Ok_0@)) == list_cells(bytes@),
{
    match decode_list(bytes) {
        Ok(items) => Ok(items.into_iter().map(CBytes::into_plain).collect()),
        Err(e) => Err(e),
    }
}

/// The driver's `decode_set` does for a set what `decode_list` does for a list.
#[verifier::external_body]
pub(crate) fn read_set(bytes: &[u8]) -> (r: Result<Vec<Option<Vec<u8>>>, std::io::Error>)
    requires
        bytes@.len() >= 4 ==> reservable(be_int(bytes@), words(3)),
    ensures
        r is Ok <==> list_cells(bytes@) is Some,
        r is Ok ==> Some(cells(r->Ok_0@)) == list_cells(bytes@),
{
    match decode_set(bytes) {
        Ok(items) => Ok(items.into_iter().map(CBytes::into_plain).collect()),
        Err(e) => Err(e),
    }
}

/// The driver's `decode_map` reads a count and then that many pairs of cells, and fails where the
/// bytes end before they do. It first asks for room for the count, and panics on a count that is
/// negative or beyond what any allocator grants, at six machine words a
/// pair. A cell is handed on as its bytes.
#[verifier::external_body]
pub(crate) fn read_map(bytes: &[u8]) -> (r: Result<
    Vec<(Option<Vec<u8>>, Option<Vec<u8>>)>,
    std::io::Error,
>)
    requires
        bytes@.len() >= 4 ==> reservable(be_int(bytes@), words(6)),
    ensures
        r is Ok <==> map_cells(bytes@) is Some,
        r is Ok ==> Some(cell_pairs(r->Ok_0@)) == map_cells(bytes@),
{
    match decode_map(bytes) {
        Ok(items) => Ok(items.into_iter().map(|(k, v)| (k.into_plain(), v.into_plain())).collect()),
        Err(e) => Err(e),
    }
}

/// The driver's `decode_tuple` reads as many cells as it is told to, and fails where the bytes end
/// before they do. It first asks for room for them, and panics on a number beyond what any
/// allocator grants. A cell is handed on as its bytes.
#[verifier::external_body]
pub(crate) fn read_tuple(bytes: &[u8], fields: usize) -> (r: Result<
    Vec<Option<Vec<u8>>>,
    std::io::Error,
>)
    requires
        reservable(fields as int, words(3)),
    ensures
        r is Ok <==> cells_of(bytes@, fields as nat) is Some,
        r is Ok ==> Some(cells(r->Ok_0@)) == cells_of(bytes@, fields as nat),
{
    match decode_tuple(bytes, fields) {
        Ok(items) => Ok(items.into_iter().map(CBytes::into_plain).collect()),
        Err(e) => Err(e),
    }
}

/// The driver's `decode_udt` reads as many cells as it is told to, takes a field that the bytes
/// end in or before as absent, and never fails. It first asks for room for the cells, and panics
/// on a number beyond what any allocator grants. A cell is handed on as its bytes.
/// Where in the bytes the reading goes on after a field that they end in is not said: the standard
/// library leaves it open.
#[verifier::external_body]
pub(crate) fn read_udt(bytes: &[u8], fields: usize) -> (r: Result<
    Vec<Option<Vec<u8>>>,
    std::io::Error,
>)
    requires
        reservable(fields as int, words(3)),
    ensures
        r is Ok,
        cells(r->Ok_0@) == udt_cells(bytes@, fields as nat),
        cells(r->Ok_0@) == udt_cells_of(
            bytes@,
            fields as nat,
            0,
            udt_cells(bytes@, fields as nat),
        ),
{
    match decode_udt(bytes, fields) {
        Ok(items) => Ok(items.into_iter().map(CBytes::into_plain).collect()),
        Err(e) => Err(e),
    }
}

/// The driver's `CString::as_plain` gives the characters that the `CString` holds.
pub assume_specification[ cdrs::types::CString::as_plain ](name: &cdrs::types::CString) -> (r: String)
    ensures
        r@ == name_text(*name),
;

/// What `r` says of the columns and rows of a response.
pub open spec fn found(
    r: Result<Option<(Vec<WireColumn>, Vec<Vec<Option<Vec<u8>>>>)>, cdrs::error::Error>,
) -> Option<Option<(Seq<ColumnView>, Seq<Seq<Cell>>)>> {
    match r {
        Err(_) => None,
        Ok(None) => Some(None),
        Ok(Some((cols, rows))) => Some(Some((wire_columns(cols@), rows_of(rows@)))),
    }
}

/// Whether what was found in a response is what its layout says.
pub open spec fn agrees(
    found: Option<Option<(Seq<ColumnView>, Seq<Seq<Cell>>)>>,
    part: Option<Part<Option<(Seq<ColumnView>, Seq<Seq<Cell>>)>>>,
) -> bool {
    match part {
        Some(Part::Read(rows)) => found == Some(rows),
        Some(Part::Rejected) => found is None,
        Some(Part::Fault) => true,
        None => !(found matches Some(Some(_))),
    }
}

/// The driver's `ResponseBody::from`, with the driver's `Opcode::from` on the opcode: reads the body
/// of a response; and `ResponseBody::as_cols`, which gives the rows of a result of rows and nothing
/// of any other. The columns have the names and the types that are sent, the rows as many cells each
/// as there are columns. It panics on an opcode that is none of a response, on a column that it
/// cannot read and on a cell that it cannot read. A cell is handed on as its bytes. Which errors,
/// events, options and schema changes it can read is a function of the opcode and the body, and left
/// at that. Bodies that nest types deeper than the stack allows are not considered.
#[verifier::external_body]
pub(crate) fn read_response(opcode: u8, body: &[u8]) -> (r: Result<
    Option<(Vec<WireColumn>, Vec<Vec<Option<Vec<u8>>>>)>,
    cdrs::error::Error,
>)
    requires
        readable(opcode, body@),
    ensures
        found(r) == response_rows(opcode, body@),
        agrees(found(r), body_part(opcode, body@)),
{
    let plain = |row: &Vec<CBytes>| row.iter().map(CBytes::as_plain).collect();
    match ResponseBody::from(body, &Opcode::from(opcode)) {
        Ok(response) => Ok(
            response.as_cols().map(
                |all| (all.metadata.col_specs.clone(), all.rows_content.iter().map(plain).collect()),
            ),
        ),
        Err(e) => Err(e),
    }
}

} // verus!
