//! Responses of a server.

use vstd::prelude::*;

use crate::columns::to_columns;
use crate::driver::{agrees, read_response, response_rows};
use crate::layout::{body_part, is_readable, readable};
use crate::rows::{each_row, process_rows, process_rows_in_turn, rows_in_turn};
use crate::types::{ColMap, DecodeError};

verus! {

/// Why a response could not be read.
#[derive(Debug)]
pub struct ResponseError {
    /// What the driver says.
    pub error: cdrs::error::Error,
}

/// Decodes the rows of a response, each on its own. There is nothing in a response without rows.
/// `None` stands for a body that the driver panics on.
pub fn process_response(opcode: u8, body: &[u8]) -> (r: Option<
    Result<Option<Vec<Option<Result<ColMap, DecodeError>>>>, ResponseError>,
>)
    ensures
        r is None <==> !readable(opcode, body@),
        r is Some ==> agrees(response_rows(opcode, body@), body_part(opcode, body@)),
        match r {
            None => true,
            Some(Err(_)) => response_rows(opcode, body@) is None,
            Some(Ok(None)) => response_rows(opcode, body@) matches Some(None),
            Some(Ok(Some(decoded))) => match response_rows(opcode, body@) {
                Some(Some((cols, rows))) => each_row(decoded@, cols, rows),
                _ => false,
            },
        },
{
    if !is_readable(opcode, body) {
        return None;
    }
    match read_response(opcode, body) {
        Err(error) => Some(Err(ResponseError { error })),
        Ok(None) => Some(Ok(None)),
        Ok(Some((cols, rows))) => Some(Ok(Some(process_rows(&to_columns(&cols), &rows)))),
    }
}

/// Decodes the rows of a response in turn, up to the first that cannot be decoded. There is nothing
/// in a response without rows. `None` stands for a body that the driver panics on.
pub fn process_response_in_turn(opcode: u8, body: &[u8]) -> (r: Option<
    Result<Option<(Vec<ColMap>, Option<Option<DecodeError>>)>, ResponseError>,
>)
    ensures
        r is None <==> !readable(opcode, body@),
        r is Some ==> agrees(response_rows(opcode, body@), body_part(opcode, body@)),
        match r {
            None => true,
            Some(Err(_)) => response_rows(opcode, body@) is None,
            Some(Ok(None)) => response_rows(opcode, body@) matches Some(None),
            Some(Ok(Some((decoded, trouble)))) => match response_rows(opcode, body@) {
                Some(Some((cols, rows))) => rows_in_turn(decoded@, trouble, cols, rows),
                _ => false,
            },
        },
{
    if !is_readable(opcode, body) {
        return None;
    }
    match read_response(opcode, body) {
        Err(error) => Some(Err(ResponseError { error })),
        Ok(None) => Some(Ok(None)),
        Ok(Some((cols, rows))) => Some(
            Ok(Some(process_rows_in_turn(&to_columns(&cols), &rows))),
        ),
    }
}

} // verus!
