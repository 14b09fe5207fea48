//! Decoding of Cassandra responses and of the column values in them.

pub mod bodies;
pub mod bytes;
pub mod calendar;
pub mod collections;
pub mod columns;
pub mod decode;
pub mod driver;
pub mod floating;
pub mod keys;
pub mod laws;
pub mod layout;
pub mod meta;
pub mod model;
pub mod response;
pub mod rows;
pub mod sent;
pub mod text;
pub mod types;
pub mod values;
pub mod wholes;
