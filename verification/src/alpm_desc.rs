//! The `%KEY%`/value description-format codec: a serializer and a
//! deserializer for the line-oriented key/value format the package databases
//! are written in, working against a small structured-data model so that any
//! flat record can be read and written.

pub mod de;
pub mod de_error;
pub mod record;
pub mod round_trip;
pub mod ser;
pub mod ser_error;
