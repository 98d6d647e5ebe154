//! Error values of the library.

use crate::language_patch::{Area, Kind};
use vstd::prelude::*;

verus! {

/// A binary layout assumption was violated while decoding.
#[derive(Clone, Copy, Debug, PartialEq, Eq, Structural)]
pub enum FormatError {
    /// The index buffer ended before a declared field or record was complete.
    TruncatedInput,
    /// A row buffer ended before a declared field was complete.
    TruncatedRow,
    /// A varint ran past the groups its width allows, or its source ended
    /// before the chain did.
    MalformedVarint,
}

/// A value cannot be written in the row format.
#[derive(Clone, Copy, Debug, PartialEq, Eq, Structural)]
pub enum EncodeError {
    /// A string is longer than its one-byte length prefix can say, or a
    /// sequence has more items than its count can say.
    FieldTooLong,
}

/// A required key was not present.
#[derive(Clone, Copy, Debug, PartialEq, Eq, Structural)]
pub enum LookupError {
    /// No entry of the index carries the hash.
    HashNotFound,
    /// No row is of the area and kind.
    RowNotFound { area: Area, kind: Kind },
}

/// A payload does not fit the slot it is meant for.
#[derive(Clone, Copy, Debug, PartialEq, Eq, Structural)]
pub enum CapacityError {
    /// The payload is longer than the slot.
    PayloadTooLarge,
}

impl FormatError {
    /// The failure in words.
    pub fn message(&self) -> (text: &'static str)
        ensures
            text == match *self {
                FormatError::TruncatedInput => "the index ends before a declared field or record",
                FormatError::TruncatedRow => "the table ends before a declared field",
                FormatError::MalformedVarint => "a count is malformed",
            },
    {
        match self {
            FormatError::TruncatedInput => "the index ends before a declared field or record",
            FormatError::TruncatedRow => "the table ends before a declared field",
            FormatError::MalformedVarint => "a count is malformed",
        }
    }
}

impl EncodeError {
    /// The failure in words.
    pub fn message(&self) -> (text: &'static str)
        ensures
            text == "a string or a list is too long to be written",
    {
        match self {
            EncodeError::FieldTooLong => "a string or a list is too long to be written",
        }
    }
}

impl CapacityError {
    /// The failure in words.
    pub fn message(&self) -> (text: &'static str)
        ensures
            text == "the table no longer fits the place it was read from",
    {
        match self {
            CapacityError::PayloadTooLarge => "the table no longer fits the place it was read from",
        }
    }
}

impl LookupError {
    /// The failure in words. Which row is missing is in the error itself.
    pub fn message(&self) -> (text: &'static str)
        ensures
            text == match *self {
                LookupError::HashNotFound => "the index does not list the table",
                LookupError::RowNotFound { .. } => "the table lacks a row",
            },
    {
        match self {
            LookupError::HashNotFound => "the index does not list the table",
            LookupError::RowNotFound { .. } => "the table lacks a row",
        }
    }
}

} // verus!
