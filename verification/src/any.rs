//! The type-tagged envelope and the two error kinds of the codec.

use vstd::prelude::*;

verus! {

/// A self-describing envelope pairing a type identifier with opaque encoded
/// bytes. `type_url` is a string constant unique to the detail kind whose
/// schema the `value` bytes follow; the envelope itself does not check that
/// the bytes conform — only a decode does.
#[derive(Clone, Debug)]
pub struct Any {
    pub type_url: String,
    pub value: Vec<u8>,
}

/// Raised when turning a detail value's wire representation into bytes fails.
#[derive(Clone, Debug, PartialEq, Eq)]
pub struct EncodeError;

/// Raised when bytes taken from an envelope are not a well-formed encoding of
/// the expected schema. Decoding is all-or-nothing: no partially populated
/// value accompanies this error.
#[derive(Clone, Debug, PartialEq, Eq)]
pub struct DecodeError;

} // verus!
