//! The `BadRequest` detail value: an ordered list of field violations, with
//! incremental construction and the envelope conversion operations.

use vstd::prelude::*;

use crate::any::Any;
use crate::any::DecodeError;
use crate::any::EncodeError;
use crate::wire::decode_bad_request;
use crate::wire::enc_bad_request;
use crate::wire::encodable;
use crate::wire::encode_bad_request;
use crate::wire::parse_bad_request;

verus! {

/// One field-level validation failure: the (dotted) name of the offending
/// field and a human-readable description.
#[derive(Clone, Debug)]
pub struct FieldViolation {
    pub field: String,
    pub description: String,
}

/// Ghost image of a [`FieldViolation`]: its two strings as character
/// sequences.
pub struct FieldViolationView {
    pub field: Seq<char>,
    pub description: Seq<char>,
}

impl View for FieldViolation {
    type V = FieldViolationView;

    open spec fn view(&self) -> FieldViolationView {
        FieldViolationView { field: self.field@, description: self.description@ }
    }
}

impl DeepView for FieldViolation {
    type V = FieldViolationView;

    open spec fn deep_view(&self) -> FieldViolationView {
        self.view()
    }
}

/// A request-validation failure: zero or more field violations, kept in the
/// exact order they were added (no deduplication, no sorting).
#[derive(Clone, Debug)]
pub struct BadRequest {
    pub field_violations: Vec<FieldViolation>,
}

impl View for BadRequest {
    type V = Seq<FieldViolationView>;

    open spec fn view(&self) -> Seq<FieldViolationView> {
        self.field_violations.deep_view()
    }
}

impl BadRequest {
    /// The fixed type identifier of the `BadRequest` schema inside an
    /// envelope.
    pub const TYPE_URL: &'static str = "type.googleapis.com/google.rpc.BadRequest";

    /// A new instance with zero violations.
    pub fn empty() -> (r: Self)
        ensures
            r@ =~= Seq::<FieldViolationView>::empty(),
    {
        BadRequest { field_violations: Vec::new() }
    }

    /// A new instance holding exactly one violation built from the given
    /// field name and description.
    pub fn with_violation(field: &str, violation: &str) -> (r: Self)
        ensures
            r@ =~= seq![(FieldViolationView { field: field@, description: violation@ })],
    {
        let mut field_violations: Vec<FieldViolation> = Vec::new();
        field_violations.push(
            FieldViolation { field: field.to_owned(), description: violation.to_owned() },
        );
        BadRequest { field_violations }
    }

    /// Appends one new violation to the end of the sequence; returns a
    /// reference to the mutated instance so that appends can be chained.
    pub fn add_violation(&mut self, field: &str, violation: &str) -> (r: &mut Self)
        ensures
            (*r)@ =~= old(self)@.push(
                (FieldViolationView { field: field@, description: violation@ }),
            ),
            *final(self) == *final(r),
    {
        self.field_violations.push(
            FieldViolation { field: field.to_owned(), description: violation.to_owned() },
        );
        self
    }

    /// True iff the violation sequence is non-empty.
    pub fn has_violations(&self) -> (r: bool)
        ensures
            r == (self@.len() != 0),
    {
        !self.field_violations.is_empty()
    }

    /// Consumes the value and produces its envelope: `type_url` is always
    /// the fixed `BadRequest` constant, whatever the content, and `value` is
    /// exactly the schema encoding of the violations. This codec's byte
    /// serialization cannot fail, so the result is always `Ok`; the `Result`
    /// shape is the conversion contract's.
    pub fn into_any(self) -> (r: Result<Any, EncodeError>)
        ensures
            r matches Ok(a) && a.type_url@ == BadRequest::TYPE_URL@ && a.value@
                == enc_bad_request(self@),
            encodable(self@),
    {
        let value: Vec<u8> = encode_bad_request(&self);
        Ok(Any { type_url: BadRequest::TYPE_URL.to_owned(), value })
    }

    /// Reconstructs a value from the envelope's bytes according to the
    /// `BadRequest` schema. The envelope's `type_url` is not consulted: the
    /// caller is assumed to have dispatched on it already. Fails with
    /// `DecodeError` exactly when the bytes are not a well-formed encoding
    /// of the schema, and yields no partial value when it does.
    pub fn from_any(any: Any) -> (r: Result<Self, DecodeError>)
        ensures
            match parse_bad_request(any.value@) {
                Some(vs) => r matches Ok(br) && br@ == vs,
                None => r matches Err(e) && e == DecodeError,
            },
    {
        decode_bad_request(&any.value)
    }
}

} // verus!
