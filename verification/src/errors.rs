//! Error types for the wire codec.
//!
//! Decoding can fail on malformed text, on a number that does not fit its
//! field, on an enumeration code outside the fixed code tables, on a
//! duplicated child element, or on a missing mandatory field.  Encoding a
//! well-formed list cannot fail; `EncodeError` is reserved for writer-level
//! failures and is never produced by this crate.
use vstd::prelude::*;

verus! {

/// Names a field of the wire record, for error reporting.
#[derive(Clone, Copy, Debug, PartialEq, Eq, Structural)]
pub enum WireField {
    ItemType,
    ItemId,
    Color,
    MaxPrice,
    MinQty,
    QtyFilled,
    Condition,
    Remarks,
    Notify,
    WantedShow,
    WantedListId,
}

/// Why a wire payload was rejected.
#[derive(Clone, Debug, PartialEq, Eq)]
pub enum DecodeError {
    /// The surrounding tag structure or text syntax is broken.
    Malformed,
    /// A numeric field holds no number, or one out of its range.
    InvalidNumber { field: WireField },
    /// An enumeration field holds a code outside its table.
    InvalidCode { field: WireField, raw: String },
    /// A price field is not a decimal with at most two fractional digits.
    InvalidPrice { raw: String },
    /// A child element occurs twice in one record.
    DuplicateField { field: WireField },
    /// A mandatory child element is absent.
    MissingField { field: WireField },
}

/// Mathematical image of a `DecodeError`.
#[verifier::ext_equal]
pub enum DecodeErrorView {
    Malformed,
    InvalidNumber { field: WireField },
    InvalidCode { field: WireField, raw: Seq<char> },
    InvalidPrice { raw: Seq<char> },
    DuplicateField { field: WireField },
    MissingField { field: WireField },
}

impl View for DecodeError {
    type V = DecodeErrorView;

    open spec fn view(&self) -> DecodeErrorView {
        match self {
            DecodeError::Malformed => DecodeErrorView::Malformed,
            DecodeError::InvalidNumber { field } => DecodeErrorView::InvalidNumber {
                field: *field,
            },
            DecodeError::InvalidCode { field, raw } => DecodeErrorView::InvalidCode {
                field: *field,
                raw: raw@,
            },
            DecodeError::InvalidPrice { raw } => DecodeErrorView::InvalidPrice { raw: raw@ },
            DecodeError::DuplicateField { field } => DecodeErrorView::DuplicateField {
                field: *field,
            },
            DecodeError::MissingField { field } => DecodeErrorView::MissingField { field: *field },
        }
    }
}

/// Lifts a decode result to its mathematical image, so that contracts can
/// compare it against a specification-level result.
pub open spec fn res_view<T>(r: Result<T, DecodeError>) -> Result<T, DecodeErrorView> {
    match r {
        Ok(t) => Ok(t),
        Err(e) => Err(e@),
    }
}

/// Reserved for writer-level failures; never produced by this crate.
#[derive(Clone, Copy, Debug, PartialEq, Eq, Structural)]
pub struct EncodeError;

} // verus!
