//! Typed values read from a field's rendered text.

use vstd::prelude::*;
use crate::numeric::{float_text, i64_text, is_float_text, parse_i64};

verus! {

/// A field's value, typed by what its rendered text reads as.
///
/// A float keeps its text: the library holds no floating-point number, and
/// the text is read as an `f64` where the value is written out.
#[derive(Clone, Debug, PartialEq)]
pub enum TypedValue {
    Integer(i64),
    Float(String),
    Text(String),
}

/// The mathematical value of a `TypedValue`.
pub enum TypedView {
    Integer(i64),
    Float(Seq<char>),
    Text(Seq<char>),
}

impl View for TypedValue {
    type V = TypedView;

    open spec fn view(&self) -> TypedView {
        match self {
            TypedValue::Integer(i) => TypedView::Integer(*i),
            TypedValue::Float(s) => TypedView::Float(s@),
            TypedValue::Text(s) => TypedView::Text(s@),
        }
    }
}

/// The value that the text `s` reads as: an integer where it reads as an
/// `i64`, else a float where it reads as an `f64`, else the text itself.
pub open spec fn coerce(s: Seq<char>) -> TypedView {
    match i64_text(s) {
        Some(i) => TypedView::Integer(i),
        None => if float_text(s) {
            TypedView::Float(s)
        } else {
            TypedView::Text(s)
        },
    }
}

/// Types a field's rendered text. Never fails: text that reads as no number
/// is kept as it is.
pub fn serialise_value(rendered: &str) -> (r: TypedValue)
    ensures
        r@ == coerce(rendered@),
{
    match parse_i64(rendered) {
        Some(i) => TypedValue::Integer(i),
        None => if is_float_text(rendered) {
            TypedValue::Float(rendered.to_owned())
        } else {
            TypedValue::Text(rendered.to_owned())
        },
    }
}

} // verus!
