
use crate::field::FieldError;
use crate::typed_value::TypedValueError;
use crate::value::ValueError;
use vstd::prelude::*;

verus! {

/// The errors of the library, by layer.
#[derive(Clone, Copy, Debug, PartialEq, Eq, Structural)]
pub enum BsbError {
    Field(FieldError),
    ValueError(ValueError),
    TypedValueError(TypedValueError),
}

} // verus!
