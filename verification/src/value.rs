//! A value that may not be known yet: cells hold no number while only the
//! shape of a circuit is being fixed.

use crate::field::{mul_mod, FieldElement};
use vstd::prelude::*;

verus! {

/// A field element, or the lack of one.
#[derive(Clone, Copy, Debug)]
pub enum Value {
    Unknown,
    Known(FieldElement),
}

impl View for Value {
    type V = Option<nat>;

    open spec fn view(&self) -> Option<nat> {
        match self {
            Value::Unknown => None,
            Value::Known(f) => Some(f.value()),
        }
    }
}

impl Value {
    /// The field element, where there is one, is canonical.
    pub open spec fn wf(&self) -> bool {
        match self {
            Value::Unknown => true,
            Value::Known(f) => f.wf(),
        }
    }

    /// A value that is there.
    pub fn known(f: FieldElement) -> (v: Self)
        ensures
            v == Value::Known(f),
    {
        Value::Known(f)
    }

    /// The lack of a value.
    pub fn unknown() -> (v: Self)
        ensures
            v == Value::Unknown,
    {
        Value::Unknown
    }

    /// Whether there is a field element.
    pub fn is_known(&self) -> (k: bool)
        ensures
            k == self@.is_some(),
    {
        match self {
            Value::Unknown => false,
            Value::Known(_) => true,
        }
    }

    /// The product, known where both factors are.
    pub fn mul(&self, rhs: &Value) -> (r: Self)
        requires
            self.wf(),
            rhs.wf(),
        ensures
            r.wf(),
            r@ == match (self@, rhs@) {
                (Some(a), Some(b)) => Some(mul_mod(a, b)),
                _ => None,
            },
    {
        match (self, rhs) {
            (Value::Known(a), Value::Known(b)) => Value::Known(a.mul(b)),
            _ => Value::Unknown,
        }
    }
}

} // verus!
