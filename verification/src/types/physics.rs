//! `physics::` types: measured quantities.

use vstd::prelude::*;
use vstd::string::StringExecFns;
use crate::error::{AamlError, ErrorModel};
use crate::text::{join3, str_eq};
use crate::types::Type;
use crate::types::grammar::{is_non_negative_float, text_is_non_negative_float};
use crate::types::primitive_type::PrimitiveType;

verus! {

/// A physical quantity.
#[derive(Clone, Copy, Debug, PartialEq, Eq, Structural)]
pub enum PhysicsTypes {
    /// A mass: a number that is zero or more.
    Kilogram,
}

/// The physics type that `name` denotes.
pub open spec fn physics_named(name: Seq<char>) -> Option<PhysicsTypes> {
    if name == "kilogram"@ {
        Some(PhysicsTypes::Kilogram)
    } else {
        None
    }
}

/// The verdict of a physics type on `value`.
pub open spec fn physics_check(p: PhysicsTypes, value: Seq<char>) -> Result<(), ErrorModel> {
    if is_non_negative_float(value) {
        Ok(())
    } else {
        Err(
            ErrorModel::InvalidValue(
                "Invalid Kilogram '"@ + value + "': expected a non-negative number"@,
            ),
        )
    }
}

impl Type for PhysicsTypes {
    open spec fn named(name: Seq<char>) -> Result<Self, ErrorModel> {
        match physics_named(name) {
            Some(p) => Ok(p),
            None => Err(ErrorModel::NotFound(name)),
        }
    }

    open spec fn base(&self) -> PrimitiveType {
        PrimitiveType::F64
    }

    open spec fn check(&self, value: Seq<char>) -> Result<(), ErrorModel> {
        physics_check(*self, value)
    }

    fn from_name(name: &str) -> (r: Result<Self, AamlError>) {
        if str_eq(name, "kilogram") {
            Ok(PhysicsTypes::Kilogram)
        } else {
            Err(AamlError::NotFound(String::from_str(name)))
        }
    }

    fn base_type(&self) -> (r: PrimitiveType) {
        PrimitiveType::F64
    }

    fn validate(&self, value: &str) -> (r: Result<(), AamlError>) {
        if text_is_non_negative_float(value) {
            Ok(())
        } else {
            Err(
                AamlError::InvalidValue(
                    join3("Invalid Kilogram '", value, "': expected a non-negative number"),
                ),
            )
        }
    }
}

} // verus!
