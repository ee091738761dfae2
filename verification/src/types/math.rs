//! `math::` types: vectors and matrices of numbers.

use vstd::prelude::*;
use vstd::string::StringExecFns;
use crate::error::{AamlError, ErrorModel, decimal, push_decimal};
use crate::text::{split_chars, split_on, str_eq, texts, trim, trim_str};
use crate::types::Type;
use crate::types::grammar::{is_float, text_is_float};
use crate::types::primitive_type::PrimitiveType;

verus! {

/// A vector or a square matrix of numbers.
#[derive(Clone, Copy, Debug, PartialEq, Eq, Structural)]
pub enum MathTypes {
    Vector2,
    Vector3,
    Vector4,
    Matrix2x2,
    Matrix3x3,
    Matrix4x4,
}

/// The math type that `name` denotes.
pub open spec fn math_named(name: Seq<char>) -> Option<MathTypes> {
    if name == "vector2"@ {
        Some(MathTypes::Vector2)
    } else if name == "vector3"@ {
        Some(MathTypes::Vector3)
    } else if name == "vector4"@ {
        Some(MathTypes::Vector4)
    } else if name == "matrix2x2"@ {
        Some(MathTypes::Matrix2x2)
    } else if name == "matrix3x3"@ {
        Some(MathTypes::Matrix3x3)
    } else if name == "matrix4x4"@ {
        Some(MathTypes::Matrix4x4)
    } else {
        None
    }
}

/// How many numbers a value of the type holds.
pub open spec fn math_components(m: MathTypes) -> nat {
    match m {
        MathTypes::Vector2 => 2,
        MathTypes::Vector3 => 3,
        MathTypes::Vector4 => 4,
        MathTypes::Matrix2x2 => 4,
        MathTypes::Matrix3x3 => 9,
        MathTypes::Matrix4x4 => 16,
    }
}

/// `value` is `n` numbers with commas between them; white space
/// around a number does not count.
pub open spec fn is_number_list(value: Seq<char>, n: nat) -> bool {
    let parts = split_on(value, ',');
    parts.len() == n && forall|k: int|
        0 <= k < parts.len() ==> is_float(trim(#[trigger] parts[k]))
}

/// The verdict of a math type on `value`.
pub open spec fn math_check(m: MathTypes, value: Seq<char>) -> Result<(), ErrorModel> {
    if is_number_list(value, math_components(m)) {
        Ok(())
    } else {
        Err(
            ErrorModel::InvalidValue(
                "Expected "@ + decimal(math_components(m)) + " comma-separated numbers, got '"@
                    + value + "'"@,
            ),
        )
    }
}

/// Whether `value` is `n` numbers separated by commas.
pub fn text_is_number_list(value: &str, n: usize) -> (r: bool)
    ensures
        r == is_number_list(value@, n as nat),
{
    let parts = split_chars(value, ',');
    if parts.len() != n {
        return false;
    }
    let mut i: usize = 0;
    while i < n
        invariant
            i <= n,
            n == parts@.len(),
            texts(parts@) == split_on(value@, ','),
            forall|k: int| 0 <= k < i ==> is_float(trim(#[trigger] split_on(value@, ',')[k])),
        decreases n - i,
    {
        proof {
            assert(texts(parts@)[i as int] == parts@[i as int]@);
        }
        if !text_is_float(trim_str(parts[i].as_str())) {
            return false;
        }
        i += 1;
    }
    true
}

impl MathTypes {
    /// How many numbers a value of this type holds.
    pub fn components(&self) -> (r: usize)
        ensures
            r == math_components(*self),
    {
        match self {
            MathTypes::Vector2 => 2,
            MathTypes::Vector3 => 3,
            MathTypes::Vector4 => 4,
            MathTypes::Matrix2x2 => 4,
            MathTypes::Matrix3x3 => 9,
            MathTypes::Matrix4x4 => 16,
        }
    }
}

impl Type for MathTypes {
    open spec fn named(name: Seq<char>) -> Result<Self, ErrorModel> {
        match math_named(name) {
            Some(m) => Ok(m),
            None => Err(ErrorModel::NotFound(name)),
        }
    }

    open spec fn base(&self) -> PrimitiveType {
        PrimitiveType::F64
    }

    open spec fn check(&self, value: Seq<char>) -> Result<(), ErrorModel> {
        math_check(*self, value)
    }

    fn from_name(name: &str) -> (r: Result<Self, AamlError>) {
        if str_eq(name, "vector2") {
            Ok(MathTypes::Vector2)
        } else if str_eq(name, "vector3") {
            Ok(MathTypes::Vector3)
        } else if str_eq(name, "vector4") {
            Ok(MathTypes::Vector4)
        } else if str_eq(name, "matrix2x2") {
            Ok(MathTypes::Matrix2x2)
        } else if str_eq(name, "matrix3x3") {
            Ok(MathTypes::Matrix3x3)
        } else if str_eq(name, "matrix4x4") {
            Ok(MathTypes::Matrix4x4)
        } else {
            Err(AamlError::NotFound(String::from_str(name)))
        }
    }

    fn base_type(&self) -> (r: PrimitiveType) {
        PrimitiveType::F64
    }

    fn validate(&self, value: &str) -> (r: Result<(), AamlError>) {
        let n = self.components();
        if text_is_number_list(value, n) {
            Ok(())
        } else {
            let mut msg = String::from_str("Expected ");
            push_decimal(&mut msg, n);
            msg.append(" comma-separated numbers, got '");
            msg.append(value);
            msg.append("'");
            Err(AamlError::InvalidValue(msg))
        }
    }
}

} // verus!
