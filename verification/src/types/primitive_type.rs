//! The primitive types: `i32`, `f64`, `string`, `bool` and `color`.

use vstd::prelude::*;
use crate::error::{AamlError, ErrorModel};
use crate::text::{chars_of, join3, str_eq};
use crate::types::Type;
use crate::types::grammar::{is_float, is_int32, text_is_float, text_is_int32};

verus! {

/// A primitive type of the language.
#[derive(Clone, Copy, Debug, PartialEq, Eq, Structural)]
pub enum PrimitiveType {
    I32,
    F64,
    String,
    Bool,
    Color,
}

/// A hexadecimal digit.
pub open spec fn is_hex(c: char) -> bool {
    ('0' <= c && c <= '9') || ('a' <= c && c <= 'f') || ('A' <= c && c <= 'F')
}

/// A colour: `#` followed by 3, 4, 6 or 8 hexadecimal digits.
pub open spec fn is_color(s: Seq<char>) -> bool {
    &&& (s.len() == 4 || s.len() == 5 || s.len() == 7 || s.len() == 9)
    &&& s[0] == '#'
    &&& forall|i: int| 1 <= i < s.len() ==> is_hex(#[trigger] s[i])
}

/// `true` or `false`.
pub open spec fn is_bool(s: Seq<char>) -> bool {
    s == "true"@ || s == "false"@
}

/// The primitive type that `name` denotes.
pub open spec fn primitive_named(name: Seq<char>) -> Option<PrimitiveType> {
    if name == "i32"@ {
        Some(PrimitiveType::I32)
    } else if name == "f64"@ {
        Some(PrimitiveType::F64)
    } else if name == "string"@ {
        Some(PrimitiveType::String)
    } else if name == "bool"@ {
        Some(PrimitiveType::Bool)
    } else if name == "color"@ {
        Some(PrimitiveType::Color)
    } else {
        None
    }
}

/// Whether a primitive type takes `value`.
pub open spec fn primitive_accepts(p: PrimitiveType, value: Seq<char>) -> bool {
    match p {
        PrimitiveType::I32 => is_int32(value),
        PrimitiveType::F64 => is_float(value),
        PrimitiveType::String => true,
        PrimitiveType::Bool => is_bool(value),
        PrimitiveType::Color => is_color(value),
    }
}

/// What a primitive type expects, as said in its error.
pub open spec fn primitive_expects(p: PrimitiveType) -> Seq<char> {
    match p {
        PrimitiveType::I32 => "Expected a 32-bit integer, got '"@,
        PrimitiveType::F64 => "Expected a number, got '"@,
        PrimitiveType::String => "Expected a string, got '"@,
        PrimitiveType::Bool => "Expected 'true' or 'false', got '"@,
        PrimitiveType::Color => "Expected a color such as #ff6600, got '"@,
    }
}

/// The verdict of a primitive type on `value`.
pub open spec fn primitive_check(p: PrimitiveType, value: Seq<char>) -> Result<(), ErrorModel> {
    if primitive_accepts(p, value) {
        Ok(())
    } else {
        Err(ErrorModel::InvalidValue(primitive_expects(p) + value + "'"@))
    }
}

/// Whether `s` is a colour literal.
pub fn text_is_color(s: &str) -> (r: bool)
    ensures
        r == is_color(s@),
{
    let cs = chars_of(s);
    let n: usize = cs.len();
    if !(n == 4 || n == 5 || n == 7 || n == 9) {
        return false;
    }
    if cs[0] != '#' {
        return false;
    }
    let mut i: usize = 1;
    while i < n
        invariant
            1 <= i <= n,
            n == cs@.len(),
            cs@ == s@,
            forall|j: int| 1 <= j < i ==> is_hex(#[trigger] s@[j]),
        decreases n - i,
    {
        let c = cs[i];
        if !(('0' <= c && c <= '9') || ('a' <= c && c <= 'f') || ('A' <= c && c <= 'F')) {
            return false;
        }
        i += 1;
    }
    true
}

impl Type for PrimitiveType {
    open spec fn named(name: Seq<char>) -> Result<Self, ErrorModel> {
        match primitive_named(name) {
            Some(p) => Ok(p),
            None => Err(ErrorModel::NotFound(name)),
        }
    }

    open spec fn base(&self) -> PrimitiveType {
        *self
    }

    open spec fn check(&self, value: Seq<char>) -> Result<(), ErrorModel> {
        primitive_check(*self, value)
    }

    fn from_name(name: &str) -> (r: Result<Self, AamlError>) {
        if str_eq(name, "i32") {
            Ok(PrimitiveType::I32)
        } else if str_eq(name, "f64") {
            Ok(PrimitiveType::F64)
        } else if str_eq(name, "string") {
            Ok(PrimitiveType::String)
        } else if str_eq(name, "bool") {
            Ok(PrimitiveType::Bool)
        } else if str_eq(name, "color") {
            Ok(PrimitiveType::Color)
        } else {
            Err(AamlError::NotFound(String::from_str(name)))
        }
    }

    fn base_type(&self) -> (r: PrimitiveType) {
        *self
    }

    fn validate(&self, value: &str) -> (r: Result<(), AamlError>) {
        let (ok, expects) = match self {
            PrimitiveType::I32 => (text_is_int32(value), "Expected a 32-bit integer, got '"),
            PrimitiveType::F64 => (text_is_float(value), "Expected a number, got '"),
            PrimitiveType::String => (true, "Expected a string, got '"),
            PrimitiveType::Bool => (
                str_eq(value, "true") || str_eq(value, "false"),
                "Expected 'true' or 'false', got '",
            ),
            PrimitiveType::Color => (
                text_is_color(value),
                "Expected a color such as #ff6600, got '",
            ),
        };
        if ok {
            Ok(())
        } else {
            Err(AamlError::InvalidValue(join3(expects, value, "'")))
        }
    }
}

} // verus!
