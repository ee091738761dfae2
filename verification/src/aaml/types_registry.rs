//! Validation of a field against a type that was looked up beforehand.

use vstd::prelude::*;
use vstd::string::StringExecFns;
use super::validation::{fault_of, unknown_type};
use crate::commands::typecm::{TypeDefinition, TypeModel, type_check};
use crate::error::{AamlError, ErrorModel, outcome};
use crate::text::join3;
use crate::types::{Type, check_builtin, resolve_builtin, resolve_builtin_spec, validate_builtin};

verus! {

/// The verdict on `value` of the registered type, where there is one,
/// and of the built-in type named `ty` otherwise. A failure is
/// reported as a schema error that names the schema, the field and
/// the type.
pub open spec fn field_type_spec(
    registered: Option<TypeModel>,
    ty: Seq<char>,
    value: Seq<char>,
    schema: Seq<char>,
    field: Seq<char>,
) -> Result<(), ErrorModel> {
    let fault = match registered {
        Some(def) => fault_of(type_check(def, value)),
        None => match resolve_builtin_spec(ty) {
            Ok(b) => fault_of(check_builtin(b, value)),
            Err(_) => Some(unknown_type(ty)),
        },
    };
    match fault {
        None => Ok(()),
        Some(details) => Err(ErrorModel::Schema { schema, field, ty, details }),
    }
}

/// The view of an optional type definition.
pub open spec fn registered_view(r: Option<&TypeDefinition>) -> Option<TypeModel> {
    match r {
        Some(t) => Some(t@),
        None => None,
    }
}

/// Validates `value` against `registered` or, where nothing is
/// registered, against the built-in type named `ty`.
pub fn validate_field_type(
    registered: Option<&TypeDefinition>,
    ty: &str,
    value: &str,
    schema_name: &str,
    field: &str,
) -> (r: Result<(), AamlError>)
    ensures
        outcome(r) == field_type_spec(
            registered_view(registered),
            ty@,
            value@,
            schema_name@,
            field@,
        ),
{
    let verdict: Result<(), String> = match registered {
        Some(def) => match def.validate(value) {
            Ok(_) => Ok(()),
            Err(e) => Err(e.to_string()),
        },
        None => match resolve_builtin(ty) {
            Ok(b) => match validate_builtin(&b, value) {
                Ok(_) => Ok(()),
                Err(e) => Err(e.to_string()),
            },
            Err(_) => Err(join3("Unknown type '", ty, "'")),
        },
    };
    match verdict {
        Ok(_) => Ok(()),
        Err(details) => Err(
            AamlError::SchemaValidationError {
                schema: String::from_str(schema_name),
                field: String::from_str(field),
                ty: String::from_str(ty),
                details,
            },
        ),
    }
}

} // verus!
