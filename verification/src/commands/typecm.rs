//! The `@type` directive: `@type alias = definition`.
//!
//! A definition that holds `::` names a built-in module type, any
//! other a primitive type. Nothing is looked up when the alias is
//! registered: a wrong definition shows when a value is checked.

use vstd::prelude::*;
use vstd::string::StringExecFns;
use vstd::string::StrSliceExecFns;
use crate::aaml::AAML;
use crate::aaml::merge::type_directive_spec;
use crate::error::{AamlError, ErrorModel, outcome};
use crate::text::{
    chars_of, find_char, find_in, find_text, index_of_char, trim, trim_str,
};
use crate::types::primitive_type::{PrimitiveType, primitive_check, primitive_named};
use crate::types::{
    BuiltinModel, BuiltinType, Type, check_builtin, resolve_builtin, resolve_builtin_spec,
    validate_builtin,
};

verus! {

/// A type as `@type` registers it.
#[derive(Debug)]
pub enum TypeDefinition {
    /// A primitive type, by name (`i32`, `bool`, ...).
    Primitive(String),
    /// A name that stands for no concrete type: every value fits.
    Alias(String),
    /// A built-in module path (`math::vector3`, ...).
    Builtin(String),
}

/// What a [`TypeDefinition`] stands for in specifications.
pub enum TypeModel {
    Primitive(Seq<char>),
    Alias(Seq<char>),
    Builtin(Seq<char>),
}

impl View for TypeDefinition {
    type V = TypeModel;

    open spec fn view(&self) -> TypeModel {
        match self {
            TypeDefinition::Primitive(n) => TypeModel::Primitive(n@),
            TypeDefinition::Alias(n) => TypeModel::Alias(n@),
            TypeDefinition::Builtin(n) => TypeModel::Builtin(n@),
        }
    }
}

/// The primitive type that represents a built-in type best.
pub open spec fn builtin_base(b: BuiltinModel) -> PrimitiveType {
    match b {
        BuiltinModel::Primitive(p) => p,
        BuiltinModel::Math(_) => PrimitiveType::F64,
        BuiltinModel::Time(_) => PrimitiveType::F64,
        BuiltinModel::Physics(_) => PrimitiveType::F64,
        BuiltinModel::List(_) => PrimitiveType::String,
    }
}

/// The primitive type that represents a registered type best; a
/// definition that resolves to nothing counts as a string.
pub open spec fn type_base(t: TypeModel) -> PrimitiveType {
    match t {
        TypeModel::Builtin(path) => match resolve_builtin_spec(path) {
            Ok(b) => builtin_base(b),
            Err(_) => PrimitiveType::String,
        },
        TypeModel::Primitive(name) => match primitive_named(name) {
            Some(p) => p,
            None => PrimitiveType::String,
        },
        TypeModel::Alias(_) => PrimitiveType::String,
    }
}

/// The verdict of a registered type on `value`. The definition is
/// resolved now; one that names nothing fails with that name.
pub open spec fn type_check(t: TypeModel, value: Seq<char>) -> Result<(), ErrorModel> {
    match t {
        TypeModel::Builtin(path) => match resolve_builtin_spec(path) {
            Ok(b) => check_builtin(b, value),
            Err(e) => Err(e),
        },
        TypeModel::Primitive(name) => match primitive_named(name) {
            Some(p) => primitive_check(p, value),
            None => Err(ErrorModel::NotFound(name)),
        },
        TypeModel::Alias(_) => Ok(()),
    }
}

impl BuiltinType {
    /// The primitive type that represents this type best.
    pub fn base_type(&self) -> (r: PrimitiveType)
        ensures
            r == builtin_base(self@),
    {
        match self {
            BuiltinType::Primitive(p) => *p,
            BuiltinType::Math(_) => PrimitiveType::F64,
            BuiltinType::Time(_) => PrimitiveType::F64,
            BuiltinType::Physics(_) => PrimitiveType::F64,
            BuiltinType::List(_) => PrimitiveType::String,
        }
    }
}

impl TypeDefinition {
    /// A copy of the definition.
    pub fn duplicate(&self) -> (r: Self)
        ensures
            r@ == self@,
    {
        match self {
            TypeDefinition::Primitive(n) => TypeDefinition::Primitive(n.clone()),
            TypeDefinition::Alias(n) => TypeDefinition::Alias(n.clone()),
            TypeDefinition::Builtin(n) => TypeDefinition::Builtin(n.clone()),
        }
    }
}

impl Type for TypeDefinition {
    open spec fn named(name: Seq<char>) -> Result<Self, ErrorModel> {
        Err(ErrorModel::NotFound("TypeDefinition::from_name not supported"@))
    }

    open spec fn base(&self) -> PrimitiveType {
        type_base(self@)
    }

    open spec fn check(&self, value: Seq<char>) -> Result<(), ErrorModel> {
        type_check(self@, value)
    }

    fn from_name(name: &str) -> (r: Result<Self, AamlError>) {
        Err(AamlError::NotFound(String::from_str("TypeDefinition::from_name not supported")))
    }

    fn base_type(&self) -> (r: PrimitiveType) {
        match self {
            TypeDefinition::Builtin(path) => match resolve_builtin(path.as_str()) {
                Ok(b) => b.base_type(),
                Err(_) => PrimitiveType::String,
            },
            TypeDefinition::Primitive(name) => match PrimitiveType::from_name(name.as_str()) {
                Ok(p) => p,
                Err(_) => PrimitiveType::String,
            },
            TypeDefinition::Alias(_) => PrimitiveType::String,
        }
    }

    fn validate(&self, value: &str) -> (r: Result<(), AamlError>) {
        match self {
            TypeDefinition::Builtin(path) => match resolve_builtin(path.as_str()) {
                Ok(b) => validate_builtin(&b, value),
                Err(e) => Err(e),
            },
            TypeDefinition::Primitive(name) => match PrimitiveType::from_name(name.as_str()) {
                Ok(p) => p.validate(value),
                Err(e) => Err(e),
            },
            TypeDefinition::Alias(_) => Ok(()),
        }
    }
}

/// An error of the `@type` directive; it carries the arguments and no
/// line.
pub open spec fn type_error(args: Seq<char>, details: Seq<char>) -> ErrorModel {
    ErrorModel::Parse { line: 0, content: args, details }
}

/// The alias and the definition that a `@type` argument declares.
pub open spec fn parse_type_spec(args: Seq<char>) -> Result<(Seq<char>, TypeModel), ErrorModel> {
    let eq = find_char(args, '=', 0);
    if eq >= args.len() {
        Err(type_error(args, "Type definition must be in the format 'name = definition'"@))
    } else {
        let name = trim(args.take(eq));
        let definition = trim(args.skip(eq + 1));
        if name.len() == 0 {
            Err(type_error(args, "Type name cannot be empty"@))
        } else if definition.len() == 0 {
            Err(type_error(args, "Type definition cannot be empty"@))
        } else if find_text(definition, "::"@, 0) < definition.len() {
            Ok((name, TypeModel::Builtin(definition)))
        } else {
            Ok((name, TypeModel::Primitive(definition)))
        }
    }
}

/// Handler of the `@type` directive.
#[derive(Clone, Copy, Debug, PartialEq, Eq, Structural)]
pub struct TypeCommand;

impl TypeCommand {
    /// The directive's name.
    pub fn name(&self) -> (r: &'static str)
        ensures
            r@ == "type"@,
    {
        "type"
    }

    /// Reads `alias = definition`.
    pub fn parse(args: &str) -> (r: Result<(String, TypeDefinition), AamlError>)
        ensures
            match r {
                Ok((name, def)) => parse_type_spec(args@) == Ok::<_, ErrorModel>((name@, def@)),
                Err(e) => parse_type_spec(args@) == Err::<(Seq<char>, TypeModel), _>(e@),
            },
    {
        let cs = chars_of(args);
        let n: usize = cs.len();
        let eq = index_of_char(cs.as_slice(), '=', 0);
        if eq >= n {
            return Err(
                AamlError::ParseError {
                    line: 0,
                    content: String::from_str(args),
                    details: String::from_str(
                        "Type definition must be in the format 'name = definition'",
                    ),
                },
            );
        }
        proof {
            assert(args@.subrange(0, eq as int) =~= args@.take(eq as int));
            assert(args@.subrange(eq + 1, n as int) =~= args@.skip(eq + 1));
        }
        let name = trim_str(args.substring_char(0, eq));
        let definition = trim_str(args.substring_char(eq + 1, n));
        if name.unicode_len() == 0 {
            return Err(
                AamlError::ParseError {
                    line: 0,
                    content: String::from_str(args),
                    details: String::from_str("Type name cannot be empty"),
                },
            );
        }
        if definition.unicode_len() == 0 {
            return Err(
                AamlError::ParseError {
                    line: 0,
                    content: String::from_str(args),
                    details: String::from_str("Type definition cannot be empty"),
                },
            );
        }
        let ds = chars_of(definition);
        let sep = chars_of("::");
        let at = find_in(ds.as_slice(), sep.as_slice(), 0);
        let def = if at < ds.len() {
            TypeDefinition::Builtin(String::from_str(definition))
        } else {
            TypeDefinition::Primitive(String::from_str(definition))
        };
        Ok((String::from_str(name), def))
    }

    /// Reads `alias = definition` and registers the type in `aaml`, in
    /// place of any type of the same name.
    pub fn execute(&self, aaml: &mut AAML, args: &str) -> (r: Result<(), AamlError>)
        ensures
            final(aaml)@ == type_directive_spec(old(aaml)@, args@).doc,
            outcome(r) == type_directive_spec(old(aaml)@, args@).result,
    {
        match TypeCommand::parse(args) {
            Ok((name, def)) => {
                aaml.register_type(name, def);
                Ok(())
            },
            Err(e) => Err(e),
        }
    }
}

} // verus!
