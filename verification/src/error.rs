//! Errors raised while reading or validating a document, and their
//! rendering as text.

use vstd::prelude::*;
use vstd::string::StringExecFns;
use crate::text::push_char;

verus! {

/// Everything that can go wrong while a document is read or validated.
#[derive(Debug)]
pub enum AamlError {
    /// A file named by a directive could not be read; holds its path.
    IoError(String),
    /// A line is neither a well-formed assignment nor a known directive.
    ParseError {
        /// Line number, counted from 1 (0 inside a directive's arguments).
        line: usize,
        /// The offending text.
        content: String,
        /// Why it was rejected.
        details: String,
    },
    /// A type or schema name is not registered.
    NotFound(String),
    /// A literal is malformed, outside any schema.
    InvalidValue(String),
    /// A value was rejected by a named type.
    InvalidType {
        ty: String,
        details: String,
    },
    /// A directive's argument is wrong or names something missing.
    DirectiveError(String, String),
    /// A field's value does not fit its declared type, or a required
    /// field is missing.
    SchemaValidationError {
        schema: String,
        field: String,
        ty: String,
        details: String,
    },
}

/// What an [`AamlError`] stands for in specifications.
pub enum ErrorModel {
    Io(Seq<char>),
    Parse { line: nat, content: Seq<char>, details: Seq<char> },
    NotFound(Seq<char>),
    InvalidValue(Seq<char>),
    InvalidType { ty: Seq<char>, details: Seq<char> },
    Directive(Seq<char>, Seq<char>),
    Schema { schema: Seq<char>, field: Seq<char>, ty: Seq<char>, details: Seq<char> },
}

impl View for AamlError {
    type V = ErrorModel;

    open spec fn view(&self) -> ErrorModel {
        match self {
            AamlError::IoError(p) => ErrorModel::Io(p@),
            AamlError::ParseError { line, content, details } => ErrorModel::Parse {
                line: *line as nat,
                content: content@,
                details: details@,
            },
            AamlError::NotFound(n) => ErrorModel::NotFound(n@),
            AamlError::InvalidValue(d) => ErrorModel::InvalidValue(d@),
            AamlError::InvalidType { ty, details } => ErrorModel::InvalidType {
                ty: ty@,
                details: details@,
            },
            AamlError::DirectiveError(c, d) => ErrorModel::Directive(c@, d@),
            AamlError::SchemaValidationError { schema, field, ty, details } => {
                ErrorModel::Schema {
                    schema: schema@,
                    field: field@,
                    ty: ty@,
                    details: details@,
                }
            },
        }
    }
}

/// The model of a result that carries no value.
pub open spec fn outcome(r: Result<(), AamlError>) -> Result<(), ErrorModel> {
    match r {
        Ok(_) => Ok(()),
        Err(e) => Err(e@),
    }
}

/// The character that stands for a digit below ten.
pub open spec fn digit_char(d: nat) -> char
    recommends
        d < 10,
{
    ((48 + d) as u8) as char
}

/// `n` written in decimal, without leading zeros.
pub open spec fn decimal(n: nat) -> Seq<char>
    decreases n,
{
    if n < 10 {
        seq![digit_char(n)]
    } else {
        decimal(n / 10).push(digit_char(n % 10))
    }
}

/// Appends `n` in decimal to `out`.
pub fn push_decimal(out: &mut String, n: usize)
    ensures
        final(out)@ == old(out)@ + decimal(n as nat),
    decreases n,
{
    if n >= 10 {
        push_decimal(out, n / 10);
    }
    let d: u8 = (n % 10) as u8;
    push_char(out, (48 + d) as char);
    proof {
        if n >= 10 {
            assert(final(out)@ =~= old(out)@ + decimal(n as nat));
        } else {
            assert(final(out)@ =~= old(out)@ + decimal(n as nat));
        }
    }
}

impl ErrorModel {
    /// The text shown for an error.
    pub open spec fn message(self) -> Seq<char> {
        match self {
            ErrorModel::Io(p) => "IO Error: "@ + p,
            ErrorModel::Parse { line, content, details } => "Parse Error at line "@ + decimal(line)
                + ": '"@ + content + "'. Reason: "@ + details,
            ErrorModel::NotFound(k) => "Key not found: '"@ + k + "'"@,
            ErrorModel::InvalidValue(d) => "Invalid value: "@ + d,
            ErrorModel::InvalidType { ty, details } => "Invalid type '"@ + ty
                + "': "@ + details,
            ErrorModel::Directive(c, d) => "Directive '@"@ + c + "' error: "@ + d,
            ErrorModel::Schema { schema, field, ty, details } => "Schema '"@ + schema
                + "' validation error: field '"@ + field + "' (type '"@ + ty + "') — "@
                + details,
        }
    }
}

impl AamlError {
    /// Renders the error as a line of text.
    pub fn to_string(&self) -> (r: String)
        ensures
            r@ == self@.message(),
    {
        match self {
            AamlError::IoError(p) => {
                let mut out = String::from_str("IO Error: ");
                out.append(p.as_str());
                out
            },
            AamlError::ParseError { line, content, details } => {
                let mut out = String::from_str("Parse Error at line ");
                push_decimal(&mut out, *line);
                out.append(": '");
                out.append(content.as_str());
                out.append("'. Reason: ");
                out.append(details.as_str());
                out
            },
            AamlError::NotFound(k) => {
                let mut out = String::from_str("Key not found: '");
                out.append(k.as_str());
                out.append("'");
                out
            },
            AamlError::InvalidValue(d) => {
                let mut out = String::from_str("Invalid value: ");
                out.append(d.as_str());
                out
            },
            AamlError::InvalidType { ty, details } => {
                let mut out = String::from_str("Invalid type '");
                out.append(ty.as_str());
                out.append("': ");
                out.append(details.as_str());
                out
            },
            AamlError::DirectiveError(c, d) => {
                let mut out = String::from_str("Directive '@");
                out.append(c.as_str());
                out.append("' error: ");
                out.append(d.as_str());
                out
            },
            AamlError::SchemaValidationError { schema, field, ty, details } => {
                let mut out = String::from_str("Schema '");
                out.append(schema.as_str());
                out.append("' validation error: field '");
                out.append(field.as_str());
                out.append("' (type '");
                out.append(ty.as_str());
                out.append("') — ");
                out.append(details.as_str());
                out
            },
        }
    }
}

} // verus!
