//! The directives of the language: `@import`, `@derive`, `@schema`
//! and `@type`.

use vstd::prelude::*;
use crate::aaml::AAML;
use crate::aaml::merge::execute_spec;
use crate::commands::derive::DeriveCommand;
use crate::commands::import::ImportCommand;
use crate::commands::schema::SchemaCommand;
use crate::commands::typecm::TypeCommand;
use crate::error::{AamlError, outcome};
use crate::table::Table;

pub mod derive;
pub mod import;
pub mod schema;
pub mod typecm;

verus! {

/// A directive handler, as a document registers it under its name.
#[derive(Clone, Copy, Debug, PartialEq, Eq, Structural)]
pub enum Command {
    Import(ImportCommand),
    Type(TypeCommand),
    Schema(SchemaCommand),
    Derive(DeriveCommand),
}

impl View for Command {
    type V = Command;

    open spec fn view(&self) -> Command {
        *self
    }
}

impl Command {
    /// The name that the directive is written with, after `@`.
    pub open spec fn name_spec(self) -> Seq<char> {
        match self {
            Command::Import(_) => "import"@,
            Command::Type(_) => "type"@,
            Command::Schema(_) => "schema"@,
            Command::Derive(_) => "derive"@,
        }
    }

    /// The directive name without the leading `@`.
    pub fn name(&self) -> (r: &'static str)
        ensures
            r@ == self.name_spec(),
    {
        match self {
            Command::Import(c) => c.name(),
            Command::Type(c) => c.name(),
            Command::Schema(c) => c.name(),
            Command::Derive(c) => c.name(),
        }
    }

    /// Runs the directive on its arguments.
    ///
    /// `args` is everything after the first white space behind the
    /// directive's name. `files` holds the text of each file that the
    /// directive may name.
    pub fn execute(&self, aaml: &mut AAML, args: &str, files: &Table<String>) -> (r: Result<
        (),
        AamlError,
    >)
        ensures
            final(aaml)@ == execute_spec(*self, old(aaml)@, args@, files@).doc,
            outcome(r) == execute_spec(*self, old(aaml)@, args@, files@).result,
        decreases files@.len(), 1nat, 0nat,
    {
        match self {
            Command::Import(c) => c.execute(aaml, args, files),
            Command::Derive(c) => c.execute(aaml, args, files),
            Command::Schema(c) => c.execute(aaml, args),
            Command::Type(c) => c.execute(aaml, args),
        }
    }
}

} // verus!
