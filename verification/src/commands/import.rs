//! The `@import` directive: `@import path`.
//!
//! The named file is merged into the document that imports it, so a
//! key it assigns replaces the value the document had: the last
//! assignment wins.

use vstd::prelude::*;
use vstd::string::StringExecFns;
use vstd::string::StrSliceExecFns;
use crate::aaml::AAML;
use crate::aaml::merge::import_spec;
use crate::aaml::parsing::unwrap_quotes;
use crate::error::{AamlError, outcome};
use crate::table::{Table, lemma_without_shorter};
use crate::text::trim_str;

verus! {

/// Handler of the `@import` directive.
#[derive(Clone, Copy, Debug, PartialEq, Eq, Structural)]
pub struct ImportCommand;

impl ImportCommand {
    /// The directive's name.
    pub fn name(&self) -> (r: &'static str)
        ensures
            r@ == "import"@,
    {
        "import"
    }

    /// Merges the file that `args` names into `aaml`. The path may
    /// stand in quotes.
    pub fn execute(&self, aaml: &mut AAML, args: &str, files: &Table<String>) -> (r: Result<
        (),
        AamlError,
    >)
        ensures
            final(aaml)@ == import_spec(old(aaml)@, args@, files@).doc,
            outcome(r) == import_spec(old(aaml)@, args@, files@).result,
        decreases files@.len(), 0nat, 0nat,
    {
        let raw = trim_str(args);
        if raw.unicode_len() == 0 {
            return Err(
                AamlError::DirectiveError(
                    String::from_str("import"),
                    String::from_str("Import path cannot be empty"),
                ),
            );
        }
        let path = unwrap_quotes(raw);
        let text = match files.get(path) {
            Some(text) => text,
            None => {
                return Err(AamlError::IoError(String::from_str(path)));
            },
        };
        let rest = files.duplicate_without(path);
        proof {
            lemma_without_shorter(files@, path@);
        }
        aaml.merge_with(text.as_str(), &rest)
    }
}

} // verus!
