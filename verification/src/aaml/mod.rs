//! The document: a map from keys to values, a registry of schemas, a
//! registry of types and a registry of directive handlers.

use vstd::prelude::*;
use vstd::string::StringExecFns;
use crate::commands::Command;
use crate::commands::derive::DeriveCommand;
use crate::commands::import::ImportCommand;
use crate::commands::schema::{SchemaCommand, SchemaDef, SchemaModel};
use crate::commands::typecm::{TypeCommand, TypeDefinition, TypeModel, type_check};
use crate::error::{AamlError, ErrorModel, outcome};
use crate::table::{Table, lookup, put, without};
use crate::types::{Type, check_builtin, resolve_builtin, resolve_builtin_spec, validate_builtin};

pub mod combine;
pub mod laws;
pub mod lookup;
pub mod merge;
pub mod parsing;
pub mod types_registry;
pub mod validation;

verus! {

/// A document under construction or in use.
#[derive(Debug)]
pub struct AAML {
    map: Table<String>,
    commands: Table<Command>,
    types: Table<TypeDefinition>,
    schemas: Table<SchemaDef>,
}

/// What an [`AAML`] stands for in specifications. Each part lists its
/// entries in the order in which their names were first registered.
pub struct DocModel {
    /// Key to value.
    pub map: Seq<(Seq<char>, Seq<char>)>,
    /// Directive name to handler.
    pub commands: Seq<(Seq<char>, Command)>,
    /// Type name to definition.
    pub types: Seq<(Seq<char>, TypeModel)>,
    /// Schema name to definition.
    pub schemas: Seq<(Seq<char>, SchemaModel)>,
}

impl View for AAML {
    type V = DocModel;

    closed spec fn view(&self) -> DocModel {
        DocModel {
            map: self.map@,
            commands: self.commands@,
            types: self.types@,
            schemas: self.schemas@,
        }
    }
}

/// `commands` with `c` registered under its own name.
pub open spec fn with_command(commands: Seq<(Seq<char>, Command)>, c: Command) -> Seq<
    (Seq<char>, Command),
> {
    put(commands, c.name_spec(), c)
}

/// The handlers that every document starts with.
pub open spec fn default_commands() -> Seq<(Seq<char>, Command)> {
    with_command(
        with_command(
            with_command(
                with_command(Seq::empty(), Command::Import(ImportCommand)),
                Command::Type(TypeCommand),
            ),
            Command::Schema(SchemaCommand),
        ),
        Command::Derive(DeriveCommand),
    )
}

impl DocModel {
    /// The document that holds nothing but the four directives.
    pub open spec fn empty() -> DocModel {
        DocModel {
            map: Seq::empty(),
            commands: default_commands(),
            types: Seq::empty(),
            schemas: Seq::empty(),
        }
    }

    /// The document with `map` in place of its keys.
    pub open spec fn with_map(self, map: Seq<(Seq<char>, Seq<char>)>) -> DocModel {
        DocModel { map, ..self }
    }

    /// The document with `types` in place of its types.
    pub open spec fn with_types(self, types: Seq<(Seq<char>, TypeModel)>) -> DocModel {
        DocModel { types, ..self }
    }

    /// The document with `schemas` in place of its schemas.
    pub open spec fn with_schemas(self, schemas: Seq<(Seq<char>, SchemaModel)>) -> DocModel {
        DocModel { schemas, ..self }
    }

    /// The document with `commands` in place of its directives.
    pub open spec fn with_commands(self, commands: Seq<(Seq<char>, Command)>) -> DocModel {
        DocModel { commands, ..self }
    }
}

/// The error for a value that the type `ty` rejected because of `cause`.
pub open spec fn invalid_type(ty: Seq<char>, cause: ErrorModel) -> ErrorModel {
    ErrorModel::InvalidType { ty, details: cause.message() }
}

/// The verdict of the registered type `ty` on `value`.
pub open spec fn check_type_spec(doc: DocModel, ty: Seq<char>, value: Seq<char>) -> Result<
    (),
    ErrorModel,
> {
    match lookup(doc.types, ty) {
        Some(def) => type_check(def, value),
        None => Err(ErrorModel::NotFound(ty)),
    }
}

/// The verdict on `value` of the type registered as `ty` or, where
/// none is, of the built-in type of that name.
pub open spec fn validate_value_spec(doc: DocModel, ty: Seq<char>, value: Seq<char>) -> Result<
    (),
    ErrorModel,
> {
    match lookup(doc.types, ty) {
        Some(def) => match type_check(def, value) {
            Ok(_) => Ok(()),
            Err(e) => Err(invalid_type(ty, e)),
        },
        None => match resolve_builtin_spec(ty) {
            Err(_) => Err(ErrorModel::NotFound(ty)),
            Ok(b) => match check_builtin(b, value) {
                Ok(_) => Ok(()),
                Err(e) => Err(invalid_type(ty, e)),
            },
        },
    }
}

impl AAML {
    /// An empty document with the four directives registered.
    pub fn new() -> (r: AAML)
        ensures
            r@ == DocModel::empty(),
    {
        let mut instance = AAML {
            map: Table::new(),
            commands: Table::new(),
            types: Table::new(),
            schemas: Table::new(),
        };
        instance.register_default_commands();
        instance
    }

    /// An empty document, as [`AAML::new`] makes it; `capacity` is the
    /// number of keys that the caller expects. The number is a hint: the
    /// document holds no key, whatever it is.
    pub fn with_capacity(capacity: usize) -> (r: AAML)
        ensures
            r@ == DocModel::empty(),
    {
        AAML::new()
    }

    fn register_default_commands(&mut self)
        ensures
            final(self)@ == old(self)@.with_commands(
                with_command(
                    with_command(
                        with_command(
                            with_command(old(self)@.commands, Command::Import(ImportCommand)),
                            Command::Type(TypeCommand),
                        ),
                        Command::Schema(SchemaCommand),
                    ),
                    Command::Derive(DeriveCommand),
                ),
            ),
    {
        self.register_command(Command::Import(ImportCommand));
        self.register_command(Command::Type(TypeCommand));
        self.register_command(Command::Schema(SchemaCommand));
        self.register_command(Command::Derive(DeriveCommand));
    }

    /// Registers a directive handler under its name, in place of the
    /// handler that had the name.
    pub fn register_command(&mut self, command: Command)
        ensures
            final(self)@ == old(self)@.with_commands(with_command(old(self)@.commands, command)),
    {
        self.commands.insert(String::from_str(command.name()), command);
    }

    /// The schema registered under `name`.
    pub fn get_schema(&self, name: &str) -> (r: Option<&SchemaDef>)
        ensures
            match r {
                Some(s) => lookup(self@.schemas, name@) == Some(s@),
                None => lookup(self@.schemas, name@) is None,
            },
    {
        self.schemas.get(name)
    }

    /// Registers a schema under `name`, in place of the schema that
    /// had the name.
    pub fn register_schema(&mut self, name: String, schema: SchemaDef)
        ensures
            final(self)@ == old(self)@.with_schemas(put(old(self)@.schemas, name@, schema@)),
    {
        self.schemas.insert(name, schema);
    }

    /// Registers a type under `name`, in place of the type that had
    /// the name.
    pub fn register_type(&mut self, name: String, type_def: TypeDefinition)
        ensures
            final(self)@ == old(self)@.with_types(put(old(self)@.types, name@, type_def@)),
    {
        self.types.insert(name, type_def);
    }

    /// The type registered under `name`.
    pub fn get_type(&self, name: &str) -> (r: Option<&TypeDefinition>)
        ensures
            match r {
                Some(t) => lookup(self@.types, name@) == Some(t@),
                None => lookup(self@.types, name@) is None,
            },
    {
        self.types.get(name)
    }

    /// Removes the type registered under `name`.
    pub fn unregister_type(&mut self, name: &str)
        ensures
            final(self)@ == old(self)@.with_types(without(old(self)@.types, name@)),
    {
        self.types.remove(name);
    }

    /// Checks `value` against the type registered under `type_label`.
    pub fn check_type(&self, type_label: &str, value: &str) -> (r: Result<(), AamlError>)
        ensures
            outcome(r) == check_type_spec(self@, type_label@, value@),
    {
        match self.types.get(type_label) {
            Some(def) => def.validate(value),
            None => Err(AamlError::NotFound(String::from_str(type_label))),
        }
    }

    /// Checks `value` against the type registered under `type_label`
    /// or, where none is registered, against the built-in type of
    /// that name.
    pub fn validate_value(&self, type_label: &str, value: &str) -> (r: Result<(), AamlError>)
        ensures
            outcome(r) == validate_value_spec(self@, type_label@, value@),
    {
        let verdict = match self.types.get(type_label) {
            Some(def) => def.validate(value),
            None => match resolve_builtin(type_label) {
                Err(_) => {
                    return Err(AamlError::NotFound(String::from_str(type_label)));
                },
                Ok(b) => validate_builtin(&b, value),
            },
        };
        match verdict {
            Ok(_) => Ok(()),
            Err(e) => Err(
                AamlError::InvalidType {
                    ty: String::from_str(type_label),
                    details: e.to_string(),
                },
            ),
        }
    }

    /// The keys and their values, in the order of first assignment.
    pub fn map(&self) -> (r: &Table<String>)
        ensures
            r@ == self@.map,
    {
        &self.map
    }

    /// The registered schemas, in the order of first registration.
    pub fn schemas(&self) -> (r: &Table<SchemaDef>)
        ensures
            r@ == self@.schemas,
    {
        &self.schemas
    }

    /// The registered types, in the order of first registration.
    pub fn types(&self) -> (r: &Table<TypeDefinition>)
        ensures
            r@ == self@.types,
    {
        &self.types
    }

    /// Binds `key` to `value` as it is: nothing is validated.
    pub fn set_value(&mut self, key: String, value: String)
        ensures
            final(self)@ == old(self)@.with_map(put(old(self)@.map, key@, value@)),
    {
        self.map.insert(key, value);
    }

    /// A copy of the document.
    pub fn duplicate(&self) -> (r: AAML)
        ensures
            r@ == self@,
    {
        let map = self.map.duplicate();
        let mut commands: Table<Command> = Table::new();
        let n: usize = self.commands.len();
        let mut i: usize = 0;
        while i < n
            invariant
                i <= n,
                n == self.commands@.len(),
                crate::table::distinct_keys(self.commands@),
                commands@ == self.commands@.take(i as int),
            decreases n - i,
        {
            proof {
                crate::table::lemma_fresh_key(self.commands@, i as int);
            }
            commands.push_entry(self.commands.key_at(i).clone(), *self.commands.value_at(i));
            proof {
                assert(self.commands@.take(i + 1) =~= self.commands@.take(i as int).push(
                    self.commands@[i as int],
                ));
            }
            i += 1;
        }
        let mut types: Table<TypeDefinition> = Table::new();
        let n: usize = self.types.len();
        let mut i: usize = 0;
        while i < n
            invariant
                i <= n,
                n == self.types@.len(),
                crate::table::distinct_keys(self.types@),
                types@ == self.types@.take(i as int),
            decreases n - i,
        {
            proof {
                crate::table::lemma_fresh_key(self.types@, i as int);
            }
            types.push_entry(self.types.key_at(i).clone(), self.types.value_at(i).duplicate());
            proof {
                assert(self.types@.take(i + 1) =~= self.types@.take(i as int).push(
                    self.types@[i as int],
                ));
            }
            i += 1;
        }
        let mut schemas: Table<SchemaDef> = Table::new();
        let n: usize = self.schemas.len();
        let mut i: usize = 0;
        while i < n
            invariant
                i <= n,
                n == self.schemas@.len(),
                crate::table::distinct_keys(self.schemas@),
                schemas@ == self.schemas@.take(i as int),
            decreases n - i,
        {
            proof {
                crate::table::lemma_fresh_key(self.schemas@, i as int);
            }
            schemas.push_entry(self.schemas.key_at(i).clone(), self.schemas.value_at(i).duplicate());
            proof {
                assert(self.schemas@.take(i + 1) =~= self.schemas@.take(i as int).push(
                    self.schemas@[i as int],
                ));
            }
            i += 1;
        }
        proof {
            assert(self.commands@.take(self.commands@.len() as int) =~= self.commands@);
            assert(self.types@.take(self.types@.len() as int) =~= self.types@);
            assert(self.schemas@.take(self.schemas@.len() as int) =~= self.schemas@);
        }
        AAML { map, commands, types, schemas }
    }

    /// Strips white space and one pair of surrounding quotes.
    pub fn unwrap_quotes<'a>(s: &'a str) -> (r: &'a str)
        ensures
            r@ == parsing::unwrap_quotes_spec(s@),
    {
        parsing::unwrap_quotes(s)
    }
}

} // verus!
