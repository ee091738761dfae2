use aam_rs::aaml::AAML;
use aam_rs::commands::derive::{parse_derive_arg, split_selectors, DeriveCommand};
use aam_rs::commands::import::ImportCommand;
use aam_rs::commands::schema::{split_words, SchemaCommand, SchemaDef};
use aam_rs::commands::typecm::{TypeCommand, TypeDefinition};
use aam_rs::commands::Command;
use aam_rs::error::AamlError;
use aam_rs::table::Table;

fn directive_error(r: Result<(String, SchemaDef), AamlError>) -> String {
    match r {
        Err(AamlError::DirectiveError(cmd, msg)) => {
            assert_eq!(cmd, "schema");
            msg
        }
        Err(other) => panic!("unexpected error: {}", other.to_string()),
        Ok(_) => panic!("expected an error"),
    }
}

#[test]
fn schema_header() {
    assert_eq!(SchemaCommand::parse_header("Name { a: b }").unwrap(), ("Name", " a: b "));
    assert_eq!(SchemaCommand::parse_header("N{a{b}c}d}").unwrap(), ("N", "a{b}c}d"));
    assert_eq!(SchemaCommand::parse_header("N{}").unwrap(), ("N", ""));
    assert!(SchemaCommand::parse_header("Name a: b }").is_err());
    assert!(SchemaCommand::parse_header("Name { a: b").is_err());
    assert!(SchemaCommand::parse_header(" { a: b }").is_err());
}

#[test]
fn schema_words() {
    assert_eq!(split_words(" a: b, c*:d\n\te:f ,, "), vec!["a:", "b", "c*:d", "e:f"]);
    assert_eq!(split_words(""), Vec::<String>::new());
    assert_eq!(split_words(" ,\u{a0}, "), Vec::<String>::new());
}

#[test]
fn schema_fields() {
    let (name, schema) = SchemaCommand::parse(" Player { name: string, score:i32\n health*: f64 } ").unwrap();
    assert_eq!(name, "Player");
    assert_eq!(schema.fields.len(), 3);
    assert_eq!(schema.fields.key_at(0), "name");
    assert_eq!(schema.fields.value_at(0), "string");
    assert_eq!(schema.fields.key_at(1), "score");
    assert_eq!(schema.fields.value_at(1), "i32");
    assert_eq!(schema.fields.key_at(2), "health");
    assert_eq!(schema.fields.value_at(2), "f64");
    assert!(schema.is_optional("health"));
    assert!(!schema.is_optional("name"));
    assert!(!schema.is_optional("health*"));
    assert_eq!(schema.optional_fields, vec!["health"]);
}

#[test]
fn schema_duplicate_fields_overwrite() {
    let (_, schema) = SchemaCommand::parse("S { a*: i32, b: bool, a: string, b**: f64 }").unwrap();
    assert_eq!(schema.fields.len(), 2);
    assert_eq!(schema.fields.get("a").unwrap(), "string");
    assert_eq!(schema.fields.get("b").unwrap(), "f64");
    assert_eq!(schema.fields.key_at(0), "a");
    assert!(schema.is_optional("a"));
    assert!(schema.is_optional("b"));
}

#[test]
fn schema_errors() {
    assert_eq!(directive_error(SchemaCommand::parse("Bad name: string }")), "Expected '{'");
    assert_eq!(directive_error(SchemaCommand::parse("Bad { name: string")), "Expected '}'");
    assert_eq!(directive_error(SchemaCommand::parse("{ name: string }")), "Schema name is empty");
    assert_eq!(directive_error(SchemaCommand::parse("B { name_string }")), "Bad field: 'name_string'");
    assert_eq!(directive_error(SchemaCommand::parse("B { name : string }")), "Bad field: 'name'");
    assert_eq!(directive_error(SchemaCommand::parse("B { name: }")), "Bad field: 'name:' has no type");
    assert_eq!(directive_error(SchemaCommand::parse("B { : string }")), "Bad field: ': string'");
    assert_eq!(directive_error(SchemaCommand::parse("B { *: string }")), "Bad field: ': string'");
    assert_eq!(directive_error(SchemaCommand::parse("B { a: b c }")), "Bad field: 'c'");
}

#[test]
fn schema_declared_again_replaces_the_whole_definition() {
    let doc = AAML::parse("@schema S { a: i32, b: i32 }\n@schema S { c*: bool }").unwrap();
    let schema = doc.get_schema("S").unwrap();
    assert_eq!(schema.fields.len(), 1);
    assert!(schema.fields.contains_key("c"));
    assert!(!schema.fields.contains_key("a"));
    assert!(schema.is_optional("c"));
    assert_eq!(doc.schemas().len(), 1);
}

#[test]
fn schema_definition_by_hand() {
    let mut def = SchemaDef::new();
    assert!(def.fields.is_empty());
    def.declare("a".to_string(), "i32".to_string(), false);
    def.declare("b".to_string(), "bool".to_string(), true);
    def.declare("a".to_string(), "f64".to_string(), true);
    assert_eq!(def.fields.get("a").unwrap(), "f64");
    assert_eq!(def.fields.key_at(0), "a");
    assert_eq!(def.optional_fields, vec!["b", "a"]);
    let copy = def.duplicate();
    assert_eq!(copy.fields.len(), 2);
    assert_eq!(copy.fields.get("b").unwrap(), "bool");
    assert_eq!(copy.optional_fields, vec!["b", "a"]);
}

#[test]
fn type_directive() {
    let (name, def) = TypeCommand::parse(" pos = math::vector3 ").unwrap();
    assert_eq!(name, "pos");
    assert!(matches!(def, TypeDefinition::Builtin(p) if p == "math::vector3"));
    let (name, def) = TypeCommand::parse("age=i32").unwrap();
    assert_eq!(name, "age");
    assert!(matches!(def, TypeDefinition::Primitive(p) if p == "i32"));
    let (_, def) = TypeCommand::parse("a = b = c").unwrap();
    assert!(matches!(def, TypeDefinition::Primitive(p) if p == "b = c"));
    let (_, def) = TypeCommand::parse("a = no::such::thing").unwrap();
    assert!(matches!(def, TypeDefinition::Builtin(p) if p == "no::such::thing"));

    let err = TypeCommand::parse("age i32").unwrap_err();
    assert_eq!(
        err.to_string(),
        "Parse Error at line 0: 'age i32'. Reason: Type definition must be in the format 'name = definition'"
    );
    let err = TypeCommand::parse(" = i32").unwrap_err();
    assert_eq!(err.to_string(), "Parse Error at line 0: ' = i32'. Reason: Type name cannot be empty");
    let err = TypeCommand::parse("t = ").unwrap_err();
    assert_eq!(err.to_string(), "Parse Error at line 0: 't = '. Reason: Type definition cannot be empty");
}

#[test]
fn type_registered_again_overwrites() {
    let doc = AAML::parse("@type t = i32\n@type t = bool").unwrap();
    assert!(doc.check_type("t", "true").is_ok());
    assert!(doc.check_type("t", "1").is_err());
    assert_eq!(doc.types().len(), 1);
}

#[test]
fn derive_argument() {
    assert_eq!(parse_derive_arg("base.aam"), ("base.aam", vec![]));
    assert_eq!(
        parse_derive_arg("base.aam::Foo::Bar"),
        ("base.aam", vec!["Foo", "Bar"])
    );
    assert_eq!(parse_derive_arg("\"base.aam\"::Foo"), ("base.aam", vec!["Foo"]));
    assert_eq!(parse_derive_arg("'my base.aam'"), ("my base.aam", vec![]));
    assert_eq!(parse_derive_arg("'a::b.aam'::X :: Y"), ("a::b.aam", vec!["X", "Y"]));
    assert_eq!(parse_derive_arg("\"open.aam"), ("\"open.aam", vec![]));
    assert_eq!(parse_derive_arg("base.aam :: A ::::B:: "), ("base.aam", vec!["A", "B"]));
    assert_eq!(parse_derive_arg("\"b.aam\":::A"), ("b.aam", vec!["A"]));
    assert_eq!(parse_derive_arg("\"b.aam\" ::A"), ("b.aam", vec!["A"]));
    assert_eq!(split_selectors("A:::B"), vec!["A", ":B"]);
    assert_eq!(split_selectors(""), Vec::<String>::new());
}

#[test]
fn command_names() {
    assert_eq!(Command::Import(ImportCommand).name(), "import");
    assert_eq!(Command::Derive(DeriveCommand).name(), "derive");
    assert_eq!(Command::Schema(SchemaCommand).name(), "schema");
    assert_eq!(Command::Type(TypeCommand).name(), "type");
    assert_eq!(ImportCommand.name(), "import");
    assert_eq!(DeriveCommand.name(), "derive");
    assert_eq!(SchemaCommand.name(), "schema");
    assert_eq!(TypeCommand.name(), "type");
}

#[test]
fn commands_run_on_a_document() {
    let files: Table<String> = Table::new();
    let mut doc = AAML::new();
    Command::Schema(SchemaCommand).execute(&mut doc, "S { a: i32 }", &files).unwrap();
    Command::Type(TypeCommand).execute(&mut doc, "t = bool", &files).unwrap();
    assert!(doc.get_schema("S").is_some());
    assert!(doc.get_type("t").is_some());
    assert!(SchemaCommand.execute(&mut doc, "broken").is_err());
    assert!(TypeCommand.execute(&mut doc, "broken").is_err());

    let mut files = Table::new();
    files.insert("f.aam".to_string(), "k = v\n@schema F { k: string }".to_string());
    ImportCommand.execute(&mut doc, " 'f.aam' ", &files).unwrap();
    assert_eq!(doc.find_obj("k").unwrap().as_str(), "v");
    assert!(doc.get_schema("F").is_some());

    let mut child = AAML::parse("k = mine").unwrap();
    DeriveCommand.execute(&mut child, " f.aam::F ", &files).unwrap();
    assert_eq!(child.find_obj("k").unwrap().as_str(), "mine");
    assert!(child.get_schema("F").is_some());
    assert!(matches!(
        DeriveCommand.execute(&mut child, "g.aam", &files).unwrap_err(),
        AamlError::IoError(p) if p == "g.aam"
    ));
}

#[test]
fn directive_registered_under_its_name() {
    let mut doc = AAML::new();
    doc.register_command(Command::Schema(SchemaCommand));
    assert!(doc.merge_content("@schema S { a: i32 }").is_ok());
    let err = doc.merge_content("@unknown x").unwrap_err();
    assert_eq!(err.to_string(), "Parse Error at line 1: 'unknown x'. Reason: Unknown directive: @unknown");
}

#[test]
fn directive_arguments_start_after_the_first_white_space() {
    let doc = AAML::parse("@type\tt = i32\n@schema   S   {a:t}\na = 5").unwrap();
    assert!(doc.get_type("t").is_some());
    assert!(doc.get_schema("S").is_some());
    let err = AAML::parse("@type").unwrap_err();
    assert_eq!(
        err.to_string(),
        "Parse Error at line 0: ''. Reason: Type definition must be in the format 'name = definition'"
    );
}
