use aam_rs::aaml::parsing::{
    block_is_complete, needs_accumulation, parse_assignment, split_field_pair,
    split_top_level_fields, strip_comment, unwrap_quotes,
};
use aam_rs::aaml::merge::split_lines;
use aam_rs::aaml::AAML;
use aam_rs::builder::AAMBuilder;
use aam_rs::error::AamlError;
use aam_rs::table::Table;

fn files_with(path: &str, text: &str) -> Table<String> {
    let mut files = Table::new();
    files.insert(path.to_string(), text.to_string());
    files
}

#[test]
fn assignment_round_trip() {
    let doc = AAML::parse("  name  =   some value  ").unwrap();
    assert_eq!(doc.find_obj("name").unwrap().as_str(), "some value");
    assert_eq!(doc.map().len(), 1);
    assert_eq!(doc.map().key_at(0), "name");
    assert_eq!(doc.map().value_at(0), "some value");
}

#[test]
fn trailing_comment_changes_nothing() {
    let with = AAML::parse("key = value # c").unwrap();
    let without = AAML::parse("key = value").unwrap();
    assert_eq!(with.map().len(), without.map().len());
    assert_eq!(with.map().key_at(0), without.map().key_at(0));
    assert_eq!(with.map().value_at(0), without.map().value_at(0));
    assert_eq!(with.map().value_at(0), "value");

    let quoted = AAML::parse(r#"key = "value # not a comment""#).unwrap();
    assert_eq!(quoted.find_obj("key").unwrap().as_str(), "value # not a comment");
}

#[test]
fn comment_needs_space_on_both_sides() {
    assert_eq!(strip_comment("a = b #"), "a = b ");
    assert_eq!(strip_comment("a = b#c"), "a = b#c");
    assert_eq!(strip_comment("a = b #c"), "a = b #c");
    assert_eq!(strip_comment("a = b# c"), "a = b# c");
    assert_eq!(strip_comment("# whole line"), "");
    assert_eq!(strip_comment("#"), "");
    assert_eq!(strip_comment("a = 'x # y' # z"), "a = 'x # y' ");
    assert_eq!(strip_comment("a = \"x ' # y"), "a = \"x ' # y");
    assert_eq!(strip_comment("a\t#\tb"), "a\t");
    assert_eq!(strip_comment(""), "");
}

#[test]
fn unwrap_quotes_strips_one_pair() {
    assert_eq!(unwrap_quotes("  \"a\"  "), "a");
    assert_eq!(unwrap_quotes("'a'"), "a");
    assert_eq!(unwrap_quotes("\"'a'\""), "'a'");
    assert_eq!(unwrap_quotes("\"a'"), "\"a'");
    assert_eq!(unwrap_quotes("\""), "\"");
    assert_eq!(unwrap_quotes("\"\""), "");
    assert_eq!(unwrap_quotes("  plain "), "plain");
    assert_eq!(AAML::unwrap_quotes(" 'x' "), "x");
}

#[test]
fn assignment_splits_at_first_top_level_equals() {
    assert_eq!(parse_assignment("a = b = c"), Ok(("a", "b = c")));
    assert_eq!(parse_assignment("pos = { x = 1.0, y = 2.0 }"), Ok(("pos", "{ x = 1.0, y = 2.0 }")));
    assert_eq!(parse_assignment("tags = [a, b, c]"), Ok(("tags", "[a, b, c]")));
    assert_eq!(parse_assignment("k = \"[x]\""), Ok(("k", "[x]")));
    assert_eq!(parse_assignment("k ="), Ok(("k", "")));
    assert_eq!(parse_assignment("{a = 1} = 2"), Ok(("{a = 1}", "2")));
    assert_eq!(parse_assignment("{a = 1}"), Err("Missing assignment operator '='"));
    assert_eq!(parse_assignment("no operator"), Err("Missing assignment operator '='"));
    assert_eq!(parse_assignment(" = v"), Err("Key cannot be empty"));
}

#[test]
fn field_pair_splits_at_equals_or_colon() {
    assert_eq!(split_field_pair("a = b"), Ok(("a ", " b")));
    assert_eq!(split_field_pair("a: b = c"), Ok(("a", " b = c")));
    assert_eq!(
        split_field_pair("[a:b]"),
        Err("Inline object field '[a:b]' has no '=' or ':' separator".to_string())
    );
}

#[test]
fn top_level_fields_keep_nested_commas() {
    assert_eq!(split_top_level_fields("a, {b, c}, [d, e],"), vec!["a", " {b, c}", " [d, e]", ""]);
    assert_eq!(split_top_level_fields(""), vec![""]);
}

#[test]
fn block_accumulation_counts_braces() {
    assert!(needs_accumulation("@schema A {"));
    assert!(!needs_accumulation("@schema A { }"));
    assert!(!needs_accumulation("key = {"));
    assert!(!needs_accumulation(""));
    assert!(block_is_complete("@schema A { x: i32 }"));
    assert!(block_is_complete("} }"));
    assert!(!block_is_complete("{ { }"));
}

#[test]
fn multi_line_schema_is_one_statement() {
    let doc = AAML::parse("@schema Device {\n  id: i32 # the id\n\n  name: string\n}\nid = 7").unwrap();
    let schema = doc.get_schema("Device").unwrap();
    assert_eq!(schema.fields.len(), 2);
    assert_eq!(schema.fields.key_at(0), "id");
    assert_eq!(schema.fields.key_at(1), "name");
    assert_eq!(doc.find_obj("id").unwrap().as_str(), "7");
}

#[test]
fn open_block_at_end_of_input_is_processed_as_it_stands() {
    let err = AAML::parse("a = 1\n@schema Device {\n  id: i32").unwrap_err();
    match err {
        AamlError::DirectiveError(cmd, msg) => {
            assert_eq!(cmd, "schema");
            assert_eq!(msg, "Expected '}'");
        }
        other => panic!("unexpected error: {}", other.to_string()),
    }
}

#[test]
fn error_in_gathered_block_names_its_first_line() {
    let err = AAML::parse("a = 1\n\n@nothing {\n}\n").unwrap_err();
    match err {
        AamlError::ParseError { line, content, details } => {
            assert_eq!(line, 3);
            assert_eq!(content, "nothing { }");
            assert_eq!(details, "Unknown directive: @nothing");
        }
        other => panic!("unexpected error: {}", other.to_string()),
    }
}

#[test]
fn parse_error_carries_line_and_content() {
    let err = AAML::parse("a = 1\nb = 2\n\n\n\n\n\n\n\n\n\n  broken line  # c\n").unwrap_err();
    assert_eq!(
        err.to_string(),
        "Parse Error at line 12: 'broken line'. Reason: Missing assignment operator '='"
    );
    match err {
        AamlError::ParseError { line, content, details } => {
            assert_eq!(line, 12);
            assert_eq!(content, "broken line");
            assert_eq!(details, "Missing assignment operator '='");
        }
        other => panic!("unexpected error: {}", other.to_string()),
    }
}

#[test]
fn empty_directive_is_a_parse_error() {
    let err = AAML::parse("@").unwrap_err();
    assert_eq!(err.to_string(), "Parse Error at line 1: ''. Reason: Empty directive");
    let err = AAML::parse("@ schema A {}").unwrap_err();
    assert_eq!(err.to_string(), "Parse Error at line 1: ' schema A {}'. Reason: Empty directive");
}

#[test]
fn failed_merge_keeps_what_was_merged_before() {
    let mut doc = AAML::new();
    let result = doc.merge_content("a = 1\nbroken\nb = 2");
    assert!(result.is_err());
    assert_eq!(doc.find_obj("a").unwrap().as_str(), "1");
    assert!(doc.find_obj("b").is_none());
}

#[test]
fn last_assignment_wins_and_keeps_its_place() {
    let doc = AAML::parse("a = 1\nb = 2\na = 3").unwrap();
    assert_eq!(doc.map().len(), 2);
    assert_eq!(doc.map().key_at(0), "a");
    assert_eq!(doc.map().value_at(0), "3");
    assert_eq!(doc.map().key_at(1), "b");
}

#[test]
fn import_precedence() {
    let files = files_with("second.aam", "k = \"second\"");
    let doc = AAML::parse_with("k = \"first\"\n@import second.aam", &files).unwrap();
    assert_eq!(doc.find_obj("k").unwrap().as_str(), "second");
}

#[test]
fn import_without_path_is_a_directive_error() {
    let err = AAML::parse("@import   ").unwrap_err();
    assert_eq!(err.to_string(), "Directive '@import' error: Import path cannot be empty");
}

#[test]
fn import_of_unknown_file_is_an_io_error() {
    let err = AAML::parse("@import \"missing.aam\"").unwrap_err();
    match &err {
        AamlError::IoError(path) => assert_eq!(path, "missing.aam"),
        other => panic!("unexpected error: {}", other.to_string()),
    }
    assert_eq!(err.to_string(), "IO Error: missing.aam");
}

#[test]
fn file_that_imports_itself_is_unreadable_there() {
    let files = files_with("loop.aam", "a = 1\n@import loop.aam\nb = 2");
    let mut doc = AAML::new();
    let err = doc.merge_with("@import loop.aam", &files).unwrap_err();
    assert!(matches!(&err, AamlError::IoError(path) if path == "loop.aam"));
    assert_eq!(doc.find_obj("a").unwrap().as_str(), "1");
    assert!(doc.find_obj("b").is_none());
}

#[test]
fn same_file_can_be_imported_twice() {
    let files = files_with("x.aam", "n = 1");
    let doc = AAML::parse_with("@import x.aam\nn = 2\n@import x.aam", &files).unwrap();
    assert_eq!(doc.find_obj("n").unwrap().as_str(), "1");
}

#[test]
fn derive_precedence() {
    let files = files_with("base.aam", "k = \"base\"\nonly_base = 1");
    let doc = AAML::parse_with("k = \"child\"\n@derive base.aam", &files).unwrap();
    assert_eq!(doc.find_obj("k").unwrap().as_str(), "child");
    assert_eq!(doc.find_obj("only_base").unwrap().as_str(), "1");
}

#[test]
fn selective_derive() {
    let mut base = AAMBuilder::new();
    base.add_raw("@schema A { a: i32 }");
    base.add_raw("@schema B { b: i32 }");
    base.add_line("a", "1");
    base.add_line("b", "2");
    let files = files_with("base.aam", &base.build());
    let doc = AAML::parse_with("@derive base.aam::A", &files).unwrap();
    assert!(doc.get_schema("A").is_some());
    assert!(doc.get_schema("B").is_none());
    assert_eq!(doc.find_obj("a").unwrap().as_str(), "1");
    assert_eq!(doc.find_obj("b").unwrap().as_str(), "2");
}

#[test]
fn derive_reports_missing_selector() {
    let files = files_with("base.aam", "@schema A { a*: i32 }");
    let err = AAML::parse_with("@derive \"base.aam\"::A::Nope", &files).unwrap_err();
    assert_eq!(
        err.to_string(),
        "Directive '@derive' error: Schema 'Nope' not found in 'base.aam'"
    );
}

#[test]
fn derive_without_path_is_a_directive_error() {
    let err = AAML::parse("@derive").unwrap_err();
    assert_eq!(err.to_string(), "Directive '@derive' error: Missing file path");
}

#[test]
fn derive_checks_only_schemas_the_child_had() {
    // The base's own schema lacks a value for `need`; that is not the child's concern.
    let files = files_with("base.aam", "@schema FromBase { need: i32 }");
    assert!(AAML::parse_with("@derive base.aam", &files).is_ok());

    let err = AAML::parse_with("@schema Mine { need: i32 }\n@derive base.aam", &files).unwrap_err();
    assert_eq!(
        err.to_string(),
        "Schema 'Mine' validation error: field 'need' (type 'i32') — Missing required field 'need'"
    );
}

#[test]
fn derive_propagates_errors_of_the_base() {
    let files = files_with("base.aam", "broken");
    let err = AAML::parse_with("@derive base.aam", &files).unwrap_err();
    assert_eq!(
        err.to_string(),
        "Parse Error at line 1: 'broken'. Reason: Missing assignment operator '='"
    );
}

#[test]
fn cycle_termination() {
    let doc = AAML::parse("a=b\nb=a").unwrap();
    assert_eq!(doc.find_deep("a").unwrap().as_str(), "b");
    assert_eq!(doc.find_deep("b").unwrap().as_str(), "a");
    assert!(doc.find_deep("c").is_none());
}

#[test]
fn find_key_takes_the_first_entry_with_the_value() {
    let doc = AAML::parse("x = v\ny = v\nz = w").unwrap();
    assert_eq!(doc.find_key("v").unwrap().as_str(), "x");
    assert_eq!(doc.find_key("w").unwrap().as_str(), "z");
    assert!(doc.find_key("x").is_none());
    assert_eq!(doc.find_obj("v").unwrap().as_str(), "x");
}

#[test]
fn sum_of_documents_takes_keys_and_types_not_schemas() {
    let lhs = AAML::parse("a = 1\n@type t = i32\n@schema L { q*: i32 }").unwrap();
    let rhs = AAML::parse("a = 2\nb = 3\n@type t = bool\n@schema R { r*: i32 }").unwrap();
    let sum = lhs + rhs;
    assert_eq!(sum.find_obj("a").unwrap().as_str(), "2");
    assert_eq!(sum.find_obj("b").unwrap().as_str(), "3");
    assert!(sum.check_type("t", "true").is_ok());
    assert!(sum.check_type("t", "1").is_err());
    assert!(sum.get_schema("L").is_some());
    assert!(sum.get_schema("R").is_none());
}

#[test]
fn duplicate_is_equal_and_independent() {
    let doc = AAML::parse("a = 1\n@schema S { a: i32 }\n@type t = i32").unwrap();
    let mut copy = doc.duplicate();
    copy.merge_content("a = 2").unwrap();
    assert_eq!(doc.find_obj("a").unwrap().as_str(), "1");
    assert_eq!(copy.find_obj("a").unwrap().as_str(), "2");
    assert!(copy.get_schema("S").is_some());
    assert!(copy.get_type("t").is_some());
}

#[test]
fn default_document_knows_the_four_directives() {
    let mut doc = AAML::default();
    assert!(doc.merge_content("@type t = i32").is_ok());
    assert!(doc.merge_content("@schema S { }").is_ok());
    assert!(matches!(doc.merge_content("@import x").unwrap_err(), AamlError::IoError(_)));
    assert!(matches!(doc.merge_content("@derive x").unwrap_err(), AamlError::IoError(_)));
    let with_capacity = AAML::with_capacity(16);
    assert!(with_capacity.map().is_empty());
}

#[test]
fn lines_are_what_stands_between_line_feeds() {
    assert_eq!(split_lines(""), Vec::<String>::new());
    assert_eq!(split_lines("a"), vec!["a"]);
    assert_eq!(split_lines("a\n"), vec!["a"]);
    assert_eq!(split_lines("a\n\n"), vec!["a", ""]);
    assert_eq!(split_lines("\na\n b "), vec!["", "a", " b "]);
    for text in ["", "\n", "\n\n", "a\nb", "a\nb\n", "\n\na\n\n\nb c\n\n", "x"] {
        let expected: Vec<String> = text.lines().map(|l| l.to_string()).collect();
        assert_eq!(split_lines(text), expected, "{text:?}");
    }
    // A carriage return stays in its line; it is white space and is trimmed with the line.
    assert_eq!(split_lines("a\r\nb"), vec!["a\r", "b"]);
    let doc = AAML::parse("a = 1\r\nb = 2\r\n").unwrap();
    assert_eq!(doc.find_obj("a").unwrap().as_str(), "1");
    assert_eq!(doc.find_obj("b").unwrap().as_str(), "2");
}
