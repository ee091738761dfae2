use aam_rs::builder::{AAMBuilder, SchemaField};
use aam_rs::error::AamlError;
use aam_rs::found_value::FoundValue;
use aam_rs::table::Table;
use aam_rs::text::{chars_of, split_chars, str_eq, string_of_range, strip_prefix, trim_str};

#[test]
fn builder_writes_statements() {
    let mut b = AAMBuilder::new();
    b.comment("Server configuration")
        .type_alias("port_t", "i32")
        .schema(
            "Server",
            &[
                SchemaField::required("host", "string"),
                SchemaField::required("port", "port_t"),
                SchemaField::optional("debug", "bool"),
            ],
        )
        .add_line("host", "localhost")
        .add_line("port", "8080")
        .import("shared.aam")
        .derive("base.aam", &["Server", "Database"])
        .derive("plain.aam", &[])
        .add_raw("@custom x");
    assert_eq!(
        b.as_string(),
        "# Server configuration\n\
         @type port_t = i32\n\
         @schema Server { host: string, port: port_t, debug*: bool }\n\
         host = localhost\n\
         port = 8080\n\
         @import shared.aam\n\
         @derive base.aam::Server::Database\n\
         @derive plain.aam\n\
         @custom x"
    );
    assert_eq!(&*b, b.as_str());
    assert!(b.contains("@schema Server {"));
    assert_eq!(b.build().lines().count(), 9);
}

#[test]
fn builder_multiline_schema() {
    let mut b = AAMBuilder::with_capacity(64);
    b.schema_multiline(
        "Server",
        &[SchemaField::required("host", "string"), SchemaField::optional("port", "i32")],
    );
    assert_eq!(b.as_string(), "@schema Server {\n    host: string\n    port*: i32\n}");
    let mut empty = AAMBuilder::default();
    empty.schema_multiline("E", &[]).schema("F", &[]);
    assert_eq!(empty.build(), "@schema E {\n}\n@schema F {  }");
}

#[test]
fn builder_output_parses_back() {
    let mut b = AAMBuilder::new();
    b.schema_multiline(
        "Server",
        &[SchemaField::required("host", "string"), SchemaField::optional("port", "i32")],
    )
    .add_line("host", "localhost");
    let doc = aam_rs::aaml::AAML::parse(&b.build()).unwrap();
    let schema = doc.get_schema("Server").unwrap();
    assert_eq!(schema.fields.get("host").unwrap(), "string");
    assert!(schema.is_optional("port"));
    assert!(doc.validate_schemas_completeness().is_ok());
}

#[test]
fn schema_field_text() {
    assert_eq!(SchemaField::required("host", "string").to_aaml(), "host: string");
    assert_eq!(SchemaField::optional("debug", "bool").to_aaml(), "debug*: bool");
}

#[test]
fn found_value_helpers() {
    let mut v = FoundValue::new("a-b--c-");
    v.remove("-");
    assert_eq!(v.as_str(), "abc");
    let mut v = FoundValue::new("aaa");
    v.remove("aa").remove("");
    assert_eq!(v, "a");
    let mut v = FoundValue::new("xabcabx");
    assert_eq!(v.remove("ab").as_str(), "xcx");

    let v = FoundValue::new("[rust, aam, config]");
    assert!(v.is_list());
    assert!(!v.is_object());
    assert_eq!(v.as_list().unwrap(), vec!["rust", "aam", "config"]);
    assert!(v.as_object().is_none());

    let v = FoundValue::new(" { x = 1.0, y = 2.0, x = 3.0 } ");
    assert!(v.is_object());
    assert!(!v.is_list());
    let fields = v.as_object().unwrap();
    assert_eq!(fields.len(), 2);
    assert_eq!(fields.get("x").unwrap(), "3.0");
    assert_eq!(fields.get("y").unwrap(), "2.0");
    assert_eq!(fields.key_at(0), "x");
    assert!(v.as_list().is_none());

    assert!(FoundValue::new("{ x }").as_object().is_none());
    assert!(FoundValue::new("{").as_object().is_none());
    assert!(!FoundValue::new("[").is_list());
    assert!(!FoundValue::new("plain").is_list());

    let from: FoundValue = String::from("text").into();
    assert_eq!(from, FoundValue::new("text"));
    assert_eq!(from.to_string(), "text");
    assert_eq!(FoundValue::from_string("s".to_string()).len(), 1);
    assert!(from != "other");
}

#[test]
fn table_keeps_insertion_order() {
    let mut t: Table<String> = Table::new();
    assert!(t.is_empty());
    t.insert("b".to_string(), "1".to_string());
    t.insert("a".to_string(), "2".to_string());
    t.insert("b".to_string(), "3".to_string());
    t.insert_absent("a".to_string(), "4".to_string());
    t.insert_absent("c".to_string(), "5".to_string());
    assert_eq!(t.len(), 3);
    assert_eq!((t.key_at(0).as_str(), t.value_at(0).as_str()), ("b", "3"));
    assert_eq!((t.key_at(1).as_str(), t.value_at(1).as_str()), ("a", "2"));
    assert_eq!((t.key_at(2).as_str(), t.value_at(2).as_str()), ("c", "5"));
    assert_eq!(t.index_of("a"), 1);
    assert_eq!(t.index_of("zz"), 3);
    assert!(t.contains_key("c"));
    assert!(t.get("zz").is_none());

    let rest = t.duplicate_without("a");
    assert_eq!(rest.len(), 2);
    assert_eq!(rest.key_at(1), "c");
    assert_eq!(t.duplicate_without("zz").len(), 3);
    t.remove("b");
    assert_eq!(t.len(), 2);
    assert_eq!(t.key_at(0), "a");
    t.remove("b");
    assert_eq!(t.len(), 2);
}

#[test]
fn error_messages() {
    assert_eq!(AamlError::IoError("f.aam".to_string()).to_string(), "IO Error: f.aam");
    assert_eq!(
        AamlError::ParseError { line: 0, content: "c".to_string(), details: "d".to_string() }.to_string(),
        "Parse Error at line 0: 'c'. Reason: d"
    );
    assert_eq!(
        AamlError::ParseError {
            line: 1234567890,
            content: "c".to_string(),
            details: "d".to_string()
        }
        .to_string(),
        "Parse Error at line 1234567890: 'c'. Reason: d"
    );
    assert_eq!(AamlError::NotFound("k".to_string()).to_string(), "Key not found: 'k'");
    assert_eq!(AamlError::InvalidValue("m".to_string()).to_string(), "Invalid value: m");
    assert_eq!(
        AamlError::InvalidType { ty: "t".to_string(), details: "d".to_string() }.to_string(),
        "Invalid type 't': d"
    );
    assert_eq!(
        AamlError::DirectiveError("derive".to_string(), "m".to_string()).to_string(),
        "Directive '@derive' error: m"
    );
    assert_eq!(
        AamlError::SchemaValidationError {
            schema: "S".to_string(),
            field: "f".to_string(),
            ty: "t".to_string(),
            details: "d".to_string()
        }
        .to_string(),
        "Schema 'S' validation error: field 'f' (type 't') — d"
    );
}

#[test]
fn text_helpers() {
    assert_eq!(chars_of("aé→"), vec!['a', 'é', '→']);
    assert_eq!(string_of_range(&['a', 'é', '→', 'b'], 1, 3), "é→");
    assert_eq!(string_of_range(&['a'], 1, 1), "");
    assert_eq!(trim_str(" \t\u{a0}\u{3000}x y\u{2003}\r\n"), "x y");
    assert_eq!(trim_str("\u{200b}x"), "\u{200b}x");
    assert_eq!(trim_str("   "), "");
    assert_eq!(" \u{85}\u{1680}x\u{2028}\u{2029}\u{202f}\u{205f}".trim(), trim_str(" \u{85}\u{1680}x\u{2028}\u{2029}\u{202f}\u{205f}"));
    assert!(str_eq("é", "é"));
    assert!(!str_eq("e", "é"));
    assert_eq!(strip_prefix("list<i32>", "list<"), Some("i32>"));
    assert_eq!(strip_prefix("lis", "list<"), None);
    assert_eq!(strip_prefix("x", ""), Some("x"));
    assert_eq!(split_chars("a,b,,c,", ','), vec!["a", "b", "", "c", ""]);
    assert_eq!(split_chars("", ','), vec![""]);
}

#[test]
fn trimming_agrees_with_std_on_the_basic_plane() {
    let mut c = 0u32;
    while c <= 0xFFFF {
        if let Some(ch) = char::from_u32(c) {
            let s = format!("{ch}x{ch}");
            assert_eq!(trim_str(&s), s.trim(), "U+{c:04X}");
        }
        c += 1;
    }
}
