use aam_rs::aaml::types_registry::validate_field_type;
use aam_rs::aaml::validation::TypeRef;
use aam_rs::aaml::AAML;
use aam_rs::commands::typecm::TypeDefinition;
use aam_rs::error::AamlError;
use aam_rs::table::Table;

fn data(pairs: &[(&str, &str)]) -> Table<String> {
    let mut t = Table::new();
    for (k, v) in pairs {
        t.insert(k.to_string(), v.to_string());
    }
    t
}

#[test]
fn optional_fields_may_be_absent() {
    let doc = AAML::parse("@schema S { a: i32, b*: string }").unwrap();
    assert!(doc.apply_schema("S", &data(&[("a", "1")])).is_ok());
    // `b` is a string, and a string takes any text.
    assert!(doc.apply_schema("S", &data(&[("a", "1"), ("b", "123notbool")])).is_ok());

    let strict = AAML::parse("@schema S { a: i32, b*: bool }").unwrap();
    assert!(strict.apply_schema("S", &data(&[("a", "1")])).is_ok());
    let err = strict.apply_schema("S", &data(&[("a", "1"), ("b", "123notbool")])).unwrap_err();
    assert_eq!(
        err.to_string(),
        "Schema 'S' validation error: field 'b' (type 'bool') — \
         Invalid value: Expected 'true' or 'false', got '123notbool'"
    );
}

#[test]
fn apply_schema_reports_first_field_in_declaration_order() {
    let doc = AAML::parse("@schema S { z: i32, a: i32, m: i32 }").unwrap();
    let err = doc.apply_schema("S", &data(&[])).unwrap_err();
    assert_eq!(
        err.to_string(),
        "Schema 'S' validation error: field 'z' (type 'i32') — Missing required field 'z'"
    );
    let err = doc.apply_schema("S", &data(&[("z", "1"), ("m", "x"), ("a", "y")])).unwrap_err();
    match err {
        AamlError::SchemaValidationError { schema, field, ty, details } => {
            assert_eq!(schema, "S");
            assert_eq!(field, "a");
            assert_eq!(ty, "i32");
            assert_eq!(details, "Invalid value: Expected a 32-bit integer, got 'y'");
        }
        other => panic!("unexpected error: {}", other.to_string()),
    }
}

#[test]
fn apply_schema_of_unknown_schema() {
    let doc = AAML::new();
    let err = doc.apply_schema("Nope", &data(&[])).unwrap_err();
    assert!(matches!(&err, AamlError::NotFound(msg) if msg == "Schema 'Nope' not found"));
    assert_eq!(err.to_string(), "Key not found: 'Schema 'Nope' not found'");
}

#[test]
fn apply_schema_leaves_the_document_alone() {
    let doc = AAML::parse("@schema S { a: i32 }").unwrap();
    doc.apply_schema("S", &data(&[("a", "1")])).unwrap();
    assert!(doc.find_obj("a").is_none());
    assert!(doc.map().is_empty());
}

#[test]
fn list_of_schema_names_the_failing_item() {
    let doc = AAML::parse(
        "@schema Item { item_name: string, item_weight: f64 }\n@schema Bag { items: list<Item> }",
    )
    .unwrap();
    let ok = data(&[("items", "[{item_name=X, item_weight=1.0}, {item_name=Y, item_weight=2}]")]);
    assert!(doc.apply_schema("Bag", &ok).is_ok());

    let bad = data(&[("items", "[{item_name=X, item_weight=1.0}, {item_name=Y, item_weight=bad}]")]);
    let err = doc.apply_schema("Bag", &bad).unwrap_err();
    match &err {
        AamlError::SchemaValidationError { schema, field, ty, details } => {
            assert_eq!(schema, "Bag");
            assert_eq!(field, "items");
            assert_eq!(ty, "list<Item>");
            assert_eq!(
                details,
                "Schema 'Item' validation error: field 'item_weight' (type 'f64') — \
                 Invalid value: Expected a number, got 'bad'"
            );
        }
        other => panic!("unexpected error: {}", other.to_string()),
    }
}

#[test]
fn unknown_type_is_named() {
    let doc = AAML::parse("@schema S { speed: unicorn_type }").unwrap();
    let err = doc.apply_schema("S", &data(&[("speed", "42")])).unwrap_err();
    assert_eq!(
        err.to_string(),
        "Schema 'S' validation error: field 'speed' (type 'unicorn_type') — Unknown type 'unicorn_type'"
    );
    let err = doc.validate_typed_field("nope::thing", "1", "S", "f").unwrap_err();
    assert_eq!(
        err.to_string(),
        "Schema 'S' validation error: field 'f' (type 'nope::thing') — Unknown type 'nope::thing'"
    );
}

#[test]
fn registered_type_comes_before_schema_and_builtin() {
    // The alias `i32` hides the primitive of that name.
    let doc = AAML::parse("@type i32 = bool\n@schema S { n: i32 }").unwrap();
    assert!(doc.apply_schema("S", &data(&[("n", "true")])).is_ok());
    assert!(doc.apply_schema("S", &data(&[("n", "1")])).is_err());

    // A schema named like a primitive hides it too.
    let doc = AAML::parse("@schema bool { x: i32 }\n@schema S { b: bool }").unwrap();
    assert!(doc.apply_schema("S", &data(&[("b", "{ x = 1 }")])).is_ok());
    assert!(doc.apply_schema("S", &data(&[("b", "true")])).is_err());
}

#[test]
fn alias_is_resolved_when_a_value_is_checked() {
    let doc = AAML::parse("@type broken = nowhere::thing\n@schema S { b: broken }").unwrap();
    assert!(doc.get_type("broken").is_some());
    let err = doc.apply_schema("S", &data(&[("b", "1")])).unwrap_err();
    assert_eq!(
        err.to_string(),
        "Schema 'S' validation error: field 'b' (type 'broken') — Key not found: 'nowhere::thing'"
    );
}

#[test]
fn inline_object_rules() {
    let doc = AAML::parse("@schema P { x: f64, y: f64, tag*: string }").unwrap();
    assert!(doc.validate_inline_object_against_schema("{ x = 1, y: 2 }", "P").is_ok());
    // Keys that the schema does not declare are ignored.
    assert!(doc.validate_inline_object_against_schema("{ x = 1, y = 2, extra = ? }", "P").is_ok());
    // Where a key is written twice, the last counts.
    assert!(doc.validate_inline_object_against_schema("{ x = bad, y = 2, x = 1 }", "P").is_ok());
    assert!(doc.validate_inline_object_against_schema("{ x = 1, y = 2, x = bad }", "P").is_err());

    let err = doc.validate_inline_object_against_schema("{ x = 1 }", "P").unwrap_err();
    assert_eq!(
        err.to_string(),
        "Schema 'P' validation error: field 'y' (type 'f64') — \
         Missing field 'y' in inline object for schema 'P'"
    );
    let err = doc.validate_inline_object_against_schema("x = 1", "P").unwrap_err();
    assert_eq!(
        err.to_string(),
        "Invalid value: Field typed as schema 'P' must be an inline object '{ k = v, ... }', got: 'x = 1'"
    );
    let err = doc.validate_inline_object_against_schema("{ x }", "P").unwrap_err();
    assert_eq!(
        err.to_string(),
        "Invalid value: Failed to parse inline object for schema 'P': \
         Inline object field 'x' has no '=' or ':' separator"
    );
}

#[test]
fn schema_that_refers_to_itself_ends_with_the_value() {
    let doc = AAML::parse("@schema Node { label: string, next*: Node }").unwrap();
    let ok = "{ label = a, next = { label = b, next = { label = c } } }";
    assert!(doc.validate_inline_object_against_schema(ok, "Node").is_ok());
    let bad = "{ label = a, next = { label = b, next = { nolabel = c } } }";
    assert!(doc.validate_inline_object_against_schema(bad, "Node").is_err());
}

#[test]
fn list_rules() {
    let doc = AAML::parse("@type n = i32\n@schema P { x: i32 }").unwrap();
    assert!(doc.validate_list_value("[1, 2, 3]", "i32").is_ok());
    assert!(doc.validate_list_value("[]", "i32").is_ok());
    assert!(doc.validate_list_value("[ , 1, ]", "i32").is_ok());
    assert!(doc.validate_list_value("[1, 2]", "n").is_ok());
    assert!(doc.validate_list_value("[{x = 1}, {x = 2}]", "P").is_ok());
    assert!(doc.validate_list_value("[[1, 2], [], [3]]", "list<i32>").is_ok());
    assert!(doc.validate_list_value("[[{x = 1}], [{x = 2}, {x = 3}]]", "list<P>").is_ok());
    // An empty list never asks for its item type.
    assert!(doc.validate_list_value("[]", "unicorn").is_ok());

    let err = doc.validate_list_value("1, 2", "i32").unwrap_err();
    assert_eq!(err.to_string(), "Invalid value: Expected a list literal '[…]', got '1, 2'");
    let err = doc.validate_list_value("[1, x]", "i32").unwrap_err();
    assert_eq!(
        err.to_string(),
        "Invalid value: List item 'x' failed for type 'i32': \
         Invalid value: Expected a 32-bit integer, got 'x'"
    );
    let err = doc.validate_list_value("[1]", "unicorn").unwrap_err();
    assert!(matches!(&err, AamlError::NotFound(m) if m == "Unknown list element type 'unicorn'"));
    let err = doc.validate_list_value("[[1], [x]]", "list<i32>").unwrap_err();
    assert_eq!(
        err.to_string(),
        "Invalid value: List item 'x' failed for type 'i32': \
         Invalid value: Expected a 32-bit integer, got 'x'"
    );
}

#[test]
fn assignment_is_checked_by_the_first_schema_that_declares_the_key() {
    let doc = AAML::parse("@schema A { v: i32 }\n@schema B { v: bool }\nv = 5");
    assert!(doc.is_ok());
    let err = AAML::parse("@schema A { v: i32 }\n@schema B { v: bool }\nv = true").unwrap_err();
    match err {
        AamlError::SchemaValidationError { schema, .. } => assert_eq!(schema, "A"),
        other => panic!("unexpected error: {}", other.to_string()),
    }
    // Declaring `A` again keeps its place in front of `B`.
    let doc = AAML::parse("@schema A { v: i32 }\n@schema B { v: bool }\n@schema A { v: f64 }\nv = 1.5");
    assert!(doc.is_ok());
    // A key that no schema declares is stored unchecked.
    assert!(AAML::parse("@schema A { v: i32 }\nw = anything").is_ok());
    // A rejected value is not stored.
    let mut doc = AAML::new();
    doc.merge_content("@schema A { v: i32 }").unwrap();
    assert!(doc.merge_content("v = x").is_err());
    assert!(doc.find_obj("v").is_none());
}

#[test]
fn completeness() {
    let doc = AAML::parse("@schema A { a: i32, b*: i32 }\n@schema B { c: i32 }\na = 1").unwrap();
    let err = doc.validate_schemas_completeness().unwrap_err();
    assert_eq!(
        err.to_string(),
        "Schema 'B' validation error: field 'c' (type 'i32') — Missing required field 'c'"
    );
    assert!(doc.validate_schemas_completeness_for(&["A"]).is_ok());
    assert!(doc.validate_schemas_completeness_for(&["Unknown"]).is_ok());
    assert!(doc.validate_schemas_completeness_for(&[]).is_ok());
    assert!(doc.validate_schemas_completeness_for(&["A", "B"]).is_err());
    assert_eq!(doc.schema_names(), vec!["A", "B"]);
}

#[test]
fn check_type_and_validate_value() {
    let mut doc = AAML::parse("@type count = i32").unwrap();
    assert!(doc.check_type("count", "42").is_ok());
    let err = doc.check_type("count", "x").unwrap_err();
    assert_eq!(err.to_string(), "Invalid value: Expected a 32-bit integer, got 'x'");
    let err = doc.check_type("i32", "1").unwrap_err();
    assert!(matches!(&err, AamlError::NotFound(n) if n == "i32"));

    let err = doc.validate_value("count", "x").unwrap_err();
    match &err {
        AamlError::InvalidType { ty, details } => {
            assert_eq!(ty, "count");
            assert_eq!(details, "Invalid value: Expected a 32-bit integer, got 'x'");
        }
        other => panic!("unexpected error: {}", other.to_string()),
    }
    assert_eq!(
        err.to_string(),
        "Invalid type 'count': Invalid value: Expected a 32-bit integer, got 'x'"
    );
    assert!(matches!(doc.validate_value("unknown_type", "v").unwrap_err(), AamlError::NotFound(_)));

    doc.register_type("anything".to_string(), TypeDefinition::Alias("x".to_string()));
    assert!(doc.check_type("anything", "whatever").is_ok());
    doc.unregister_type("count");
    assert!(doc.get_type("count").is_none());
    assert!(doc.get_type("anything").is_some());
}

#[test]
fn field_type_with_and_without_registered_type() {
    let def = TypeDefinition::Primitive("bool".to_string());
    assert!(validate_field_type(Some(&def), "flag", "true", "S", "f").is_ok());
    let err = validate_field_type(Some(&def), "flag", "1", "S", "f").unwrap_err();
    assert_eq!(
        err.to_string(),
        "Schema 'S' validation error: field 'f' (type 'flag') — \
         Invalid value: Expected 'true' or 'false', got '1'"
    );
    assert!(validate_field_type(None, "i32", "1", "S", "f").is_ok());
    let err = validate_field_type(None, "flag", "1", "S", "f").unwrap_err();
    assert_eq!(
        err.to_string(),
        "Schema 'S' validation error: field 'f' (type 'flag') — Unknown type 'flag'"
    );
}

#[test]
fn type_names_resolve_in_a_fixed_order() {
    let doc = AAML::parse("@type alias = bool\n@schema Point { x: i32 }\n@type Point = i32").unwrap();
    assert!(matches!(doc.resolve_type("alias").unwrap(), TypeRef::Custom(TypeDefinition::Primitive(p)) if p == "bool"));
    // `Point` is a type and a schema: the type comes first.
    assert!(matches!(doc.resolve_type("Point").unwrap(), TypeRef::Custom(_)));
    let doc = AAML::parse("@schema Point { x: i32 }\n@schema list<Point> { y: i32 }").unwrap();
    assert!(matches!(doc.resolve_type("Point").unwrap(), TypeRef::SchemaName(n) if n == "Point"));
    // A schema can be named like a list: the schema comes first.
    assert!(matches!(doc.resolve_type("list<Point>").unwrap(), TypeRef::SchemaName(n) if n == "list<Point>"));
    assert!(matches!(doc.resolve_type(" list< Point > ").unwrap(), TypeRef::ListOf(n) if n == "Point"));
    assert!(matches!(doc.resolve_type("list<unicorn>").unwrap(), TypeRef::ListOf(n) if n == "unicorn"));
    assert!(matches!(doc.resolve_type("math::vector2").unwrap(), TypeRef::Builtin(_)));
    assert!(matches!(doc.resolve_type("i32").unwrap(), TypeRef::Builtin(_)));
    assert!(matches!(doc.resolve_type("unicorn").unwrap_err(), AamlError::NotFound(n) if n == "unicorn"));
    assert!(matches!(doc.resolve_type("point").unwrap_err(), AamlError::NotFound(_)));
}
