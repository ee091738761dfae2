use aam_rs::commands::typecm::TypeDefinition;
use aam_rs::error::AamlError;
use aam_rs::types::grammar::{text_is_float, text_is_int32, text_is_non_negative_float};
use aam_rs::types::list::{split_top_level, ListType};
use aam_rs::types::math::MathTypes;
use aam_rs::types::physics::PhysicsTypes;
use aam_rs::types::primitive_type::{text_is_color, PrimitiveType};
use aam_rs::types::time::{validate_date_part, validate_datetime, validate_numeric, TimeTypes};
use aam_rs::types::{resolve_builtin, validate_builtin, validate_list, BuiltinType, Type};

#[test]
fn integers_of_32_bits() {
    for ok in ["0", "7", "-7", "+7", "007", "2147483647", "-2147483648", "+2147483647", "-0"] {
        assert!(text_is_int32(ok), "{ok}");
        assert_eq!(ok.parse::<i32>().is_ok(), true, "{ok}");
    }
    for bad in [
        "", "+", "-", "1.0", " 1", "1 ", "2147483648", "-2147483649", "99999999999999999999999",
        "1e3", "0x10", "--1", "1_000", "١",
    ] {
        assert!(!text_is_int32(bad), "{bad}");
        assert_eq!(bad.parse::<i32>().is_ok(), false, "{bad}");
    }
}

#[test]
fn decimal_numbers() {
    for ok in [
        "0", "3.14", "-3.14", "+3.14", "1.", ".5", "-.5", "1e5", "1E5", "1e+5", "1.5e-10", ".5e3",
        "5.e3", "inf", "-inf", "+inf", "INF", "Infinity", "-iNfInItY", "nan", "NaN", "-nan", "007",
    ] {
        assert!(text_is_float(ok), "{ok}");
        assert_eq!(ok.parse::<f64>().is_ok(), true, "{ok}");
    }
    for bad in [
        "", ".", "+", "-", "e5", ".e5", "1e", "1e+", "1.0.0", " 1", "1 ", "1,5", "infinit", "na",
        "1f", "0x10", "++1", "1e5.0", "1_0",
    ] {
        assert!(!text_is_float(bad), "{bad}");
        assert_eq!(bad.parse::<f64>().is_ok(), false, "{bad}");
    }
}

#[test]
fn non_negative_numbers() {
    for ok in ["0", "75.5", "+1", "-0", "-0.0", "-0e5", "inf", "1e-5", "-.0"] {
        assert!(text_is_non_negative_float(ok), "{ok}");
    }
    for bad in ["-1", "-0.001", "-inf", "-Infinity", "nan", "-nan", "bad", "", "-1e-5", "-.5"] {
        assert!(!text_is_non_negative_float(bad), "{bad}");
    }
}

#[test]
fn colors() {
    for ok in ["#fff", "#FFFF", "#ff6600", "#FF6600aa", "#012"] {
        assert!(text_is_color(ok), "{ok}");
    }
    for bad in ["", "#", "fff", "#ff", "#fffff", "#ff66000", "#ggg", "ff6600", "#ff6600aab", "notacolor"] {
        assert!(!text_is_color(bad), "{bad}");
    }
}

#[test]
fn primitive_types() {
    assert_eq!(PrimitiveType::from_name("i32").unwrap(), PrimitiveType::I32);
    assert_eq!(PrimitiveType::from_name("f64").unwrap(), PrimitiveType::F64);
    assert_eq!(PrimitiveType::from_name("string").unwrap(), PrimitiveType::String);
    assert_eq!(PrimitiveType::from_name("bool").unwrap(), PrimitiveType::Bool);
    assert_eq!(PrimitiveType::from_name("color").unwrap(), PrimitiveType::Color);
    assert!(matches!(PrimitiveType::from_name("I32").unwrap_err(), AamlError::NotFound(n) if n == "I32"));
    assert_eq!(PrimitiveType::Bool.base_type(), PrimitiveType::Bool);

    assert!(PrimitiveType::String.validate("").is_ok());
    assert!(PrimitiveType::Bool.validate("true").is_ok());
    assert!(PrimitiveType::Bool.validate("false").is_ok());
    assert!(PrimitiveType::Bool.validate("True").is_err());
    assert_eq!(
        PrimitiveType::I32.validate("x").unwrap_err().to_string(),
        "Invalid value: Expected a 32-bit integer, got 'x'"
    );
    assert_eq!(
        PrimitiveType::F64.validate("x").unwrap_err().to_string(),
        "Invalid value: Expected a number, got 'x'"
    );
    assert_eq!(
        PrimitiveType::Bool.validate("yes").unwrap_err().to_string(),
        "Invalid value: Expected 'true' or 'false', got 'yes'"
    );
    assert_eq!(
        PrimitiveType::Color.validate("red").unwrap_err().to_string(),
        "Invalid value: Expected a color such as #ff6600, got 'red'"
    );
}

#[test]
fn math_types() {
    assert_eq!(MathTypes::from_name("vector2").unwrap().components(), 2);
    assert_eq!(MathTypes::from_name("vector3").unwrap().components(), 3);
    assert_eq!(MathTypes::from_name("vector4").unwrap().components(), 4);
    assert_eq!(MathTypes::from_name("matrix2x2").unwrap().components(), 4);
    assert_eq!(MathTypes::from_name("matrix3x3").unwrap().components(), 9);
    assert_eq!(MathTypes::from_name("matrix4x4").unwrap().components(), 16);
    assert!(MathTypes::from_name("vector5").is_err());
    assert_eq!(MathTypes::Vector3.base_type(), PrimitiveType::F64);

    assert!(MathTypes::Vector3.validate("1.0, 2.0, 3.0").is_ok());
    assert!(MathTypes::Vector3.validate("1,2,3").is_ok());
    assert!(MathTypes::Vector3.validate(" 1 ,\t-2e3 , .5 ").is_ok());
    assert!(MathTypes::Vector3.validate("1.0, 2.0").is_err());
    assert!(MathTypes::Vector3.validate("1, 2, 3, 4").is_err());
    assert!(MathTypes::Vector3.validate("1, 2, 3,").is_err());
    assert!(MathTypes::Vector3.validate("1, , 3").is_err());
    assert!(MathTypes::Vector3.validate("1, x, 3").is_err());
    assert!(MathTypes::Vector2.validate("").is_err());
    assert!(MathTypes::Matrix2x2.validate("1, 0, 0, 1").is_ok());
    assert_eq!(
        MathTypes::Matrix4x4.validate("1").unwrap_err().to_string(),
        "Invalid value: Expected 16 comma-separated numbers, got '1'"
    );
}

#[test]
fn physics_types() {
    assert_eq!(PhysicsTypes::from_name("kilogram").unwrap(), PhysicsTypes::Kilogram);
    assert!(PhysicsTypes::from_name("gram").is_err());
    assert!(PhysicsTypes::Kilogram.validate("75.5").is_ok());
    assert!(PhysicsTypes::Kilogram.validate("0").is_ok());
    assert_eq!(
        PhysicsTypes::Kilogram.validate("-1").unwrap_err().to_string(),
        "Invalid value: Invalid Kilogram '-1': expected a non-negative number"
    );
    assert!(PhysicsTypes::Kilogram.validate("bad").is_err());
}

#[test]
fn time_types() {
    assert!(validate_date_part("2024-01-15"));
    assert!(validate_date_part("0000-00-00"));
    assert!(validate_date_part("+024-+1-+5"));
    assert!(!validate_date_part("2024-1-15"));
    assert!(!validate_date_part("2024-01-15T"));
    assert!(!validate_date_part("2024/01/15"));
    assert!(!validate_date_part("20240-1-15"));
    assert!(!validate_date_part("-024-01-15"));
    assert!(!validate_date_part("2024-01-1x"));
    assert!(!validate_date_part("2024-+-15x"));
    assert!(!validate_date_part(""));

    assert!(validate_datetime("2024-01-15").is_ok());
    assert!(validate_datetime("2024-01-15T10:30:00").is_ok());
    assert!(validate_datetime("2024-01-15 whatever").is_ok());
    assert_eq!(
        validate_datetime("bad-date").unwrap_err().to_string(),
        "Invalid value: Invalid DateTime 'bad-date': \
         expected ISO 8601 format (YYYY-MM-DD or YYYY-MM-DDTHH:MM:SS)"
    );
    assert!(validate_datetime("2024-01-1é").is_err());

    assert!(validate_numeric("1.5", "Year").is_ok());
    assert_eq!(
        validate_numeric("x", "Year").unwrap_err().to_string(),
        "Invalid value: Invalid Year 'x': expected a number"
    );

    assert_eq!(TimeTypes::from_name("datetime").unwrap(), TimeTypes::DateTime);
    assert_eq!(TimeTypes::from_name("duration").unwrap(), TimeTypes::Duration);
    assert_eq!(TimeTypes::from_name("year").unwrap(), TimeTypes::Year);
    assert_eq!(TimeTypes::from_name("day").unwrap(), TimeTypes::Day);
    assert_eq!(TimeTypes::from_name("hour").unwrap(), TimeTypes::Hour);
    assert_eq!(TimeTypes::from_name("minute").unwrap(), TimeTypes::Minute);
    assert!(TimeTypes::from_name("second").is_err());
    assert!(TimeTypes::Duration.validate("P1Y2M").is_ok());
    assert!(TimeTypes::Duration.validate("90.5").is_ok());
    assert_eq!(
        TimeTypes::Duration.validate("1h").unwrap_err().to_string(),
        "Invalid value: Invalid Duration '1h': expected a number"
    );
    assert!(TimeTypes::Hour.validate("12").is_ok());
    assert!(TimeTypes::Minute.validate("half").is_err());
    assert!(TimeTypes::Day.validate("1").is_ok());
    assert_eq!(TimeTypes::Year.base_type(), PrimitiveType::F64);
}

#[test]
fn list_type() {
    assert_eq!(ListType::parse_inner("list<i32>"), Some("i32".to_string()));
    assert_eq!(ListType::parse_inner("  list< math::vector3 >  "), Some("math::vector3".to_string()));
    assert_eq!(ListType::parse_inner("list<list<i32>>"), Some("list<i32>".to_string()));
    assert_eq!(ListType::parse_inner("list<>"), None);
    assert_eq!(ListType::parse_inner("list< >"), None);
    assert_eq!(ListType::parse_inner("list<i32"), None);
    assert_eq!(ListType::parse_inner("List<i32>"), None);
    assert_eq!(ListType::parse_inner("i32"), None);
    assert_eq!(ListType::parse_inner("list"), None);

    assert_eq!(ListType::parse_items("[a, b, c]"), Some(vec!["a".to_string(), "b".to_string(), "c".to_string()]));
    assert_eq!(
        ListType::parse_items(" [{a=1, b=2}, {c=3}] "),
        Some(vec!["{a=1, b=2}".to_string(), "{c=3}".to_string()])
    );
    assert_eq!(ListType::parse_items("[]"), Some(vec![]));
    assert_eq!(ListType::parse_items("[ , ,x,, ]"), Some(vec!["x".to_string()]));
    assert_eq!(ListType::parse_items("["), None);
    assert_eq!(ListType::parse_items("a, b"), None);
    assert_eq!(ListType::parse_items("[a, b"), None);

    assert_eq!(split_top_level(" a , [b, c] , {d, [e, f]} ,, g "), vec!["a", "[b, c]", "{d, [e, f]}", "g"]);
    assert_eq!(split_top_level(""), Vec::<String>::new());
    assert_eq!(split_top_level("a], b"), vec!["a], b"]);

    let list = ListType::new("i32".to_string());
    assert_eq!(list.inner_type, "i32");
    assert_eq!(list.base_type(), PrimitiveType::String);
    assert!(list.validate("[1, 2, 3]").is_ok());
    assert!(list.validate("[]").is_ok());
    assert_eq!(
        list.validate("[1, x]").unwrap_err().to_string(),
        "Invalid value: List item 'x' failed validation for type 'i32': \
         Invalid value: Expected a 32-bit integer, got 'x'"
    );
    assert_eq!(
        list.validate("1, 2").unwrap_err().to_string(),
        "Invalid value: Expected a list literal in the form [item, item, ...], got '1, 2'"
    );
    // The item type of a built-in list is resolved before any item is looked at.
    assert_eq!(
        ListType::new("unicorn".to_string()).validate("[]").unwrap_err().to_string(),
        "Key not found: 'Unknown list element type 'unicorn''"
    );
    assert!(ListType::from_name("list<i32>").is_err());
    assert!(validate_list("list<math::vector2>", "[[1, 2], [3, 4]]").is_err());
    assert!(validate_list("list<i32>", "[[1, 2], [3, 4]]").is_ok());
}

#[test]
fn builtin_resolution() {
    assert!(matches!(resolve_builtin("i32").unwrap(), BuiltinType::Primitive(PrimitiveType::I32)));
    assert!(matches!(resolve_builtin("math::vector3").unwrap(), BuiltinType::Math(MathTypes::Vector3)));
    assert!(matches!(resolve_builtin("time::datetime").unwrap(), BuiltinType::Time(TimeTypes::DateTime)));
    assert!(matches!(
        resolve_builtin("physics::kilogram").unwrap(),
        BuiltinType::Physics(PhysicsTypes::Kilogram)
    ));
    assert!(matches!(resolve_builtin("list<bool>").unwrap(), BuiltinType::List(l) if l.inner_type == "bool"));
    assert!(matches!(resolve_builtin("math::nothing").unwrap_err(), AamlError::NotFound(n) if n == "nothing"));
    assert!(matches!(resolve_builtin("chem::mol").unwrap_err(), AamlError::NotFound(n) if n == "chem::mol"));
    assert!(matches!(resolve_builtin("unicorn").unwrap_err(), AamlError::NotFound(n) if n == "unicorn"));
    assert!(matches!(resolve_builtin("math::").unwrap_err(), AamlError::NotFound(n) if n.is_empty()));
    assert!(matches!(resolve_builtin(" i32").unwrap_err(), AamlError::NotFound(_)));

    let b = resolve_builtin("list<list<bool>>").unwrap();
    assert!(validate_builtin(&b, "[[true], [], [false, true]]").is_ok());
    assert!(validate_builtin(&b, "[[true], [maybe]]").is_err());
    assert_eq!(b.base_type(), PrimitiveType::String);
    assert_eq!(resolve_builtin("math::vector2").unwrap().base_type(), PrimitiveType::F64);
    assert_eq!(resolve_builtin("bool").unwrap().base_type(), PrimitiveType::Bool);
}

#[test]
fn type_definitions() {
    let builtin = TypeDefinition::Builtin("math::vector2".to_string());
    assert!(builtin.validate("1, 2").is_ok());
    assert!(builtin.validate("1").is_err());
    assert_eq!(builtin.base_type(), PrimitiveType::F64);

    let primitive = TypeDefinition::Primitive("bool".to_string());
    assert!(primitive.validate("true").is_ok());
    assert!(primitive.validate("1").is_err());
    assert_eq!(primitive.base_type(), PrimitiveType::Bool);

    let missing = TypeDefinition::Primitive("list<i32>".to_string());
    assert!(matches!(missing.validate("[1]").unwrap_err(), AamlError::NotFound(n) if n == "list<i32>"));
    assert_eq!(missing.base_type(), PrimitiveType::String);

    let alias = TypeDefinition::Alias("anything".to_string());
    assert!(alias.validate("whatever").is_ok());
    assert_eq!(alias.base_type(), PrimitiveType::String);
    assert!(TypeDefinition::from_name("x").is_err());
}

fn for_each_text(alphabet: &[char], max_len: usize, check: &dyn Fn(&str)) {
    let mut indices: Vec<usize> = Vec::new();
    loop {
        let text: String = indices.iter().map(|&i| alphabet[i]).collect();
        check(&text);
        let mut k = 0;
        while k < indices.len() && indices[k] + 1 == alphabet.len() {
            indices[k] = 0;
            k += 1;
        }
        if k < indices.len() {
            indices[k] += 1;
        } else if indices.len() < max_len {
            indices.push(0);
        } else {
            break;
        }
    }
}

#[test]
fn decimal_numbers_agree_with_std_on_short_texts() {
    let alphabet = ['+', '-', '.', 'e', 'E', '0', '7', 'i', 'n', 'f', 'a', 'N'];
    for_each_text(&alphabet, 5, &|text| {
        assert_eq!(text_is_float(text), text.parse::<f64>().is_ok(), "{text:?}");
    });
}

#[test]
fn integers_agree_with_std_on_short_texts() {
    let alphabet = ['+', '-', '0', '1', '9', ' ', '.'];
    for_each_text(&alphabet, 6, &|text| {
        assert_eq!(text_is_int32(text), text.parse::<i32>().is_ok(), "{text:?}");
    });
    for n in [2147483646i64, 2147483647, 2147483648, 2147483649, 21474836470, 4294967296] {
        for text in [format!("{n}"), format!("-{n}"), format!("+{n}"), format!("0{n}")] {
            assert_eq!(text_is_int32(&text), text.parse::<i32>().is_ok(), "{text:?}");
        }
    }
}
