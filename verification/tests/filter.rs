use open_pubusb::error::Error;
use open_pubusb::filter::ast::{CompareOp, Expr};
use open_pubusb::filter::compile;
use open_pubusb::filter::parser::parse;
use open_pubusb::string_map::StringMap;

fn attrs(pairs: &[(&str, &str)]) -> StringMap {
    string_map(pairs.iter().map(|(k, v)| (k.to_string(), v.to_string())))
}

fn string_map(pairs: impl Iterator<Item = (String, String)>) -> StringMap {
    let mut m = StringMap::new();
    for (k, v) in pairs {
        m.insert(k, v);
    }
    m
}

// -- evaluation


#[test]
fn eq_matches_when_present_and_equal() {
    let e = parse(r#"attributes.type = "order""#).unwrap();
    assert!(e.matches(&attrs(&[("type", "order")])));
    assert!(!e.matches(&attrs(&[("type", "other")])));
    assert!(!e.matches(&attrs(&[])));
}

#[test]
fn ne_is_false_when_attribute_absent() {
    let e = parse(r#"attributes.type != "order""#).unwrap();
    assert!(!e.matches(&attrs(&[])));
    assert!(e.matches(&attrs(&[("type", "other")])));
    assert!(!e.matches(&attrs(&[("type", "order")])));
}

#[test]
fn has_attr_ignores_value() {
    let e = parse("attributes:region").unwrap();
    assert!(e.matches(&attrs(&[("region", "")])));
    assert!(!e.matches(&attrs(&[])));
}

#[test]
fn has_prefix_matches_prefix() {
    let e = parse(r#"hasPrefix(attributes.name, "us-")"#).unwrap();
    assert!(e.matches(&attrs(&[("name", "us-east1")])));
    assert!(!e.matches(&attrs(&[("name", "eu-west1")])));
}

#[test]
fn not_and_or_combine_per_evaluation_table() {
    let e = parse(
        r#"NOT attributes:debug AND (attributes.env = "prod" OR attributes.env = "stage")"#,
    )
    .unwrap();
    assert!(e.matches(&attrs(&[("env", "stage")])));
    assert!(e.matches(&attrs(&[("env", "prod")])));
    assert!(!e.matches(&attrs(&[("env", "dev")])));
    assert!(!e.matches(&attrs(&[("env", "stage"), ("debug", "true")])));
}

// -- parsing

#[test]
fn parses_simple_comparison() {
    let expr = parse(r#"attributes.type = "order""#).unwrap();
    assert_eq!(
        expr,
        Expr::Compare {
            attr: "type".to_string(),
            op: CompareOp::Eq,
            value: "order".to_string(),
        }
    );
}

#[test]
fn rejects_mixed_and_or_without_parens() {
    assert!(
        parse(r#"attributes.a = "1" AND attributes.b = "2" OR attributes.c = "3""#).is_err()
    );
}

#[test]
fn accepts_mixed_and_or_with_parens() {
    assert!(parse(
        r#"NOT attributes:debug AND (attributes.env = "prod" OR attributes.env = "stage")"#
    )
    .is_ok());
}

#[test]
fn rejects_bare_data_field() {
    assert!(parse(r#"data = "x""#).is_err());
}

#[test]
fn accepts_attribute_literally_named_data() {
    assert!(parse(r#"attributes.data = "x""#).is_ok());
}

#[test]
fn accepts_quoted_key_with_dot() {
    let expr = parse(r#"attributes."my.key" = "v""#).unwrap();
    assert_eq!(
        expr,
        Expr::Compare {
            attr: "my.key".to_string(),
            op: CompareOp::Eq,
            value: "v".to_string(),
        }
    );
}

#[test]
fn rejects_over_256_chars() {
    let long_value = "x".repeat(300);
    let filter = format!(r#"attributes.a = "{long_value}""#);
    assert!(parse(&filter).is_err());
}

// -- compiling

#[test]
fn empty_filter_compiles_to_none() {
    assert_eq!(compile("").unwrap(), None);
    assert_eq!(compile("   ").unwrap(), None);
}

#[test]
fn non_empty_filter_compiles_to_some() {
    assert!(compile(r#"attributes.k = "v""#).unwrap().is_some());
}

#[test]
fn invalid_filter_is_rejected() {
    assert!(compile(r#"data = "x""#).is_err());
}


#[test]
fn contract_table_attributes_type_eq_order_matches() {
    let f = compile(r#"attributes.type = "order""#).unwrap().unwrap();
    assert!(f.matches(&attrs(&[("type", "order")])));
}

#[test]
fn contract_table_attributes_type_ne_order_absent_does_not_match() {
    let f = compile(r#"attributes.type != "order""#).unwrap().unwrap();
    assert!(!f.matches(&attrs(&[])));
}

#[test]
fn contract_table_attributes_region_has_attr_matches() {
    let f = compile("attributes:region").unwrap().unwrap();
    assert!(f.matches(&attrs(&[("region", "")])));
}

#[test]
fn contract_table_has_prefix_matches() {
    let f = compile(r#"hasPrefix(attributes.name, "us-")"#)
        .unwrap()
        .unwrap();
    assert!(f.matches(&attrs(&[("name", "us-east1")])));
}

#[test]
fn contract_table_not_and_or_with_parens_matches() {
    let f = compile(
        r#"NOT attributes:debug AND (attributes.env = "prod" OR attributes.env = "stage")"#,
    )
    .unwrap()
    .unwrap();
    assert!(f.matches(&attrs(&[("env", "stage")])));
}

#[test]
fn contract_table_and_or_mixing_without_parens_is_invalid_argument() {
    let err =
        compile(r#"attributes.a = "1" AND attributes.b = "2" OR attributes.c = "3""#).unwrap_err();
    assert!(matches!(err, Error::InvalidArgument { .. }));
}

#[test]
fn contract_table_quoted_key_with_dot_matches() {
    let f = compile(r#"attributes."my.key" = "v""#).unwrap().unwrap();
    assert!(f.matches(&attrs(&[("my.key", "v")])));
}

#[test]
fn contract_table_attribute_named_data_is_syntactically_valid() {
    assert!(compile(r#"attributes.data = "x""#).unwrap().is_some());
}

#[test]
fn contract_table_bare_data_field_is_invalid_argument() {
    let err = compile(r#"data = "x""#).unwrap_err();
    assert!(matches!(err, Error::InvalidArgument { .. }));
}

#[test]
fn contract_table_257_chars_is_invalid_argument() {
    let filter = "attributes.k".to_string() + &" ".repeat(300);
    assert!(filter.chars().count() > 256);
    let err = compile(&filter).unwrap_err();
    assert!(matches!(err, Error::InvalidArgument { .. }));
}

#[test]
fn evaluation_never_panics() {
    let terms = [
        r#"attributes.a = "x""#,
        r#"attributes.b != "y1""#,
        "attributes:c",
        r#"hasPrefix(attributes.d, "us")"#,
        r#"attributes.e = """#,
    ];
    let maps = [
        attrs(&[]),
        attrs(&[("a", "x")]),
        attrs(&[("b", "y1"), ("c", "")]),
        attrs(&[("d", "us-east"), ("e", "")]),
        attrs(&[("a", ""), ("b", ""), ("c", "z"), ("d", "u"), ("e", "9")]),
    ];
    for first in terms {
        for second in terms {
            for op in ["AND", "OR"] {
                let src = format!("{first} {op} {second}");
                if let Ok(Some(compiled)) = compile(&src) {
                    for m in &maps {
                        let _ = compiled.matches(m);
                    }
                }
            }
        }
    }
}

#[test]
fn double_negation_and_nested_groups_evaluate() {
    let f = compile(r#"NOT (NOT attributes:a)"#).unwrap().unwrap();
    assert!(f.matches(&attrs(&[("a", "1")])));
    assert!(!f.matches(&attrs(&[])));
    let f = compile(r#"(attributes:a AND attributes:b) OR (attributes:c AND NOT attributes:d)"#)
        .unwrap()
        .unwrap();
    assert!(f.matches(&attrs(&[("a", ""), ("b", "")])));
    assert!(f.matches(&attrs(&[("c", "")])));
    assert!(!f.matches(&attrs(&[("c", ""), ("d", "")])));
}

#[test]
fn unfinished_filters_are_rejected() {
    for src in [
        "attributes",
        "attributes.",
        "attributes:",
        r#"attributes.a ="#,
        r#"attributes.a = "x"#,
        r#"(attributes:a"#,
        r#"attributes:a AND"#,
        r#"hasPrefix(attributes.a)"#,
        r#"attributes:a attributes:b"#,
        "NOT",
    ] {
        assert!(matches!(compile(src), Err(Error::InvalidArgument { .. })), "{src}");
    }
}

#[test]
fn errors_tell_where_the_filter_stops_making_sense() {
    for (src, at) in [
        ("", 1),
        ("data = 1", 1),
        ("attributes.", 12),
        (r#"attributes.a "x""#, 14),
        (r#"attributes.a = x"#, 16),
        (r#"attributes.a = "x"#, 18),
        (r#"attributes.a = "x\q""#, 18),
        (r#"attributes:a AND"#, 17),
        (r#"attributes:a AND attributes:b OR attributes:c"#, 31),
        (r#"(attributes:a"#, 14),
        (r#"NOT hasPrefix(attributes.a)"#, 27),
        (r#"hasPrefix(attributes.a, "x" attributes"#, 29),
        (r#"attributes:a attributes:b"#, 14),
    ] {
        match parse(src) {
            Err(Error::InvalidArgument { field, message }) => {
                assert_eq!(field, "filter");
                assert_eq!(message, format!("syntax error: at character {at}"), "{src}");
            },
            other => panic!("expected an error for {src}, got {other:?}"),
        }
    }
}
