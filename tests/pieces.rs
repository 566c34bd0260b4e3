use derive_fromstr::options::apply_one;
use derive_fromstr::text::{parse_decimal, text_eq};
use derive_fromstr::{
    build_table, error_type_name, normalize, parse_options, transform_of, validate_schema, Config,
    Directive, DirectiveArg, EnumSchema, GenerateError, Transform, VariantDecl,
};

fn config(trim: bool, lowercase: bool, truncate: Option<usize>) -> Config {
    Config { trim, lowercase, truncate }
}

#[test]
fn decimal_digits() {
    assert_eq!(parse_decimal("0"), Some(0));
    assert_eq!(parse_decimal("123"), Some(123));
    assert_eq!(parse_decimal("007"), Some(7));
    assert_eq!(parse_decimal(""), None);
    assert_eq!(parse_decimal("1a"), None);
    assert_eq!(parse_decimal("-1"), None);
    assert_eq!(parse_decimal(&usize::MAX.to_string()), Some(usize::MAX));
    assert_eq!(parse_decimal(&format!("{}0", usize::MAX)), None);
}

#[test]
fn text_equality() {
    assert!(text_eq("abc", "abc"));
    assert!(!text_eq("abc", "abd"));
    assert!(!text_eq("abc", "ab"));
    assert!(text_eq("", ""));
}

#[test]
fn normalization() {
    assert_eq!(normalize("  MiXeD  ", &config(false, false, None)), "  MiXeD  ");
    assert_eq!(normalize("  MiXeD  ", &config(true, false, None)), "MiXeD");
    assert_eq!(normalize("  MiXeD  ", &config(false, true, None)), "  mixed  ");
    assert_eq!(normalize("  MiXeD  ", &config(true, true, None)), "mixed");
    assert_eq!(normalize("\u{2003}ÄB\u{85}", &config(true, true, None)), "äb");
}

#[test]
fn transforms() {
    assert_eq!(transform_of(&config(false, false, None)), Transform::Identity);
    assert_eq!(transform_of(&config(true, false, None)), Transform::Trim);
    assert_eq!(transform_of(&config(false, true, None)), Transform::Lowercase);
    assert_eq!(transform_of(&config(true, true, Some(2))), Transform::TrimThenLowercase);
}

#[test]
fn options() {
    let ds = vec![
        Directive::Flag("lowercase".to_string()),
        Directive::Keyed("truncate".to_string(), vec![DirectiveArg::Int("4".to_string())]),
    ];
    assert_eq!(parse_options(&ds), Ok(config(false, true, Some(4))));
    assert_eq!(parse_options(&vec![]), Ok(config(false, false, None)));
}

#[test]
fn schema_validation() {
    let mut s = EnumSchema {
        name: "E".to_string(),
        variants: vec![
            VariantDecl { name: "A".to_string(), is_unit: true },
            VariantDecl { name: "B".to_string(), is_unit: true },
        ],
    };
    assert_eq!(validate_schema(&s), Ok(()));
    s.variants[1].is_unit = false;
    assert_eq!(validate_schema(&s), Err(GenerateError::VariantWithData(1)));
}

#[test]
fn table_layout() {
    let vs = vec![
        VariantDecl { name: "Get".to_string(), is_unit: true },
        VariantDecl { name: "Post".to_string(), is_unit: true },
    ];
    let t = build_table(&vs, &config(false, true, Some(2)));
    let pats: Vec<(&str, usize)> = t.iter().map(|e| (e.pattern.as_str(), e.variant)).collect();
    assert_eq!(pats, vec![("get", 0), ("post", 1), ("ge", 0), ("po", 1)]);
}

#[test]
fn error_type_names() {
    assert_eq!(error_type_name("Method"), "ParseMethodError");
    assert_eq!(error_type_name(""), "ParseError");
}

#[test]
fn single_directives() {
    let trim = Directive::Flag("trim".to_string());
    assert!(trim.is_flag_named("trim"));
    assert!(!trim.is_flag_named("lowercase"));
    let base = config(false, false, Some(5));
    assert_eq!(apply_one(base, &trim, 3), Ok(config(true, false, Some(5))));
    let cut = Directive::Keyed("truncate".to_string(), vec![DirectiveArg::Int("2".to_string())]);
    assert_eq!(apply_one(base, &cut, 3), Ok(base));
    assert_eq!(apply_one(config(false, false, None), &cut, 3), Ok(config(false, false, Some(2))));
    let bad = Directive::Flag("truncate".to_string());
    assert_eq!(apply_one(base, &bad, 3), Err(GenerateError::MalformedTruncate(3)));
}
