use derive_fromstr::{
    derive_fromstr, Directive, DirectiveArg, EnumSchema, GenerateError, Generated, ParseError,
    VariantDecl,
};

fn schema(name: &str, variants: &[&str]) -> EnumSchema {
    EnumSchema {
        name: name.to_string(),
        variants: variants
            .iter()
            .map(|v| VariantDecl { name: v.to_string(), is_unit: true })
            .collect(),
    }
}

fn flag(name: &str) -> Directive {
    Directive::Flag(name.to_string())
}

fn truncate(n: &str) -> Directive {
    Directive::Keyed("truncate".to_string(), vec![DirectiveArg::Int(n.to_string())])
}

fn generate(directives: Vec<Directive>, variants: &[&str]) -> Generated {
    derive_fromstr(&directives, &schema("Color", variants)).unwrap()
}

fn unknown(s: &str) -> Result<usize, ParseError> {
    Err(ParseError::UnknownVariant(s.to_string()))
}

#[test]
fn no_options_exact_names_only() {
    let g = generate(vec![], &["Red", "Green"]);
    assert_eq!(g.parse("Red"), Ok(0));
    assert_eq!(g.parse("Green"), Ok(1));
    assert_eq!(g.parse("red"), unknown("red"));
    assert_eq!(g.parse(" Red"), unknown(" Red"));
    assert_eq!(g.parse(""), unknown(""));
    assert_eq!(g.parse("Blue"), unknown("Blue"));
}

#[test]
fn lowercase_accepts_any_casing() {
    let g = generate(vec![flag("lowercase")], &["Red", "Green"]);
    assert_eq!(g.parse("RED"), Ok(0));
    assert_eq!(g.parse("red"), Ok(0));
    assert_eq!(g.parse("gReEn"), Ok(1));
    assert_eq!(g.parse(" red"), unknown(" red"));
}

#[test]
fn trim_keeps_raw_input_in_error() {
    let g = generate(vec![flag("trim"), flag("lowercase")], &["Red", "Green"]);
    assert_eq!(g.parse("  red!  "), unknown("  red!  "));
}

#[test]
fn trim_alone_is_case_sensitive() {
    let g = generate(vec![flag("trim")], &["Red", "Green"]);
    assert_eq!(g.parse("\t Red \n"), Ok(0));
    assert_eq!(g.parse("  red  "), unknown("  red  "));
}

#[test]
fn trim_then_lowercase() {
    let g = generate(vec![flag("lowercase"), flag("trim")], &["Red", "Green"]);
    assert_eq!(g.parse("  RED  "), Ok(0));
    assert_eq!(g.parse("\u{3000}Green\u{a0}"), Ok(1));
}

#[test]
fn truncate_adds_aliases() {
    let g = generate(vec![truncate("2")], &["Get", "Post"]);
    assert_eq!(g.parse("Ge"), Ok(0));
    assert_eq!(g.parse("Po"), Ok(1));
    assert_eq!(g.parse("Get"), Ok(0));
    assert_eq!(g.parse("Post"), Ok(1));
    assert_eq!(g.parse("xx"), unknown("xx"));
    assert_eq!(g.parse("G"), unknown("G"));
}

#[test]
fn truncate_skips_short_names() {
    let g = generate(vec![truncate("2")], &["Ab", "C", "Post"]);
    assert_eq!(g.table.len(), 4);
    assert_eq!(g.table[3].pattern, "Po");
    assert_eq!(g.table[3].variant, 2);
    assert_eq!(g.parse("A"), unknown("A"));
}

#[test]
fn truncate_with_lowercase() {
    let g = generate(vec![truncate("2"), flag("lowercase")], &["Get", "Post"]);
    assert_eq!(g.parse("GE"), Ok(0));
    assert_eq!(g.parse("po"), Ok(1));
    assert_eq!(g.table[2].pattern, "ge");
}

#[test]
fn truncate_counts_characters() {
    let g = generate(vec![truncate("2")], &["Über", "Ärger"]);
    assert_eq!(g.parse("Üb"), Ok(0));
    assert_eq!(g.parse("Är"), Ok(1));
}

#[test]
fn repeated_directives_change_nothing() {
    let once = generate(vec![flag("trim"), truncate("2")], &["Get", "Post"]);
    let twice = generate(
        vec![flag("trim"), truncate("2"), flag("trim"), truncate("2")],
        &["Get", "Post"],
    );
    assert_eq!(once, twice);
    assert_eq!(twice.parse(" Ge "), Ok(0));
}

#[test]
fn first_truncate_wins() {
    let g = generate(vec![truncate("2"), truncate("3")], &["Getter"]);
    assert_eq!(g.config.truncate, Some(2));
    assert_eq!(g.parse("Ge"), Ok(0));
    assert_eq!(g.parse("Get"), unknown("Get"));
}

#[test]
fn round_trip_every_config() {
    let names = ["Alpha", "Beta", "Gamma", "Delta"];
    let configs = vec![
        vec![],
        vec![flag("trim")],
        vec![flag("lowercase")],
        vec![flag("trim"), flag("lowercase"), truncate("3")],
    ];
    for directives in configs {
        let g = generate(directives, &names);
        for (i, n) in names.iter().enumerate() {
            assert_eq!(g.parse(n), Ok(i));
        }
    }
}

#[test]
fn unknown_directives_are_ignored() {
    let g = generate(
        vec![flag("uppercase"), Directive::Other, Directive::Keyed("trim".to_string(), vec![])],
        &["Red"],
    );
    assert!(!g.config.trim && !g.config.lowercase && g.config.truncate.is_none());
}

#[test]
fn malformed_truncate_is_reported() {
    let cases = vec![
        flag("truncate"),
        Directive::Keyed("truncate".to_string(), vec![]),
        Directive::Keyed("truncate".to_string(), vec![DirectiveArg::Other]),
        truncate("0"),
        Directive::Keyed(
            "truncate".to_string(),
            vec![DirectiveArg::Int("1".to_string()), DirectiveArg::Int("2".to_string())],
        ),
        truncate("99999999999999999999999"),
    ];
    for d in cases {
        let r = derive_fromstr(&vec![flag("trim"), d], &schema("Color", &["Red"]));
        assert_eq!(r, Err(GenerateError::MalformedTruncate(1)));
    }
}

#[test]
fn variant_with_data_is_reported() {
    let mut s = schema("Shape", &["Dot", "Circle", "Rect"]);
    s.variants[1].is_unit = false;
    s.variants[2].is_unit = false;
    assert_eq!(derive_fromstr(&vec![], &s), Err(GenerateError::VariantWithData(1)));
}

#[test]
fn options_are_checked_before_variants() {
    let mut s = schema("Shape", &["Dot"]);
    s.variants[0].is_unit = false;
    assert_eq!(
        derive_fromstr(&vec![flag("truncate")], &s),
        Err(GenerateError::MalformedTruncate(0))
    );
}

#[test]
fn colliding_names_are_reported() {
    let r = derive_fromstr(&vec![flag("lowercase")], &schema("E", &["Ab", "AB"]));
    assert_eq!(r, Err(GenerateError::PatternConflict(0, 1)));
}

#[test]
fn colliding_aliases_are_reported() {
    let r = derive_fromstr(&vec![truncate("2")], &schema("E", &["Post", "Pop"]));
    assert_eq!(r, Err(GenerateError::PatternConflict(0, 1)));
    let r = derive_fromstr(&vec![truncate("2")], &schema("E", &["Get", "Ge"]));
    assert_eq!(r, Err(GenerateError::PatternConflict(1, 0)));
}

#[test]
fn generated_names() {
    let g = generate(vec![], &["Red"]);
    assert_eq!(g.enum_name, "Color");
    assert_eq!(g.error_name, "ParseColorError");
}

#[test]
fn messages() {
    assert_eq!(
        ParseError::UnknownVariant("xx".to_string()).message(),
        "Unknown variant: xx"
    );
    assert_eq!(
        GenerateError::VariantWithData(0).message(),
        "derive_fromstr: variants with data are not supported"
    );
    assert_eq!(
        GenerateError::MalformedTruncate(0).message(),
        "derive_fromstr: truncate expects one positive integer argument"
    );
    assert_eq!(
        GenerateError::PatternConflict(0, 1).message(),
        "derive_fromstr: two variants share a match pattern"
    );
}
