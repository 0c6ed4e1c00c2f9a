use percival::{parse, Expected, Fact, Label, Program, Rule, SyntaxError, Value};

fn id(s: &str) -> Value {
    Value::Id(s.to_string())
}

fn fact(name: &str, props: &[(&str, &str)]) -> Fact {
    Fact {
        name: name.to_string(),
        props: props.iter().map(|(k, v)| (k.to_string(), id(v))).collect(),
    }
}

fn err(pos: usize, expected: Expected, label: Label) -> Result<Program, SyntaxError> {
    Err(SyntaxError { pos, expected, label })
}

#[test]
fn round_trip_structure() {
    let p = parse("h(a: x) :- b(a: x), c(a: x).").unwrap();
    assert_eq!(p.rules.len(), 1);
    let r = &p.rules[0];
    assert_eq!(r.head, fact("h", &[("a", "x")]));
    assert_eq!(r.clauses, vec![fact("b", &[("a", "x")]), fact("c", &[("a", "x")])]);
}

#[test]
fn shorthand_property_desugars() {
    let short = parse("p(x) :- q().").unwrap();
    let long = parse("p(x: x) :- q().").unwrap();
    assert_eq!(short, long);
    assert_eq!(short.rules[0].head, fact("p", &[("x", "x")]));
}

#[test]
fn empty_props() {
    let p = parse("p() :- q().").unwrap();
    assert_eq!(p.rules[0].head, fact("p", &[]));
    assert!(p.rules[0].head.props.is_empty());
    assert_eq!(p.rules[0].clauses, vec![fact("q", &[])]);
}

#[test]
fn whitespace_insensitive() {
    let spaced = parse("p ( x : y ) :- q(x).").unwrap();
    let tight = parse("p(x:y):-q(x).").unwrap();
    assert_eq!(spaced, tight);
    assert_eq!(tight.rules[0].head, fact("p", &[("x", "y")]));
    assert_eq!(tight.rules[0].clauses, vec![fact("q", &[("x", "x")])]);
}

#[test]
fn whitespace_around_every_token() {
    let spaced = parse("\n\t p ( a , b : c ) :- q ( ) , r ( a ) . \n").unwrap();
    let tight = parse("p(a,b:c):-q(),r(a).").unwrap();
    assert_eq!(spaced, tight);
}

#[test]
fn unicode_white_space_is_skipped() {
    let p = parse("p()\u{3000}:-\u{a0}q().\u{2028}").unwrap();
    assert_eq!(p.rules.len(), 1);
}

#[test]
fn two_rules_separated_by_blank_lines() {
    let p = parse("a(x) :- b(x).\n\n\nc(y) :- d(y), e(y).\n").unwrap();
    assert_eq!(p.rules.len(), 2);
    assert_eq!(p.rules[0].head, fact("a", &[("x", "x")]));
    assert_eq!(p.rules[1].head, fact("c", &[("y", "y")]));
    assert_eq!(p.rules[1].clauses.len(), 2);
}

#[test]
fn empty_program() {
    assert_eq!(parse("").unwrap(), Program { rules: vec![] });
    assert_eq!(parse(" \n\t ").unwrap(), Program { rules: vec![] });
}

#[test]
fn rejects_missing_dot() {
    assert_eq!(parse("p(x) :- q(x)"), err(12, Expected::CommaOrDot, Label::Rule));
    assert_eq!(parse("p(x) :- q(x)\nr() :- s()."), err(13, Expected::CommaOrDot, Label::Rule));
}

#[test]
fn rejects_single_colon() {
    assert_eq!(parse("p(x) : q(x)."), err(5, Expected::Turnstile, Label::Rule));
    assert_eq!(parse("p(x) :q(x)."), err(5, Expected::Turnstile, Label::Rule));
}

#[test]
fn rejects_unmatched_paren() {
    assert_eq!(parse("p(x)) :- q(x)."), err(4, Expected::Turnstile, Label::Rule));
    assert_eq!(parse("p(x) :- q(x))."), err(12, Expected::CommaOrDot, Label::Rule));
    assert_eq!(parse(") :- q()."), err(0, Expected::Ident, Label::Fact));
}

#[test]
fn failure_is_deterministic() {
    let src = "p(x :- q(x).";
    let first = parse(src);
    let second = parse(src);
    assert!(first.is_err());
    assert_eq!(first, second);
}

#[test]
fn error_missing_value() {
    assert_eq!(parse("p(x: ) :- q()."), err(5, Expected::Ident, Label::Value));
}

#[test]
fn error_missing_open_paren() {
    assert_eq!(parse("p :- q()."), err(2, Expected::OpenParen, Label::Fact));
}

#[test]
fn error_missing_comma_between_props() {
    assert_eq!(parse("p(x y) :- q()."), err(4, Expected::CommaOrCloseParen, Label::Fact));
}

#[test]
fn error_bad_prop_name() {
    assert_eq!(parse("p(1) :- q()."), err(2, Expected::Ident, Label::Prop));
    assert_eq!(parse("p(x,) :- q()."), err(4, Expected::Ident, Label::Prop));
}

#[test]
fn rejects_empty_body() {
    assert_eq!(parse("p() :- ."), err(7, Expected::Ident, Label::Fact));
}

#[test]
fn rejects_trailing_garbage() {
    assert_eq!(parse("p() :- q(). x"), err(13, Expected::OpenParen, Label::Fact));
}

#[test]
fn rejects_non_ascii_identifier() {
    assert_eq!(parse("\u{e9}() :- q()."), err(0, Expected::Ident, Label::Fact));
}

#[test]
fn identifiers_with_digits_and_underscores() {
    let p = parse("_a1(b_2: C3) :- x9().").unwrap();
    assert_eq!(p.rules[0].head, fact("_a1", &[("b_2", "C3")]));
}

#[test]
fn duplicate_property_keeps_last_value() {
    let p = parse("p(a: x, b, a: y) :- q().").unwrap();
    let head = &p.rules[0].head;
    assert_eq!(head.props.len(), 2);
    assert_eq!(head.get("a"), Some(&id("y")));
    assert_eq!(head.get("b"), Some(&id("b")));
}

#[test]
fn fact_get_looks_up_properties() {
    let p = parse("p(a: x, b) :- q().").unwrap();
    let head = &p.rules[0].head;
    assert_eq!(head.get("a"), Some(&id("x")));
    assert_eq!(head.get("b"), Some(&id("b")));
    assert_eq!(head.get("c"), None);
}

#[test]
fn rule_fields() {
    let p = parse("r(a) :- s(a).").unwrap();
    let expected = Rule { head: fact("r", &[("a", "a")]), clauses: vec![fact("s", &[("a", "a")])] };
    assert_eq!(p.rules, vec![expected]);
}

#[test]
fn error_names_for_messages() {
    let e = parse("p(x) :- q(x").unwrap_err();
    assert_eq!(e.label.name(), "fact");
    assert_eq!(e.expected.tokens(), ", or )");
    assert_eq!(Label::Value.name(), "value");
    assert_eq!(Label::Prop.name(), "prop");
    assert_eq!(Label::Rule.name(), "rule");
    assert_eq!(Expected::Ident.tokens(), "ident");
    assert_eq!(Expected::OpenParen.tokens(), "(");
    assert_eq!(Expected::Turnstile.tokens(), ":-");
    assert_eq!(Expected::CommaOrDot.tokens(), ", or .");
}

#[test]
fn leading_space_moves_only_error_positions() {
    assert_eq!(parse(" \n\t p(x) :- q(x).").unwrap(), parse("p(x) :- q(x).").unwrap());
    assert_eq!(parse("p :- q()."), err(2, Expected::OpenParen, Label::Fact));
    assert_eq!(parse("   p :- q()."), err(5, Expected::OpenParen, Label::Fact));
}

#[test]
fn accepted_text_ends_with_dot() {
    assert!(parse("p() :- q().  \n").is_ok());
    assert!(parse("p() :- q().  x").is_err());
    assert!(parse("p() :- q(), r()").is_err());
}
