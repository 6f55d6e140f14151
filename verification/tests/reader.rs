use lispy::parser::{from_u8_array_to_bool, from_u8_array_to_i64, parse, parse_namespace, ParseError};
use lispy::types::{Atom, Expression, MapType};

fn num(i: i64) -> Expression {
    Expression::At(Atom::Int(i))
}

fn sym(s: &str) -> Expression {
    Expression::At(Atom::Symbol(s.to_string()))
}

fn same(a: &Expression, b: &Expression) -> bool {
    a.equals(b)
}

#[test]
fn reads_integer() {
    let (rest, e) = parse("  42 rest").unwrap();
    assert_eq!(rest, 4);
    assert!(same(&e, &num(42)));
}

#[test]
fn reads_integer_with_leading_zeros() {
    let (rest, e) = parse("007").unwrap();
    assert_eq!(rest, 3);
    assert!(same(&e, &num(7)));
}

#[test]
fn reads_minus_as_symbol() {
    let (_, e) = parse("-5").unwrap();
    assert!(same(&e, &sym("-5")));
}

#[test]
fn rejects_too_large_integer() {
    assert_eq!(parse("9223372036854775808").unwrap_err(), ParseError::IntegerTooLarge);
    let (_, e) = parse("9223372036854775807").unwrap();
    assert!(same(&e, &num(i64::MAX)));
}

#[test]
fn reads_symbol() {
    let (rest, e) = parse(",\n\t foo-bar?! x").unwrap();
    assert_eq!(rest, 13);
    assert!(same(&e, &sym("foo-bar?!")));
}

#[test]
fn reads_booleans_and_nil() {
    let (rest, e) = parse("true").unwrap();
    assert_eq!(rest, 4);
    assert!(same(&e, &Expression::At(Atom::Bool(true))));
    let (rest, e) = parse(" false").unwrap();
    assert_eq!(rest, 6);
    assert!(same(&e, &Expression::At(Atom::Bool(false))));
    let (rest, e) = parse("nil").unwrap();
    assert_eq!(rest, 3);
    assert!(same(&e, &Expression::At(Atom::Nil)));
    // a prefix is enough, as with the tag rule
    let (rest, e) = parse("trueish").unwrap();
    assert_eq!(rest, 4);
    assert!(same(&e, &Expression::At(Atom::Bool(true))));
}

#[test]
fn reads_string_literal() {
    let (rest, e) = parse("\"hello world\"").unwrap();
    assert_eq!(rest, 13);
    assert!(same(&e, &Expression::At(Atom::String("hello world".to_string()))));
}

#[test]
fn unterminated_string_does_not_parse() {
    assert_eq!(parse("\"abc").unwrap_err(), ParseError::NoMatch);
}

#[test]
fn rejects_invalid_utf8_string() {
    let bytes: Vec<u8> = vec![0x22, 0xff, 0xfe, 0x22];
    assert_eq!(lispy::parser::parse_expression_top_level(&bytes, 0).unwrap_err(), ParseError::InvalidUtf8);
}

#[test]
fn reads_characters() {
    let (rest, e) = parse("\\a").unwrap();
    assert_eq!(rest, 2);
    assert!(same(&e, &Expression::At(Atom::Char('a'))));
    // an escape is read as its first byte, the backslash
    let (rest, e) = parse("\\\\n").unwrap();
    assert_eq!(rest, 3);
    assert!(same(&e, &Expression::At(Atom::Char('\\'))));
    let (rest, e) = parse("\\\\x").unwrap();
    assert_eq!(rest, 2);
    assert!(same(&e, &Expression::At(Atom::Char('\\'))));
}

#[test]
fn reads_list() {
    let (rest, e) = parse("(+ 1 (neg 2))").unwrap();
    assert_eq!(rest, 13);
    match e {
        Expression::List(items) => {
            assert_eq!(items.len(), 3);
            assert!(same(&items[0], &sym("+")));
            assert!(same(&items[1], &num(1)));
            match &items[2] {
                Expression::List(inner) => assert_eq!(inner.len(), 2),
                _ => panic!("not a list"),
            }
        }
        _ => panic!("not a list"),
    }
}

#[test]
fn reads_empty_list_and_array() {
    let (rest, e) = parse("( )").unwrap();
    assert_eq!(rest, 3);
    assert!(matches!(e, Expression::List(ref v) if v.len() == 0));
    let (rest, e) = parse("[]").unwrap();
    assert_eq!(rest, 2);
    assert!(matches!(e, Expression::Array(ref v) if v.len() == 0));
}

#[test]
fn reads_array() {
    let (_, e) = parse("[1, 2 3]").unwrap();
    assert!(same(&e, &Expression::Array(vec![num(1), num(2), num(3)])));
}

#[test]
fn reads_map_literal() {
    let (rest, e) = parse("{1 2 a \"b\"}").unwrap();
    assert_eq!(rest, 11);
    let expected = Expression::Mapping(MapType::PreEvaluation(vec![
        (num(1), num(2)),
        (sym("a"), Expression::At(Atom::String("b".to_string()))),
    ]));
    assert!(same(&e, &expected));
}

#[test]
fn rejects_odd_map_literal() {
    assert_eq!(parse("{1 2 3}").unwrap_err(), ParseError::OddMapForms);
}

#[test]
fn unclosed_list_does_not_parse() {
    assert_eq!(parse("(1 2").unwrap_err(), ParseError::NoMatch);
    assert_eq!(parse(")").unwrap_err(), ParseError::NoMatch);
    assert_eq!(parse("").unwrap_err(), ParseError::NoMatch);
}

#[test]
fn namespace_reads_forms_until_one_fails() {
    let (rest, forms) = parse_namespace(b"  (def x 1)\n(+ x 2) ) tail").unwrap();
    assert_eq!(forms.len(), 2);
    assert_eq!(rest, 19);
    let (rest, forms) = parse_namespace(b"").unwrap();
    assert_eq!(rest, 0);
    assert_eq!(forms.len(), 0);
}

#[test]
fn namespace_stops_on_fatal_error() {
    assert_eq!(parse_namespace(b"1 {2}").unwrap_err(), ParseError::OddMapForms);
}

#[test]
fn leading_blanks_are_ignored() {
    let (r1, e1) = parse("(a [b])").unwrap();
    let (r2, e2) = parse(" ,\n(a [b])").unwrap();
    assert!(same(&e1, &e2));
    assert_eq!(r2, r1 + 3);
}

#[test]
fn decimal_literals() {
    assert_eq!(from_u8_array_to_i64(b"123"), 123);
    assert_eq!(from_u8_array_to_i64(b"-9223372036854775808"), i64::MIN);
    assert_eq!(from_u8_array_to_i64(b"+17"), 17);
    assert_eq!(from_u8_array_to_i64(b"0"), 0);
}

#[test]
fn boolean_literals() {
    assert!(from_u8_array_to_bool(b"true"));
    assert!(!from_u8_array_to_bool(b"false"));
}
