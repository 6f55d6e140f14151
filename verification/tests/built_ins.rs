use lispy::built_in::{assoc, compare, dissoc, div, eq, get, initial_env, mul, neg, sum};
use lispy::types::{Atom, Expression, EvaluationError, MapType};

fn num(i: i64) -> Expression {
    Expression::At(Atom::Int(i))
}

fn boolean(b: bool) -> Expression {
    Expression::At(Atom::Bool(b))
}

fn text(s: &str) -> Expression {
    Expression::At(Atom::String(s.to_string()))
}

fn empty_map() -> Expression {
    Expression::Mapping(MapType::PostEvaluation(Vec::new()))
}

fn is_int(r: Result<Expression, EvaluationError>, v: i64) -> bool {
    match r {
        Ok(e) => e.equals(&num(v)),
        Err(_) => false,
    }
}

fn wrong_type(r: Result<Expression, EvaluationError>, msg: &str) -> bool {
    matches!(r, Err(EvaluationError::WrongType(ref m)) if m == msg)
}

#[test]
fn neg_negates() {
    assert!(is_int(neg(vec![num(5)]), -5));
    assert!(is_int(neg(vec![num(-7)]), 7));
    assert!(matches!(neg(vec![num(i64::MIN)]), Err(EvaluationError::IntegerOverflow)));
    assert!(matches!(neg(vec![]), Err(EvaluationError::WrongArity(1, 0))));
    assert!(wrong_type(neg(vec![boolean(true)]), "atom but not integer"));
    assert!(wrong_type(neg(vec![Expression::Array(vec![])]), "not atom"));
}

#[test]
fn neg_twice_is_identity() {
    let once = neg(vec![num(42)]).unwrap();
    assert!(is_int(neg(vec![once]), 42));
}

#[test]
fn eq_compares_values() {
    assert!(eq(vec![num(1), num(1)]).unwrap().equals(&boolean(true)));
    assert!(eq(vec![num(1), num(2)]).unwrap().equals(&boolean(false)));
    assert!(eq(vec![text("a"), text("a")]).unwrap().equals(&boolean(true)));
    assert!(eq(vec![num(1), text("1")]).unwrap().equals(&boolean(false)));
    assert!(matches!(eq(vec![num(1)]), Err(EvaluationError::WrongArity(2, 1))));
}

#[test]
fn eq_on_maps_ignores_order() {
    let a = assoc(vec![assoc(vec![empty_map(), num(1), num(10)]).unwrap(), num(2), num(20)]).unwrap();
    let b = assoc(vec![assoc(vec![empty_map(), num(2), num(20)]).unwrap(), num(1), num(10)]).unwrap();
    assert!(eq(vec![a, b]).unwrap().equals(&boolean(true)));
}

#[test]
fn compare_integers() {
    assert!(compare(vec![num(1), num(2)]).unwrap().equals(&boolean(true)));
    assert!(compare(vec![num(2), num(2)]).unwrap().equals(&boolean(false)));
    assert!(compare(vec![num(3), num(2)]).unwrap().equals(&boolean(false)));
    assert!(wrong_type(compare(vec![num(1), text("2")]), "Can only compare two integers"));
    assert!(matches!(compare(vec![]), Err(EvaluationError::WrongArity(2, 0))));
}

#[test]
fn sum_adds() {
    assert!(is_int(sum(vec![]), 0));
    assert!(is_int(sum(vec![num(1), num(2), num(39)]), 42));
    assert!(is_int(sum(vec![num(5), num(-8)]), -3));
    assert!(matches!(sum(vec![num(i64::MAX), num(1)]), Err(EvaluationError::IntegerOverflow)));
    assert!(wrong_type(sum(vec![num(1), boolean(true)]), "atom but not integer"));
    assert!(wrong_type(sum(vec![Expression::Array(vec![]), num(1)]), "not atom"));
}

#[test]
fn sum_and_mul_in_any_order() {
    assert!(is_int(sum(vec![num(3), num(4)]), 7));
    assert!(is_int(sum(vec![num(4), num(3)]), 7));
    assert!(is_int(mul(vec![num(3), num(4)]), 12));
    assert!(is_int(mul(vec![num(4), num(3)]), 12));
    assert!(is_int(mul(vec![num(2), num(3), num(4)]), 24));
    assert!(is_int(mul(vec![num(4), num(2), num(3)]), 24));
    assert!(is_int(mul(vec![num(3), num(4), num(2)]), 24));
    assert!(is_int(sum(vec![num(-5), num(10), num(1), num(7)]), 13));
    assert!(is_int(sum(vec![num(7), num(1), num(-5), num(10)]), 13));
}

#[test]
fn order_decides_overflow_on_the_way() {
    // the product overflows before the zero is reached in one order only
    assert!(matches!(mul(vec![num(i64::MAX), num(2), num(0)]), Err(EvaluationError::IntegerOverflow)));
    assert!(is_int(mul(vec![num(0), num(i64::MAX), num(2)]), 0));
}

#[test]
fn mul_multiplies() {
    assert!(is_int(mul(vec![]), 1));
    assert!(is_int(mul(vec![num(2), num(3), num(7)]), 42));
    assert!(matches!(mul(vec![num(i64::MAX), num(2)]), Err(EvaluationError::IntegerOverflow)));
    assert!(wrong_type(mul(vec![text("x")]), "atom but not integer"));
}

#[test]
fn div_truncates() {
    assert!(is_int(div(vec![]), 0));
    assert!(is_int(div(vec![num(7)]), 7));
    assert!(is_int(div(vec![num(100), num(5), num(3)]), 6));
    assert!(is_int(div(vec![num(-7), num(2)]), -3));
    assert!(is_int(div(vec![num(7), num(-2)]), -3));
    assert!(matches!(div(vec![num(1), num(0)]), Err(EvaluationError::DivideByZero)));
    assert!(matches!(div(vec![num(0)]), Err(EvaluationError::DivideByZero)));
    assert!(matches!(div(vec![num(i64::MIN), num(-1)]), Err(EvaluationError::IntegerOverflow)));
    assert!(wrong_type(div(vec![num(1), Expression::Array(vec![])]), "not atom"));
}

#[test]
fn get_reads_what_assoc_wrote() {
    let m = assoc(vec![empty_map(), text("k"), num(5)]).unwrap();
    let m2 = assoc(vec![m, text("j"), num(6)]).unwrap();
    assert!(is_int(get(vec![m2.copy(), text("k")]), 5));
    assert!(is_int(get(vec![m2.copy(), text("j")]), 6));
    assert!(get(vec![m2, text("z")]).unwrap().equals(&Expression::At(Atom::Nil)));
}

#[test]
fn assoc_overwrites() {
    let m = assoc(vec![empty_map(), num(1), num(5)]).unwrap();
    let m = assoc(vec![m, num(1), num(6)]).unwrap();
    assert!(is_int(get(vec![m.copy(), num(1)]), 6));
    match m {
        Expression::Mapping(MapType::PostEvaluation(v)) => assert_eq!(v.len(), 1),
        _ => panic!("not a map"),
    }
}

#[test]
fn dissoc_removes_key() {
    let m = assoc(vec![empty_map(), num(1), num(5)]).unwrap();
    let m = dissoc(vec![m, num(1)]).unwrap();
    assert!(get(vec![m.copy(), num(1)]).unwrap().equals(&Expression::At(Atom::Nil)));
    assert!(m.equals(&empty_map()));
}

#[test]
fn map_functions_check_their_arguments() {
    assert!(matches!(assoc(vec![empty_map(), num(1)]), Err(EvaluationError::WrongArity(3, 2))));
    assert!(matches!(dissoc(vec![empty_map()]), Err(EvaluationError::WrongArity(2, 1))));
    assert!(matches!(get(vec![]), Err(EvaluationError::WrongArity(2, 0))));
    assert!(wrong_type(assoc(vec![num(1), num(1), num(1)]), "can only associate in a map"));
    assert!(wrong_type(dissoc(vec![num(1), num(1)]), "can only dissociate in a map"));
    assert!(wrong_type(get(vec![num(1), num(1)]), "can only dissociate in a map"));
    assert!(wrong_type(assoc(vec![empty_map(), Expression::Array(vec![]), num(1)]), "key must be atom"));
    assert!(wrong_type(dissoc(vec![empty_map(), Expression::Array(vec![])]), "key must be atom"));
    assert!(wrong_type(get(vec![empty_map(), Expression::Array(vec![])]), "key must be atom"));
}

#[test]
fn fresh_environment() {
    let (env, _locals) = initial_env();
    assert_eq!(env.special_forms.len(), 5);
    assert_eq!(env.built_in_fns.len(), 9);
    assert_eq!(env.top_level_vars.len(), 0);
    let names: Vec<&str> = env.built_in_fns.iter().map(|(n, _)| n.as_str()).collect();
    assert_eq!(names, vec!["+", "*", "/", "neg", "eq", "<", "assoc", "dissoc", "get"]);
}

#[test]
fn eq_reflexive_and_symmetric() {
    let a = Expression::Array(vec![num(1), text("x"), Expression::List(std::collections::VecDeque::new())]);
    assert!(eq(vec![a.copy(), a.copy()]).unwrap().equals(&boolean(true)));
    let b = Expression::Array(vec![num(1)]);
    let ab = eq(vec![a.copy(), b.copy()]).unwrap();
    let ba = eq(vec![b, a]).unwrap();
    assert!(ab.equals(&ba));
    assert!(ab.equals(&boolean(false)));
}
