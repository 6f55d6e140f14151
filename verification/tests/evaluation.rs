use lispy::built_in::initial_env;
use lispy::eval::{eval, eval_expression, MAX_DEPTH};
use lispy::parser::{parse, parse_namespace};
use lispy::types::{Atom, Environment, EvaluationError, Expression, FunctionType, MapType, SinglyLinkedList, SpecialForm};

fn run(env: &mut Environment, src: &str) -> Result<Expression, EvaluationError> {
    let (_, form) = parse(src).unwrap();
    let locals = SinglyLinkedList::Nil;
    eval_expression(form, env, &locals, MAX_DEPTH)
}

fn run_fresh(src: &str) -> Result<Expression, EvaluationError> {
    let (mut env, _) = initial_env();
    run(&mut env, src)
}

fn text_of(src: &str) -> String {
    let (mut env, locals) = initial_env();
    let (_, form) = parse(src).unwrap();
    eval(form, &mut env, &locals)
}

fn num(i: i64) -> Expression {
    Expression::At(Atom::Int(i))
}

fn is_int(r: Result<Expression, EvaluationError>, v: i64) -> bool {
    match r {
        Ok(e) => e.equals(&num(v)),
        Err(_) => false,
    }
}

#[test]
fn arithmetic() {
    assert!(is_int(run_fresh("(+ 1 2 3)"), 6));
    assert!(is_int(run_fresh("(* 2 (+ 1 2))"), 6));
    assert!(is_int(run_fresh("(/ 20 2 5)"), 2));
    assert!(is_int(run_fresh("(neg 4)"), -4));
    assert!(is_int(run_fresh("(+)"), 0));
}

#[test]
fn atoms_evaluate_to_themselves() {
    assert!(is_int(run_fresh("7"), 7));
    assert!(run_fresh("\"s\"").unwrap().equals(&Expression::At(Atom::String("s".to_string()))));
    assert!(run_fresh("true").unwrap().equals(&Expression::At(Atom::Bool(true))));
    assert!(run_fresh("nil").unwrap().equals(&Expression::At(Atom::Nil)));
}

#[test]
fn empty_list_is_itself() {
    assert!(matches!(run_fresh("()"), Ok(Expression::List(ref v)) if v.len() == 0));
}

#[test]
fn quote_returns_form_unevaluated() {
    let r = run_fresh("(quote (+ 1 2))").unwrap();
    let (_, form) = parse("(+ 1 2)").unwrap();
    assert!(r.equals(&form));
    assert!(matches!(run_fresh("(quote)"), Err(EvaluationError::WrongArity(1, 0))));
}

#[test]
fn def_then_read() {
    let (mut env, _) = initial_env();
    assert!(is_int(run(&mut env, "(def x (+ 40 2))"), 42));
    assert!(is_int(run(&mut env, "x"), 42));
    assert!(is_int(run(&mut env, "(def x 1)"), 1));
    assert!(is_int(run(&mut env, "x"), 1));
    assert_eq!(env.top_level_vars.len(), 1);
}

#[test]
fn def_refuses_special_forms_and_built_ins() {
    assert!(matches!(run_fresh("(def if 1)"), Err(EvaluationError::ForbiddenDef(ref m)) if m == "Cannot overwrite special form"));
    assert!(matches!(run_fresh("(def + 1)"), Err(EvaluationError::ForbiddenDef(ref m)) if m == "Cannot overwrite built in function"));
    assert!(matches!(run_fresh("(def 1 1)"), Err(EvaluationError::UnknownBinding(ref m)) if m == "Cannot def a non-symbol"));
    assert!(matches!(run_fresh("(def x)"), Err(EvaluationError::WrongArity(2, 1))));
}

#[test]
fn if_chooses_branch() {
    assert!(is_int(run_fresh("(if true 1 2)"), 1));
    assert!(is_int(run_fresh("(if false 1 2)"), 2));
    assert!(is_int(run_fresh("(if nil 1 2)"), 2));
    assert!(is_int(run_fresh("(if 0 1 2)"), 1));
    assert!(run_fresh("(if false 1)").unwrap().equals(&Expression::At(Atom::Nil)));
    assert!(matches!(run_fresh("(if true)"), Err(EvaluationError::WrongArity(3, 1))));
}

#[test]
fn let_binds_locally() {
    let (mut env, _) = initial_env();
    assert!(is_int(run(&mut env, "(let [x 2 y 3] (* x y))"), 6));
    assert!(matches!(run(&mut env, "x"), Err(EvaluationError::SymbolNotFound(ref s)) if s == "x"));
}

#[test]
fn let_shadows_top_level() {
    let (mut env, _) = initial_env();
    run(&mut env, "(def x 1)").unwrap();
    assert!(is_int(run(&mut env, "(let [x 5] x)"), 5));
    assert!(is_int(run(&mut env, "(let [x 5] (let [x 7] x))"), 7));
    assert!(is_int(run(&mut env, "x"), 1));
}

#[test]
fn let_bindings_do_not_see_each_other() {
    let (mut env, _) = initial_env();
    assert!(matches!(run(&mut env, "(let [x 10 y (+ x 1)] y)"), Err(EvaluationError::SymbolNotFound(ref s)) if s == "x"));
    run(&mut env, "(def x 1)").unwrap();
    assert!(is_int(run(&mut env, "(let [x 10 y (+ x 1)] y)"), 2));
}

#[test]
fn let_errors() {
    assert!(matches!(run_fresh("(let [x] x)"), Err(EvaluationError::MustHaveEvenNumberOfForms(ref m)) if m == "let binding"));
    assert!(matches!(run_fresh("(let [1 2] 3)"), Err(EvaluationError::UnknownBinding(ref m)) if m == "Illegal binding; only symbols"));
    assert!(matches!(run_fresh("(let 1 2)"), Err(EvaluationError::WrongType(ref m)) if m == "Second argument of let binding must be array"));
    assert!(matches!(run_fresh("(let [])"), Err(EvaluationError::WrongArity(2, 1))));
}

#[test]
fn functions() {
    let (mut env, _) = initial_env();
    run(&mut env, "(def sq (fn [n] (* n n)))").unwrap();
    assert!(is_int(run(&mut env, "(sq 7)"), 49));
    assert!(is_int(run(&mut env, "((fn [a b] (+ a b)) 1 2)"), 3));
}

#[test]
fn recursive_function() {
    let (mut env, _) = initial_env();
    run(&mut env, "(def fact (fn [n] (if (< n 1) 1 (* n (fact (+ n (neg 1)))))))").unwrap();
    assert!(is_int(run(&mut env, "(fact 10)"), 3628800));
}

#[test]
fn fn_errors() {
    assert!(matches!(run_fresh("(fn [1] 2)"), Err(EvaluationError::WrongType(ref m)) if m == "not all args were symbols"));
    assert!(matches!(run_fresh("(fn x 2)"), Err(EvaluationError::WrongType(ref m)) if m == "arguments to fn must be array"));
    assert!(matches!(run_fresh("(fn [x])"), Err(EvaluationError::WrongArity(2, 1))));
}

#[test]
fn lambda_value() {
    match run_fresh("(fn [x] x)").unwrap() {
        Expression::Function(FunctionType::Lambda(params, _)) => assert_eq!(params.len(), 1),
        _ => panic!("not a function"),
    }
}

#[test]
fn arguments_are_evaluated_again_when_bound() {
    // a quoted list passed to a function is evaluated once more when bound
    let (mut env, _) = initial_env();
    run(&mut env, "(def id (fn [x] x))").unwrap();
    assert!(is_int(run(&mut env, "(id (quote (+ 1 2)))"), 3));
}

#[test]
fn symbol_not_found() {
    assert!(matches!(run_fresh("nope"), Err(EvaluationError::SymbolNotFound(ref s)) if s == "nope"));
}

#[test]
fn calling_a_non_function() {
    assert!(matches!(run_fresh("(1 2)"), Err(EvaluationError::NotSpecialFormOrFunction)));
}

#[test]
fn special_form_value_out_of_context() {
    let (mut env, _) = initial_env();
    let locals = SinglyLinkedList::Nil;
    let r = eval_expression(Expression::SpecialForm(SpecialForm::If), &mut env, &locals, MAX_DEPTH);
    assert!(matches!(r, Err(EvaluationError::SpecialFormOutOfContext)));
}

#[test]
fn map_literals_are_evaluated() {
    let (mut env, _) = initial_env();
    run(&mut env, "(def m {1 (+ 1 1) \"k\" 3})").unwrap();
    assert!(is_int(run(&mut env, "(get m 1)"), 2));
    assert!(is_int(run(&mut env, "(get m \"k\")"), 3));
    assert!(is_int(run(&mut env, "(get (assoc m 5 6) 5)"), 6));
    assert!(run(&mut env, "(get (dissoc m 1) 1)").unwrap().equals(&Expression::At(Atom::Nil)));
    assert!(matches!(run(&mut env, "{(quote (1)) 2}"), Err(EvaluationError::UnknownBinding(_))));
}

#[test]
fn arrays_are_evaluated() {
    let r = run_fresh("[1 (+ 1 1)]").unwrap();
    assert!(r.equals(&Expression::Array(vec![num(1), num(2)])));
    assert!(matches!(run_fresh("[1 y]"), Err(EvaluationError::SymbolNotFound(_))));
}

#[test]
fn all_arguments_are_evaluated_before_the_first_failure_is_reported() {
    let (mut env, _) = initial_env();
    assert!(matches!(run(&mut env, "(+ nope (def y 5))"), Err(EvaluationError::SymbolNotFound(_))));
    assert!(is_int(run(&mut env, "y"), 5));
}

#[test]
fn overflow_is_reported() {
    assert!(matches!(run_fresh("(* 9223372036854775807 2)"), Err(EvaluationError::IntegerOverflow)));
    assert!(matches!(run_fresh("(/ 1 0)"), Err(EvaluationError::DivideByZero)));
}

#[test]
fn endless_recursion_runs_out_of_budget() {
    let (mut env, _) = initial_env();
    run(&mut env, "(def f (fn [n] (f n)))").unwrap();
    let (_, form) = parse("(f 1)").unwrap();
    let locals = SinglyLinkedList::Nil;
    assert!(matches!(eval_expression(form, &mut env, &locals, 300), Err(EvaluationError::Pending)));
}

#[test]
fn no_budget_no_evaluation() {
    let (mut env, locals) = initial_env();
    assert!(matches!(eval_expression(num(1), &mut env, &locals, 0), Err(EvaluationError::Pending)));
}

#[test]
fn text_of_outcomes() {
    assert_eq!(text_of("(+ 1 2)"), "Ok(At(Int(3)))");
    assert_eq!(text_of("(neg 5)"), "Ok(At(Int(-5)))");
    assert_eq!(text_of("\"hi\\\"\""), "Ok(At(String(\"hi\\\\\")))");
    assert_eq!(text_of("\\a"), "Ok(At(Char('a')))");
    assert_eq!(text_of("[1 true nil]"), "Ok(Array([At(Int(1)), At(Bool(true)), At(Nil)]))");
    assert_eq!(text_of("(quote (a))"), "Ok(List([At(Symbol(\"a\"))]))");
    assert_eq!(text_of("(fn [x] x)"), "Ok(Function(Lambda([At(Symbol(\"x\"))], At(Symbol(\"x\")))))");
    assert_eq!(text_of("{1 2}"), "Ok(Map(PostEvaluation({Int(1): At(Int(2))})))");
    assert_eq!(text_of("(quote {1 2})"), "Ok(Map(PreEvaluation([(At(Int(1)), At(Int(2)))])))");
    assert_eq!(text_of("+"), "Ok(Function(BuiltIn(Sum)))");
    assert_eq!(text_of("quote"), "Ok(SpecialForm(Quote))");
    assert_eq!(text_of("x"), "Err(SymbolNotFound(\"x\"))");
    assert_eq!(text_of("(neg)"), "Err(WrongArity(1, 0))");
    assert_eq!(text_of("(/ 1 0)"), "Err(DivideByZero)");
}

#[test]
fn namespace_then_main() {
    let (mut env, locals) = initial_env();
    let (_, forms) = parse_namespace(b"(def a 20) (def main! (fn [] (+ a 22)))").unwrap();
    for f in forms {
        eval(f, &mut env, &locals);
    }
    let (_, call) = parse("(main!)").unwrap();
    assert_eq!(eval(call, &mut env, &locals), "Ok(At(Int(42)))");
}

#[test]
fn evaluation_keeps_tables() {
    let (mut env, _) = initial_env();
    run(&mut env, "(def a 1)").unwrap();
    let _ = run(&mut env, "(let [b 2] (def c b))");
    let _ = run(&mut env, "(+ nope 1)");
    assert_eq!(env.special_forms.len(), 5);
    assert_eq!(env.built_in_fns.len(), 9);
    assert!(is_int(run(&mut env, "a"), 1));
    assert!(is_int(run(&mut env, "c"), 2));
    assert!(matches!(run(&mut env, "quote"), Ok(Expression::SpecialForm(SpecialForm::Quote))));
}

#[test]
fn larger_budget_same_outcome() {
    let src = "(let [x 3] (* x (+ x 1)))";
    let (_, form) = parse(src).unwrap();
    let (mut env1, locals) = initial_env();
    let (mut env2, _) = initial_env();
    let r1 = eval_expression(form.copy(), &mut env1, &locals, 20).unwrap();
    let r2 = eval_expression(form, &mut env2, &locals, 5000).unwrap();
    assert!(r1.equals(&r2));
    assert!(r1.equals(&num(12)));
    // too small a budget
    let (_, form) = parse(src).unwrap();
    assert!(matches!(eval_expression(form, &mut env1, &locals, 2), Err(EvaluationError::Pending)));
}

#[test]
fn map_text_shows_each_key_once() {
    assert_eq!(text_of("(assoc {1 2} 1 3)"), "Ok(Map(PostEvaluation({Int(1): At(Int(3))})))");
    assert_eq!(text_of("{1 2 1 3}"), "Ok(Map(PostEvaluation({Int(1): At(Int(3))})))");
    assert_eq!(text_of("(dissoc (assoc {1 2} 1 3) 1)"), "Ok(Map(PostEvaluation({})))");
}

#[test]
fn map_given_with_a_repeated_key_shows_its_first_entry() {
    let (mut env, locals) = initial_env();
    let m = Expression::Mapping(MapType::PostEvaluation(vec![
        (Atom::Int(1), num(2)),
        (Atom::Int(1), num(3)),
        (Atom::Int(4), num(5)),
    ]));
    assert_eq!(eval(m, &mut env, &locals), "Ok(Map(PostEvaluation({Int(1): At(Int(2)), Int(4): At(Int(5))})))");
}
