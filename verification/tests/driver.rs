use lispy::built_in::initial_env;
use lispy::driver::{load_main_namespace, read_eval};
use lispy::parser::ParseError;

#[test]
fn read_eval_prints_outcome() {
    let (mut env, locals) = initial_env();
    assert_eq!(read_eval("(+ 1 2)\n", &mut env, &locals), Ok("Ok(At(Int(3)))".to_string()));
    assert_eq!(read_eval("(def x 5)", &mut env, &locals), Ok("Ok(At(Int(5)))".to_string()));
    assert_eq!(read_eval("(* x x)", &mut env, &locals), Ok("Ok(At(Int(25)))".to_string()));
    assert_eq!(read_eval("y", &mut env, &locals), Ok("Err(SymbolNotFound(\"y\"))".to_string()));
}

#[test]
fn read_eval_reports_unreadable_line() {
    let (mut env, locals) = initial_env();
    assert_eq!(read_eval(")", &mut env, &locals), Err(ParseError::NoMatch));
    assert_eq!(read_eval("{1}", &mut env, &locals), Err(ParseError::OddMapForms));
    assert_eq!(
        read_eval("99999999999999999999", &mut env, &locals),
        Err(ParseError::IntegerTooLarge)
    );
    assert!(env.top_level_vars.is_empty());
}

#[test]
fn load_runs_main() {
    let (mut env, locals) = initial_env();
    let r = load_main_namespace(b"(def a 20)\n(def main! (fn [] (+ a 22)))\n", &mut env, &locals);
    assert_eq!(r, Ok("Ok(At(Int(42)))".to_string()));
    assert_eq!(env.top_level_vars.len(), 2);
}

#[test]
fn load_without_main() {
    let (mut env, locals) = initial_env();
    let r = load_main_namespace(b"(def a 1)", &mut env, &locals);
    assert_eq!(r, Ok("Err(SymbolNotFound(\"main!\"))".to_string()));
}

#[test]
fn load_refuses_unreadable_file() {
    let (mut env, locals) = initial_env();
    let r = load_main_namespace(b"(def a 1) {1}", &mut env, &locals);
    assert_eq!(r, Err(ParseError::OddMapForms));
    assert!(env.top_level_vars.is_empty());
}
