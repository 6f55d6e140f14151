//! The evaluator.
//!
//! Evaluation is bounded by a nesting budget (`fuel`): each evaluation of a
//! form spends one unit for the forms it evaluates in turn, and a form
//! reached with no budget left fails with `Pending`. `eval` runs with the
//! largest budget, so that in practice only the machine's stack bounds it.
use vstd::prelude::*;

use crate::assoc::{insert_entry, insert_var, lookup_name, lookup_var};
use crate::built_in::{apply_built_in, arity, built_in_spec};
use crate::keys::{normalize_result, result_keys_once};
use crate::render::{render_result, result_text};
use crate::types::{
    copy_vec, expr_view, entries_map, frame_map, frames_view, lemma_array_view, lemma_lambda_view,
    lemma_list_view, lemma_post_map_view, lemma_pre_map_view, pairs_seq, result_view, seq_view,
    Atom, AtomV, EnvV, Environment, ErrorV, EvalResult, EvaluationError, ExprV, Expression, FunctionType,
    LocalVars, MapType, SinglyLinkedList, SpecialForm,
};
use crate::util::{
    all_ok, collect, first_err_at, lemma_collect_err, lemma_collect_ok, map_m, ok_values, pairs_of,
    tuple_even_vector,
};

verus! {

/// The frames of local bindings, innermost first.
pub type Frames = Seq<Map<Seq<char>, ExprV>>;

/// What an evaluation gives, and the environment after it.
pub type EvalOutcome = (Result<ExprV, ErrorV>, EnvV);

/// The nesting budget of `eval`: the largest one, far beyond any stack.
pub const MAX_DEPTH: u64 = 0xFFFF_FFFF_FFFF_FFFF;

/// The value of `sym` in the innermost frame that binds it.
pub open spec fn lookup_vars_spec(sym: Seq<char>, frames: Frames) -> Option<ExprV>
    decreases frames.len(),
{
    if frames.len() == 0 {
        None
    } else if frames[0].contains_key(sym) {
        Some(frames[0][sym])
    } else {
        lookup_vars_spec(sym, frames.drop_first())
    }
}

/// What a symbol stands for: a special form, a built-in, a local variable,
/// then a top-level variable, in that order.
pub open spec fn lookup_symbol_spec(sym: Seq<char>, env: EnvV, frames: Frames) -> Result<
    ExprV,
    ErrorV,
> {
    if env.special_forms.contains_key(sym) {
        Ok(ExprV::Special(env.special_forms[sym]))
    } else if env.built_ins.contains_key(sym) {
        Ok(ExprV::BuiltIn(env.built_ins[sym]))
    } else if lookup_vars_spec(sym, frames) is Some {
        Ok(lookup_vars_spec(sym, frames)->Some_0)
    } else if env.vars.contains_key(sym) {
        Ok(env.vars[sym])
    } else {
        Err(ErrorV::SymbolNotFound(sym))
    }
}

/// Every value but `false` and `nil` counts as true.
pub open spec fn truthy(v: ExprV) -> bool {
    !(v == ExprV::At(AtomV::Bool(false)) || v == ExprV::At(AtomV::Nil))
}

pub open spec fn quote_spec(args: Seq<ExprV>) -> Result<ExprV, ErrorV> {
    if args.len() == 1 {
        Ok(args[0])
    } else {
        Err(arity(1, args.len()))
    }
}

pub open spec fn is_symbol(e: ExprV) -> bool {
    e matches ExprV::At(AtomV::Symbol(_))
}

/// `fn`: a function of the parameters (an array of symbols) and the body.
pub open spec fn lambda_spec(args: Seq<ExprV>) -> Result<ExprV, ErrorV> {
    if args.len() == 2 {
        match args[0] {
            ExprV::Array(arr) => if forall|i: int| 0 <= i < arr.len() ==> is_symbol(#[trigger] arr[i]) {
                Ok(ExprV::Lambda(arr, Box::new(args[1])))
            } else {
                Err(ErrorV::WrongType("not all args were symbols"@))
            },
            _ => Err(ErrorV::WrongType("arguments to fn must be array"@)),
        }
    } else {
        Err(arity(2, args.len()))
    }
}

/// The parameters paired with the arguments, as far as both go.
pub open spec fn zip_spec(params: Seq<ExprV>, vals: Seq<ExprV>) -> Seq<(ExprV, ExprV)> {
    Seq::new(
        if params.len() <= vals.len() {
            params.len()
        } else {
            vals.len()
        },
        |i: int| (params[i], vals[i]),
    )
}

pub open spec fn with_vars(env: EnvV, vars: Map<Seq<char>, ExprV>) -> EnvV {
    EnvV { special_forms: env.special_forms, built_ins: env.built_ins, vars: vars }
}

/// Evaluates a form.
pub open spec fn eval_spec(fuel: nat, e: ExprV, env: EnvV, locals: Frames) -> EvalOutcome
    decreases fuel, 0nat, 0nat,
{
    if fuel == 0 {
        (Err(ErrorV::Pending), env)
    } else {
        let f = (fuel - 1) as nat;
        match e {
            ExprV::At(AtomV::Symbol(sym)) => (lookup_symbol_spec(sym, env, locals), env),
            ExprV::At(_) => (Ok(e), env),
            ExprV::BuiltIn(_) => (Ok(e), env),
            ExprV::Lambda(_, _) => (Ok(e), env),
            ExprV::Special(_) => (Err(ErrorV::SpecialFormOutOfContext), env),
            ExprV::Array(items) => {
                let (rs, env1) = eval_all_spec(f, items, env, locals);
                (
                    match collect(rs) {
                        Ok(vs) => Ok(ExprV::Array(vs)),
                        Err(err) => Err(err),
                    },
                    env1,
                )
            },
            ExprV::PostMap(_) => (Ok(e), env),
            ExprV::PreMap(pairs) => {
                let (m, env1) = bind_atoms_spec(f, pairs, Map::empty(), env, locals);
                (
                    match m {
                        Ok(m) => Ok(ExprV::PostMap(m)),
                        Err(err) => Err(err),
                    },
                    env1,
                )
            },
            ExprV::List(items) => eval_list_spec(f, items, env, locals),
        }
    }
}

/// Evaluates every form in turn, whatever the outcomes.
pub open spec fn eval_all_spec(fuel: nat, items: Seq<ExprV>, env: EnvV, locals: Frames) -> (
    Seq<Result<ExprV, ErrorV>>,
    EnvV,
)
    decreases fuel, 1nat, items.len(),
{
    if items.len() == 0 {
        (Seq::empty(), env)
    } else {
        let (r0, env1) = eval_spec(fuel, items[0], env, locals);
        let (rs, env2) = eval_all_spec(fuel, items.drop_first(), env1, locals);
        (seq![r0] + rs, env2)
    }
}

/// Binds each symbol to the value of its form, in turn, over `acc`; stops at
/// the first failure.
pub open spec fn bind_symbols_spec(
    fuel: nat,
    pairs: Seq<(ExprV, ExprV)>,
    acc: Map<Seq<char>, ExprV>,
    env: EnvV,
    locals: Frames,
) -> (Result<Map<Seq<char>, ExprV>, ErrorV>, EnvV)
    decreases fuel, 1nat, pairs.len(),
{
    if pairs.len() == 0 {
        (Ok(acc), env)
    } else {
        match pairs[0].0 {
            ExprV::At(AtomV::Symbol(sym)) => {
                let (r, env1) = eval_spec(fuel, pairs[0].1, env, locals);
                match r {
                    Err(err) => (Err(err), env1),
                    Ok(v) => bind_symbols_spec(fuel, pairs.drop_first(), acc.insert(sym, v), env1, locals),
                }
            },
            _ => (Err(ErrorV::UnknownBinding("Illegal binding; only symbols"@)), env),
        }
    }
}

/// Binds each atom to the value of its form, in turn, over `acc`; stops at
/// the first failure.
pub open spec fn bind_atoms_spec(
    fuel: nat,
    pairs: Seq<(ExprV, ExprV)>,
    acc: Map<AtomV, ExprV>,
    env: EnvV,
    locals: Frames,
) -> (Result<Map<AtomV, ExprV>, ErrorV>, EnvV)
    decreases fuel, 1nat, pairs.len(),
{
    if pairs.len() == 0 {
        (Ok(acc), env)
    } else {
        match pairs[0].0 {
            ExprV::At(a) => {
                let (r, env1) = eval_spec(fuel, pairs[0].1, env, locals);
                match r {
                    Err(err) => (Err(err), env1),
                    Ok(v) => bind_atoms_spec(fuel, pairs.drop_first(), acc.insert(a, v), env1, locals),
                }
            },
            _ => (Err(ErrorV::UnknownBinding("Illegal binding; only symbols"@)), env),
        }
    }
}

/// `if`: the condition, then one branch.
pub open spec fn if_spec(fuel: nat, args: Seq<ExprV>, env: EnvV, locals: Frames) -> EvalOutcome
    decreases fuel, 2nat, 0nat,
{
    if args.len() == 3 || args.len() == 2 {
        let (c, env1) = eval_spec(fuel, args[0], env, locals);
        match c {
            Err(err) => (Err(err), env1),
            Ok(v) => if truthy(v) {
                eval_spec(fuel, args[1], env1, locals)
            } else if args.len() == 3 {
                eval_spec(fuel, args[2], env1, locals)
            } else {
                (Ok(ExprV::At(AtomV::Nil)), env1)
            },
        }
    } else {
        (Err(arity(3, args.len())), env)
    }
}

/// `def`: binds a top-level variable to the value of the form; special
/// forms and built-ins cannot be redefined.
pub open spec fn def_spec(fuel: nat, args: Seq<ExprV>, env: EnvV, locals: Frames) -> EvalOutcome
    decreases fuel, 2nat, 0nat,
{
    if args.len() == 2 {
        match args[0] {
            ExprV::At(AtomV::Symbol(sym)) => match lookup_symbol_spec(sym, env, locals) {
                Ok(ExprV::Special(_)) => (
                    Err(ErrorV::ForbiddenDef("Cannot overwrite special form"@)),
                    env,
                ),
                Ok(ExprV::BuiltIn(_)) => (
                    Err(ErrorV::ForbiddenDef("Cannot overwrite built in function"@)),
                    env,
                ),
                _ => {
                    let (r, env1) = eval_spec(fuel, args[1], env, locals);
                    match r {
                        Err(err) => (Err(err), env1),
                        Ok(v) => (Ok(v), with_vars(env1, env1.vars.insert(sym, v))),
                    }
                },
            },
            _ => (Err(ErrorV::UnknownBinding("Cannot def a non-symbol"@)), env),
        }
    } else {
        (Err(arity(2, args.len())), env)
    }
}

/// `let`: binds the symbols of the array in a new frame, then evaluates the
/// body in it.
pub open spec fn let_spec(fuel: nat, args: Seq<ExprV>, env: EnvV, locals: Frames) -> EvalOutcome
    decreases fuel, 2nat, 0nat,
{
    if args.len() == 2 {
        match args[0] {
            ExprV::Array(vec) => if vec.len() % 2 == 1 {
                (Err(ErrorV::MustHaveEvenNumberOfForms("let binding"@)), env)
            } else {
                let (m, env1) = bind_symbols_spec(fuel, pairs_of(vec), Map::empty(), env, locals);
                match m {
                    Err(err) => (Err(err), env1),
                    Ok(frame) => eval_spec(fuel, args[1], env1, seq![frame] + locals),
                }
            },
            _ => (Err(ErrorV::WrongType("Second argument of let binding must be array"@)), env),
        }
    } else {
        (Err(arity(2, args.len())), env)
    }
}

pub open spec fn call_special_form_spec(
    fuel: nat,
    sf: SpecialForm,
    args: Seq<ExprV>,
    env: EnvV,
    locals: Frames,
) -> EvalOutcome
    decreases fuel, 3nat, 0nat,
{
    match sf {
        SpecialForm::Quote => (quote_spec(args), env),
        SpecialForm::If => if_spec(fuel, args, env, locals),
        SpecialForm::Fn => (lambda_spec(args), env),
        SpecialForm::Def => def_spec(fuel, args, env, locals),
        SpecialForm::Let => let_spec(fuel, args, env, locals),
    }
}

/// A call: every argument is evaluated, then a built-in is applied to the
/// values, or a function's parameters are bound to them (their values are
/// evaluated once more) in a new frame over the caller's frames, in which
/// the body is evaluated.
pub open spec fn call_function_spec(
    fuel: nat,
    fun: ExprV,
    args: Seq<ExprV>,
    env: EnvV,
    locals: Frames,
) -> EvalOutcome
    decreases fuel, 4nat, 0nat,
{
    let (rs, env1) = eval_all_spec(fuel, args, env, locals);
    match collect(rs) {
        Err(err) => (Err(err), env1),
        Ok(vals) => match fun {
            ExprV::BuiltIn(b) => (built_in_spec(b, vals), env1),
            ExprV::Lambda(params, body) => {
                let (m, env2) = bind_symbols_spec(
                    fuel,
                    zip_spec(params, vals),
                    Map::empty(),
                    env1,
                    locals,
                );
                match m {
                    Err(err) => (Err(err), env2),
                    Ok(frame) => eval_spec(fuel, *body, env2, seq![frame] + locals),
                }
            },
            _ => (Err(ErrorV::NotSpecialFormOrFunction), env1),
        },
    }
}

/// A list: the empty list is itself; otherwise its head is evaluated and
/// must give a special form or a function, applied to the rest.
pub open spec fn eval_list_spec(fuel: nat, items: Seq<ExprV>, env: EnvV, locals: Frames) -> EvalOutcome
    decreases fuel, 5nat, 0nat,
{
    if items.len() == 0 {
        (Ok(ExprV::List(items)), env)
    } else {
        let (c, env1) = eval_spec(fuel, items[0], env, locals);
        match c {
            Err(err) => (Err(err), env1),
            Ok(ExprV::Special(sf)) => call_special_form_spec(fuel, sf, items.drop_first(), env1, locals),
            Ok(ExprV::BuiltIn(b)) => call_function_spec(
                fuel,
                ExprV::BuiltIn(b),
                items.drop_first(),
                env1,
                locals,
            ),
            Ok(ExprV::Lambda(ps, body)) => call_function_spec(
                fuel,
                ExprV::Lambda(ps, body),
                items.drop_first(),
                env1,
                locals,
            ),
            Ok(_) => (Err(ErrorV::NotSpecialFormOrFunction), env1),
        }
    }
}


/* ------------------------------------------------------------------------ */
/* The evaluator                                                             */

pub open spec fn results_view(v: Seq<EvalResult<Expression>>) -> Seq<Result<ExprV, ErrorV>> {
    v.map_values(|r: EvalResult<Expression>| result_view(r))
}

/// What `map_m` gives, by value.
proof fn lemma_map_m_views(results: Seq<EvalResult<Expression>>, r: EvalResult<Vec<Expression>>)
    requires
        match r {
            Ok(v) => all_ok(results) && v@ == ok_values(results),
            Err(e) => exists|i: int| first_err_at(results, i) && results[i] == Err::<Expression, EvaluationError>(e),
        },
    ensures
        match r {
            Ok(v) => collect(results_view(results)) == Ok::<Seq<ExprV>, ErrorV>(seq_view(v@)),
            Err(e) => collect(results_view(results)) == Err::<Seq<ExprV>, ErrorV>(e@),
        },
{
    let rv = results_view(results);
    match r {
        Ok(v) => {
            assert forall|i: int| 0 <= i < rv.len() implies (#[trigger] rv[i]) is Ok by {
                assert(results[i] is Ok);
            }
            lemma_collect_ok(rv);
            assert forall|i: int| 0 <= i < rv.len() implies #[trigger] ok_values(rv)[i] == seq_view(
                v@,
            )[i] by {
                assert(results[i] is Ok);
                assert(v@[i] == results[i]->Ok_0);
            }
            assert(ok_values(rv) =~= seq_view(v@));
        },
        Err(e) => {
            let i = choose|i: int| first_err_at(results, i) && results[i] == Err::<Expression, EvaluationError>(e);
            assert forall|j: int| 0 <= j < i implies (#[trigger] rv[j]) is Ok by {
                assert(results[j] is Ok);
            }
            assert(first_err_at(rv, i));
            lemma_collect_err(rv, i);
        },
    }
}

fn lookup_vars(sym: &String, vars_layers: &LocalVars) -> (r: Option<Expression>)
    ensures
        match r {
            Some(e) => lookup_vars_spec(sym@, frames_view(vars_layers)) == Some(e@),
            None => lookup_vars_spec(sym@, frames_view(vars_layers)) is None,
        },
    decreases vars_layers,
{
    match vars_layers {
        SinglyLinkedList::Cons(vars, tail) => {
            proof {
                assert(frames_view(vars_layers).drop_first() =~= frames_view(tail));
            }
            match lookup_var(vars, sym) {
                Some(v) => Some(v),
                None => lookup_vars(sym, tail),
            }
        },
        SinglyLinkedList::Nil => None,
    }
}

fn lookup_symbol(sym: &String, env: &Environment, local_vars: &LocalVars) -> (r: EvalResult<
    Expression,
>)
    ensures
        result_view(r) == lookup_symbol_spec(sym@, env@, frames_view(local_vars)),
{
    if let Some(special_form_type) = lookup_name(&env.special_forms, sym) {
        Ok(Expression::SpecialForm(special_form_type))
    } else if let Some(built_in) = lookup_name(&env.built_in_fns, sym) {
        Ok(Expression::Function(FunctionType::BuiltIn(built_in)))
    } else if let Some(expr) = lookup_vars(sym, local_vars) {
        Ok(expr)
    } else if let Some(expr) = lookup_var(&env.top_level_vars, sym) {
        Ok(expr)
    } else {
        Err(EvaluationError::SymbolNotFound(sym.clone()))
    }
}

/// Evaluates every form in turn, whatever the outcomes.
fn eval_all(items: &Vec<Expression>, env: &mut Environment, local_vars: &LocalVars, fuel: u64) -> (r:
    Vec<EvalResult<Expression>>)
    ensures
        (results_view(r@), final(env)@) == eval_all_spec(
            fuel as nat,
            seq_view(items@),
            old(env)@,
            frames_view(local_vars),
        ),
    decreases fuel, 1nat, 0nat,
{
    let ghost s = seq_view(items@);
    let ghost lv = frames_view(local_vars);
    let ghost target = eval_all_spec(fuel as nat, s, env@, lv);
    let mut results: Vec<EvalResult<Expression>> = Vec::new();
    let mut i: usize = 0;
    proof {
        assert(s.skip(0) =~= s);
        assert(results_view(results@) + eval_all_spec(fuel as nat, s.skip(0), env@, lv).0 =~= target.0);
    }
    while i < items.len()
        invariant
            i <= items@.len(),
            s == seq_view(items@),
            lv == frames_view(local_vars),
            results_view(results@) + eval_all_spec(fuel as nat, s.skip(i as int), env@, lv).0
                == target.0,
            eval_all_spec(fuel as nat, s.skip(i as int), env@, lv).1 == target.1,
        decreases items@.len() - i,
    {
        let ghost rest = s.skip(i as int);
        let ghost before = results_view(results@);
        let ghost env0 = env@;
        proof {
            assert(rest.drop_first() =~= s.skip(i + 1));
            assert(rest[0] == s[i as int]);
        }
        let r = eval_expression(items[i].copy(), env, local_vars, fuel);
        let ghost rv = result_view(r);
        results.push(r);
        proof {
            assert(results_view(results@) =~= before.push(rv));
            let tail = eval_all_spec(fuel as nat, s.skip(i + 1), env@, lv).0;
            assert(before + (seq![rv] + tail) =~= before.push(rv) + tail);
        }
        i = i + 1;
    }
    proof {
        assert(s.skip(i as int) =~= Seq::<ExprV>::empty());
        assert(results_view(results@) + Seq::<Result<ExprV, ErrorV>>::empty() =~= results_view(
            results@,
        ));
    }
    results
}

/// Binds each symbol to the value of its form, in a new frame.
fn vector_of_tuples_to_hash_map_symbol(
    tuples: &Vec<(Expression, Expression)>,
    env: &mut Environment,
    local_vars: &LocalVars,
    fuel: u64,
) -> (r: EvalResult<Vec<(String, Expression)>>)
    ensures
        ((match r {
            Ok(m) => Ok(frame_map(m@)),
            Err(e) => Err(e@),
        }), final(env)@) == bind_symbols_spec(
            fuel as nat,
            pairs_seq(tuples@),
            Map::empty(),
            old(env)@,
            frames_view(local_vars),
        ),
    decreases fuel, 1nat, 0nat,
{
    let ghost s = pairs_seq(tuples@);
    let ghost lv = frames_view(local_vars);
    let ghost target = bind_symbols_spec(fuel as nat, s, Map::empty(), env@, lv);
    let mut map_of_bound_names: Vec<(String, Expression)> = Vec::new();
    let mut i: usize = 0;
    proof {
        assert(s.skip(0) =~= s);
        assert(crate::types::frame_seq(map_of_bound_names@) =~= Seq::empty());
    }
    while i < tuples.len()
        invariant
            i <= tuples@.len(),
            s == pairs_seq(tuples@),
            lv == frames_view(local_vars),
            bind_symbols_spec(fuel as nat, s.skip(i as int), frame_map(map_of_bound_names@), env@, lv)
                == target,
            target == bind_symbols_spec(fuel as nat, s, Map::empty(), old(env)@, lv),
        decreases tuples@.len() - i,
    {
        let ghost env0 = env@;
        proof {
            assert(s.skip(i as int).drop_first() =~= s.skip(i + 1));
            assert(s.skip(i as int)[0] == s[i as int]);
            assert(s[i as int] == crate::types::pair_view(tuples@[i as int]));
        }
        match &tuples[i].0 {
            Expression::At(Atom::Symbol(sym)) => {
                let value_to_bind = match eval_expression(tuples[i].1.copy(), env, local_vars, fuel) {
                    Ok(v) => v,
                    Err(e) => {
                        return Err(e);
                    },
                };
                insert_var(&mut map_of_bound_names, sym.clone(), value_to_bind);
            },
            _ => {
                return Err(
                    EvaluationError::UnknownBinding("Illegal binding; only symbols".to_owned()),
                );
            },
        }
        i = i + 1;
    }
    Ok(map_of_bound_names)
}

/// Binds each atom to the value of its form, in a new evaluated map.
fn vector_of_tuples_to_hash_map_atom(
    tuples: &Vec<(Expression, Expression)>,
    env: &mut Environment,
    local_vars: &LocalVars,
    fuel: u64,
) -> (r: EvalResult<Vec<(Atom, Expression)>>)
    ensures
        ((match r {
            Ok(m) => Ok(entries_map(m@)),
            Err(e) => Err(e@),
        }), final(env)@) == bind_atoms_spec(
            fuel as nat,
            pairs_seq(tuples@),
            Map::empty(),
            old(env)@,
            frames_view(local_vars),
        ),
    decreases fuel, 1nat, 0nat,
{
    let ghost s = pairs_seq(tuples@);
    let ghost lv = frames_view(local_vars);
    let ghost target = bind_atoms_spec(fuel as nat, s, Map::empty(), env@, lv);
    let mut map_of_bound_names: Vec<(Atom, Expression)> = Vec::new();
    let mut i: usize = 0;
    proof {
        assert(s.skip(0) =~= s);
        assert(crate::types::entries_seq(map_of_bound_names@) =~= Seq::empty());
    }
    while i < tuples.len()
        invariant
            i <= tuples@.len(),
            s == pairs_seq(tuples@),
            lv == frames_view(local_vars),
            bind_atoms_spec(fuel as nat, s.skip(i as int), entries_map(map_of_bound_names@), env@, lv)
                == target,
            target == bind_atoms_spec(fuel as nat, s, Map::empty(), old(env)@, lv),
        decreases tuples@.len() - i,
    {
        let ghost env0 = env@;
        proof {
            assert(s.skip(i as int).drop_first() =~= s.skip(i + 1));
            assert(s.skip(i as int)[0] == s[i as int]);
            assert(s[i as int] == crate::types::pair_view(tuples@[i as int]));
        }
        match &tuples[i].0 {
            Expression::At(atom) => {
                let value_to_bind = match eval_expression(tuples[i].1.copy(), env, local_vars, fuel) {
                    Ok(v) => v,
                    Err(e) => {
                        return Err(e);
                    },
                };
                insert_entry(&mut map_of_bound_names, atom.copy(), value_to_bind);
            },
            _ => {
                return Err(
                    EvaluationError::UnknownBinding("Illegal binding; only symbols".to_owned()),
                );
            },
        }
        i = i + 1;
    }
    Ok(map_of_bound_names)
}

fn quote_expr(to_quote: Vec<Expression>) -> (r: EvalResult<Expression>)
    ensures
        result_view(r) == quote_spec(seq_view(to_quote@)),
{
    if to_quote.len() == 1 {
        Ok(to_quote[0].copy())
    } else {
        Err(EvaluationError::WrongArity(1, to_quote.len() as i64))
    }
}

fn is_truthy(expr: &Expression) -> (r: bool)
    ensures
        r == truthy(expr@),
{
    match expr {
        Expression::At(Atom::Bool(false)) => false,
        Expression::At(Atom::Nil) => false,
        _ => true,
    }
}

fn if_expr(args: Vec<Expression>, env: &mut Environment, local_vars: &LocalVars, fuel: u64) -> (r:
    EvalResult<Expression>)
    ensures
        (result_view(r), final(env)@) == if_spec(
            fuel as nat,
            seq_view(args@),
            old(env)@,
            frames_view(local_vars),
        ),
    decreases fuel, 2nat, 0nat,
{
    if args.len() == 3 || args.len() == 2 {
        let evaled_cond = match eval_expression(args[0].copy(), env, local_vars, fuel) {
            Ok(v) => v,
            Err(e) => {
                return Err(e);
            },
        };
        if is_truthy(&evaled_cond) {
            eval_expression(args[1].copy(), env, local_vars, fuel)
        } else if args.len() == 3 {
            eval_expression(args[2].copy(), env, local_vars, fuel)
        } else {
            Ok(Expression::At(Atom::Nil))
        }
    } else {
        Err(EvaluationError::WrongArity(3, args.len() as i64))
    }
}

fn all_symbols(arr: &Vec<Expression>) -> (r: bool)
    ensures
        r == (forall|i: int| 0 <= i < arr@.len() ==> is_symbol(#[trigger] seq_view(arr@)[i])),
{
    let mut i: usize = 0;
    while i < arr.len()
        invariant
            i <= arr@.len(),
            forall|j: int| 0 <= j < i ==> is_symbol(#[trigger] seq_view(arr@)[j]),
        decreases arr@.len() - i,
    {
        match &arr[i] {
            Expression::At(Atom::Symbol(_)) => {},
            _ => {
                assert(!is_symbol(seq_view(arr@)[i as int]));
                return false;
            },
        }
        i = i + 1;
    }
    true
}

fn lambda(args: Vec<Expression>) -> (r: EvalResult<Expression>)
    ensures
        result_view(r) == lambda_spec(seq_view(args@)),
{
    if args.len() == 2 {
        match &args[0] {
            Expression::Array(arr) => {
                proof {
                    lemma_array_view(*arr);
                }
                if all_symbols(arr) {
                    let params = copy_vec(arr);
                    let body = args[1].copy();
                    proof {
                        lemma_lambda_view(params, Box::new(body));
                    }
                    Ok(Expression::Function(FunctionType::Lambda(params, Box::new(body))))
                } else {
                    Err(EvaluationError::WrongType("not all args were symbols".to_owned()))
                }
            },
            _ => Err(EvaluationError::WrongType("arguments to fn must be array".to_owned())),
        }
    } else {
        Err(EvaluationError::WrongArity(2, args.len() as i64))
    }
}

fn def(args: Vec<Expression>, env: &mut Environment, local_vars: &LocalVars, fuel: u64) -> (r:
    EvalResult<Expression>)
    ensures
        (result_view(r), final(env)@) == def_spec(
            fuel as nat,
            seq_view(args@),
            old(env)@,
            frames_view(local_vars),
        ),
    decreases fuel, 2nat, 0nat,
{
    if args.len() == 2 {
        match &args[0] {
            Expression::At(Atom::Symbol(sym)) => {
                match lookup_symbol(sym, env, local_vars) {
                    Ok(Expression::SpecialForm(_)) => {
                        return Err(
                            EvaluationError::ForbiddenDef("Cannot overwrite special form".to_owned()),
                        );
                    },
                    Ok(Expression::Function(FunctionType::BuiltIn(_))) => {
                        return Err(
                            EvaluationError::ForbiddenDef(
                                "Cannot overwrite built in function".to_owned(),
                            ),
                        );
                    },
                    _ => {},
                }
                let value = match eval_expression(args[1].copy(), env, local_vars, fuel) {
                    Ok(v) => v,
                    Err(e) => {
                        return Err(e);
                    },
                };
                insert_var(&mut env.top_level_vars, sym.clone(), value.copy());
                Ok(value)
            },
            _ => Err(EvaluationError::UnknownBinding("Cannot def a non-symbol".to_owned())),
        }
    } else {
        Err(EvaluationError::WrongArity(2, args.len() as i64))
    }
}

fn let_expr(args: Vec<Expression>, env: &mut Environment, local_vars: &LocalVars, fuel: u64) -> (r:
    EvalResult<Expression>)
    ensures
        (result_view(r), final(env)@) == let_spec(
            fuel as nat,
            seq_view(args@),
            old(env)@,
            frames_view(local_vars),
        ),
    decreases fuel, 2nat, 0nat,
{
    if args.len() == 2 {
        match &args[0] {
            Expression::Array(vec) => {
                proof {
                    lemma_array_view(*vec);
                }
                let forms = copy_vec(vec);
                let ghost fv = forms@;
                let vector_of_tuples = match tuple_even_vector(forms) {
                    Ok(t) => t,
                    Err(e) => {
                        return Err(e);
                    },
                };
                proof {
                    assert(pairs_seq(vector_of_tuples@) =~= pairs_of(seq_view(fv)));
                }
                let map_of_bound_names = match vector_of_tuples_to_hash_map_symbol(
                    &vector_of_tuples,
                    env,
                    local_vars,
                    fuel,
                ) {
                    Ok(m) => m,
                    Err(e) => {
                        return Err(e);
                    },
                };
                let local_env_overwrites = SinglyLinkedList::Cons(map_of_bound_names, local_vars);
                eval_expression(args[1].copy(), env, &local_env_overwrites, fuel)
            },
            _ => Err(
                EvaluationError::WrongType(
                    "Second argument of let binding must be array".to_owned(),
                ),
            ),
        }
    } else {
        Err(EvaluationError::WrongArity(2, args.len() as i64))
    }
}

/// The parameters paired with the arguments, as far as both go.
fn zip_params(params: Vec<Expression>, vals: Vec<Expression>) -> (r: Vec<(Expression, Expression)>)
    ensures
        pairs_seq(r@) == zip_spec(seq_view(params@), seq_view(vals@)),
{
    let ghost ps = seq_view(params@);
    let ghost vs = seq_view(vals@);
    let mut r: Vec<(Expression, Expression)> = Vec::new();
    let mut params = params;
    let mut vals = vals;
    let ghost n = zip_spec(ps, vs).len();
    while params.len() > 0 && vals.len() > 0
        invariant
            r@.len() <= n,
            r@.len() <= ps.len(),
            r@.len() <= vs.len(),
            n == zip_spec(ps, vs).len(),
            seq_view(params@) == ps.skip(r@.len() as int),
            seq_view(vals@) == vs.skip(r@.len() as int),
            pairs_seq(r@) == zip_spec(ps, vs).take(r@.len() as int),
        decreases params@.len(),
    {
        let ghost k = r@.len() as int;
        let ghost pb = params@;
        let ghost vb = vals@;
        proof {
            assert(seq_view(pb).len() == ps.len() - k);
            assert(seq_view(vb).len() == vs.len() - k);
            assert(seq_view(pb)[0] == ps[k]);
            assert(seq_view(vb)[0] == vs[k]);
        }
        let p = params.remove(0);
        let v = vals.remove(0);
        proof {
            assert forall|j: int| 0 <= j < params@.len() implies #[trigger] seq_view(params@)[j]
                == ps.skip(k + 1)[j] by {
                assert(params@[j] == pb[j + 1]);
                assert(seq_view(pb)[j + 1] == ps.skip(k)[j + 1]);
            }
            assert forall|j: int| 0 <= j < vals@.len() implies #[trigger] seq_view(vals@)[j]
                == vs.skip(k + 1)[j] by {
                assert(vals@[j] == vb[j + 1]);
                assert(seq_view(vb)[j + 1] == vs.skip(k)[j + 1]);
            }
            assert(seq_view(params@) =~= ps.skip(k + 1));
            assert(seq_view(vals@) =~= vs.skip(k + 1));
        }
        let ghost before = r@;
        r.push((p, v));
        proof {
            assert forall|j: int| 0 <= j < r@.len() implies #[trigger] pairs_seq(r@)[j] == zip_spec(
                ps,
                vs,
            ).take(k + 1)[j] by {
                if j < k {
                    assert(r@[j] == before[j]);
                    assert(pairs_seq(before)[j] == zip_spec(ps, vs).take(k)[j]);
                }
            }
            assert(pairs_seq(r@) =~= zip_spec(ps, vs).take(k + 1));
        }
    }
    proof {
        assert(pairs_seq(r@) =~= zip_spec(ps, vs));
    }
    r
}

fn call_function(
    called_fn: FunctionType,
    args_fn_is_receiving: Vec<Expression>,
    env: &mut Environment,
    local_vars: &LocalVars,
    fuel: u64,
) -> (r: EvalResult<Expression>)
    ensures
        (result_view(r), final(env)@) == call_function_spec(
            fuel as nat,
            Expression::Function(called_fn)@,
            seq_view(args_fn_is_receiving@),
            old(env)@,
            frames_view(local_vars),
        ),
    decreases fuel, 4nat, 0nat,
{
    let evaled = eval_all(&args_fn_is_receiving, env, local_vars, fuel);
    let ghost ev = evaled@;
    let evaled_args = map_m(evaled);
    proof {
        lemma_map_m_views(ev, evaled_args);
    }
    match evaled_args {
        Ok(correctly_evaled_args) => {
            match called_fn {
                FunctionType::BuiltIn(built_in) => apply_built_in(built_in, correctly_evaled_args),
                FunctionType::Lambda(params_fn_takes, body) => {
                    proof {
                        lemma_lambda_view(params_fn_takes, body);
                    }
                    let two_together = zip_params(params_fn_takes, correctly_evaled_args);
                    let map_of_bound_names = match vector_of_tuples_to_hash_map_symbol(
                        &two_together,
                        env,
                        local_vars,
                        fuel,
                    ) {
                        Ok(m) => m,
                        Err(e) => {
                            return Err(e);
                        },
                    };
                    let local_env_overwrites = SinglyLinkedList::Cons(map_of_bound_names, local_vars);
                    eval_expression(*body, env, &local_env_overwrites, fuel)
                },
            }
        },
        Err(err) => Err(err),
    }
}

fn call_special_form(
    special_form: SpecialForm,
    args: Vec<Expression>,
    env: &mut Environment,
    local_vars: &LocalVars,
    fuel: u64,
) -> (r: EvalResult<Expression>)
    ensures
        (result_view(r), final(env)@) == call_special_form_spec(
            fuel as nat,
            special_form,
            seq_view(args@),
            old(env)@,
            frames_view(local_vars),
        ),
    decreases fuel, 3nat, 0nat,
{
    match special_form {
        SpecialForm::Quote => quote_expr(args),
        SpecialForm::If => if_expr(args, env, local_vars, fuel),
        SpecialForm::Fn => lambda(args),
        SpecialForm::Def => def(args, env, local_vars, fuel),
        SpecialForm::Let => let_expr(args, env, local_vars, fuel),
    }
}

/// Copies of all the forms of a list but the first.
fn list_tail(list: &std::collections::VecDeque<Expression>) -> (r: Vec<Expression>)
    requires
        list@.len() > 0,
    ensures
        seq_view(r@) == seq_view(list@).drop_first(),
{
    let mut r: Vec<Expression> = Vec::new();
    let mut i: usize = 1;
    while i < list.len()
        invariant
            1 <= i <= list@.len(),
            r@.len() == i - 1,
            seq_view(r@) == seq_view(list@).subrange(1, i as int),
        decreases list@.len() - i,
    {
        let ghost before = r@;
        let x = list[i].copy();
        r.push(x);
        proof {
            assert(before.len() == i - 1);
            assert(r@ == before.push(x));
            assert(x@ == expr_view(list@[i as int]));
            assert forall|j: int| 0 <= j < r@.len() implies #[trigger] seq_view(r@)[j] == seq_view(
                list@,
            ).subrange(1, i + 1)[j] by {
                if j < before.len() {
                    assert(r@[j] == before[j]);
                    assert(seq_view(before)[j] == seq_view(list@).subrange(1, i as int)[j]);
                } else {
                    assert(j == i - 1);
                    assert(r@[j] == x);
                }
            }
            assert(seq_view(r@) =~= seq_view(list@).subrange(1, i + 1));
        }
        i = i + 1;
    }
    proof {
        assert(seq_view(r@) =~= seq_view(list@).drop_first());
    }
    r
}

fn eval_list(
    list_elements: &std::collections::VecDeque<Expression>,
    env: &mut Environment,
    local_vars: &LocalVars,
    fuel: u64,
) -> (r: EvalResult<Expression>)
    ensures
        (result_view(r), final(env)@) == eval_list_spec(
            fuel as nat,
            seq_view(list_elements@),
            old(env)@,
            frames_view(local_vars),
        ),
    decreases fuel, 5nat, 0nat,
{
    if list_elements.len() == 0 {
        let empty: std::collections::VecDeque<Expression> = std::collections::VecDeque::new();
        proof {
            lemma_list_view(empty);
            assert(seq_view(empty@) =~= seq_view(list_elements@));
        }
        return Ok(Expression::List(empty));
    }
    let caller = match eval_expression(list_elements[0].copy(), env, local_vars, fuel) {
        Ok(c) => c,
        Err(e) => {
            return Err(e);
        },
    };
    let here = list_tail(list_elements);
    match caller {
        Expression::SpecialForm(special_form_type) => call_special_form(
            special_form_type,
            here,
            env,
            local_vars,
            fuel,
        ),
        Expression::Function(fn_type) => call_function(fn_type, here, env, local_vars, fuel),
        _ => Err(EvaluationError::NotSpecialFormOrFunction),
    }
}

fn eval_array(array: &Vec<Expression>, env: &mut Environment, local_vars: &LocalVars, fuel: u64) -> (r:
    EvalResult<Expression>)
    ensures
        ({
            let (rs, env1) = eval_all_spec(
                fuel as nat,
                seq_view(array@),
                old(env)@,
                frames_view(local_vars),
            );
            (result_view(r), final(env)@) == ((
                match collect(rs) {
                    Ok(vs) => Ok(ExprV::Array(vs)),
                    Err(err) => Err(err),
                },
                env1,
            ))
        }),
    decreases fuel, 2nat, 0nat,
{
    let evaled_array = eval_all(array, env, local_vars, fuel);
    let ghost ev = evaled_array@;
    let r = map_m(evaled_array);
    proof {
        lemma_map_m_views(ev, r);
    }
    match r {
        Ok(correctly_evaled_array) => {
            proof {
                lemma_array_view(correctly_evaled_array);
            }
            Ok(Expression::Array(correctly_evaled_array))
        },
        Err(err) => Err(err),
    }
}

fn eval_map(map: &MapType, env: &mut Environment, local_vars: &LocalVars, fuel: u64) -> (r:
    EvalResult<Expression>)
    ensures
        match map {
            MapType::PostEvaluation(v) => result_view(r) == Ok::<ExprV, ErrorV>(
                ExprV::PostMap(entries_map(v@)),
            ) && final(env)@ == old(env)@,
            MapType::PreEvaluation(tuples) => {
                let (m, env1) = bind_atoms_spec(
                    fuel as nat,
                    pairs_seq(tuples@),
                    Map::empty(),
                    old(env)@,
                    frames_view(local_vars),
                );
                (result_view(r), final(env)@) == ((
                    match m {
                        Ok(m) => Ok(ExprV::PostMap(m)),
                        Err(err) => Err(err),
                    },
                    env1,
                ))
            },
        },
    decreases fuel, 2nat, 0nat,
{
    match map {
        MapType::PostEvaluation(v) => {
            let c = crate::types::copy_entries(v);
            proof {
                lemma_post_map_view(c);
            }
            Ok(Expression::Mapping(MapType::PostEvaluation(c)))
        },
        MapType::PreEvaluation(tuples) => {
            let correctly_evaled_map = match vector_of_tuples_to_hash_map_atom(
                tuples,
                env,
                local_vars,
                fuel,
            ) {
                Ok(m) => m,
                Err(e) => {
                    return Err(e);
                },
            };
            proof {
                lemma_post_map_view(correctly_evaled_map);
            }
            Ok(Expression::Mapping(MapType::PostEvaluation(correctly_evaled_map)))
        },
    }
}

/// Evaluates a form with nesting budget `fuel`, in the environment and the
/// local frames; `def` changes the environment.
pub fn eval_expression(expr: Expression, env: &mut Environment, local_vars: &LocalVars, fuel: u64) -> (r:
    EvalResult<Expression>)
    ensures
        (result_view(r), final(env)@) == eval_spec(
            fuel as nat,
            expr@,
            old(env)@,
            frames_view(local_vars),
        ),
    decreases fuel, 0nat, 0nat,
{
    if fuel == 0 {
        return Err(EvaluationError::Pending);
    }
    let f = fuel - 1;
    match expr {
        Expression::At(Atom::Symbol(sym)) => lookup_symbol(&sym, env, local_vars),
        Expression::At(a) => Ok(Expression::At(a)),
        Expression::Function(ft) => Ok(Expression::Function(ft)),
        Expression::SpecialForm(_) => Err(EvaluationError::SpecialFormOutOfContext),
        Expression::Array(array) => {
            proof {
                lemma_array_view(array);
            }
            eval_array(&array, env, local_vars, f)
        },
        Expression::Mapping(map) => {
            proof {
                if map is PostEvaluation {
                    lemma_post_map_view(map->PostEvaluation_0);
                } else {
                    lemma_pre_map_view(map->PreEvaluation_0);
                }
            }
            eval_map(&map, env, local_vars, f)
        },
        Expression::List(list) => {
            proof {
                lemma_list_view(list);
            }
            eval_list(&list, env, local_vars, f)
        },
    }
}

/// Evaluates a form within the nesting budget `MAX_DEPTH` and gives the
/// text of the outcome, in which every evaluated map shows each key once;
/// `def` changes the environment.
pub fn eval(expr: Expression, env: &mut Environment, local_vars: &LocalVars) -> (r: String)
    ensures
        ({
            let (res, env2) = eval_spec(
                MAX_DEPTH as nat,
                expr@,
                old(env)@,
                frames_view(local_vars),
            );
            &&& final(env)@ == env2
            &&& exists|out: EvalResult<Expression>| #[trigger] result_view(out) == res
                && result_keys_once(out) && r@ == result_text(out)
        }),
{
    let evaled_expr = eval_expression(expr, env, local_vars, MAX_DEPTH);
    let shown = normalize_result(&evaled_expr);
    let text = render_result(&shown);
    proof {
        // the normalized outcome witnesses the existential
        assert(result_view(shown) == result_view(evaled_expr));
    }
    text
}

} // verus!
