//! What the command line does with its input: one line of the
//! read-eval-print loop, and a whole file of forms followed by `(main!)`.
use std::collections::VecDeque;
use vstd::prelude::*;
use vstd::string::StringSliceAdditionalSpecFns;

use crate::eval::{eval, eval_expression, eval_spec, Frames, MAX_DEPTH};
use crate::parser::{parse, parse_expr_spec, parse_namespace, parse_namespace_spec, ParseError};
use crate::keys::result_keys_once;
use crate::render::result_text;
use crate::types::{
    frames_view, lemma_list_view, result_view, seq_view, Atom, AtomV, EnvV, Environment, EvalResult,
    ExprV, Expression, LocalVars,
};

verus! {

/// The environment after evaluating the forms one after the other.
pub open spec fn eval_forms_env(forms: Seq<ExprV>, env: EnvV, locals: Frames) -> EnvV
    decreases forms.len(),
{
    if forms.len() == 0 {
        env
    } else {
        eval_forms_env(forms.drop_first(), eval_spec(MAX_DEPTH as nat, forms[0], env, locals).1, locals)
    }
}

/// The call of the entry point `main!` with no argument.
pub open spec fn main_call(name: Seq<char>) -> ExprV {
    ExprV::List(seq![ExprV::At(AtomV::Symbol(name))])
}

/// `t` is the text of an outcome whose value is `res`, in which every
/// evaluated map shows each key once.
pub open spec fn is_text_of(t: Seq<char>, res: Result<ExprV, crate::types::ErrorV>) -> bool {
    exists|out: EvalResult<Expression>| #[trigger] result_view(out) == res && result_keys_once(out)
        && t == result_text(out)
}

/// Reads one form from a line and evaluates it; gives the text of the
/// outcome, or why the line does not read (the environment is then unchanged).
pub fn read_eval(input: &str, env: &mut Environment, local_vars: &LocalVars) -> (r: Result<
    String,
    ParseError,
>)
    ensures
        match parse_expr_spec(input.spec_bytes(), 0) {
            Ok((_, form)) => {
                let (res, env2) = eval_spec(MAX_DEPTH as nat, form, old(env)@, frames_view(local_vars));
                &&& r is Ok
                &&& final(env)@ == env2
                &&& is_text_of(r->Ok_0@, res)
            },
            Err(e) => r == Err::<String, ParseError>(e) && final(env)@ == old(env)@,
        },
{
    match parse(input) {
        Ok((_, expr)) => Ok(eval(expr, env, local_vars)),
        Err(e) => Err(e),
    }
}

/// Reads a whole file of forms, evaluates them one after the other, then
/// evaluates `(main!)`; gives the text of its outcome, or why the file does
/// not read (the environment is then unchanged).
pub fn load_main_namespace(contents: &[u8], env: &mut Environment, local_vars: &LocalVars) -> (r:
    Result<String, ParseError>)
    ensures
        match parse_namespace_spec(contents@) {
            Ok((_, forms)) => {
                let env1 = eval_forms_env(forms, old(env)@, frames_view(local_vars));
                let (res, env2) = eval_spec(
                    MAX_DEPTH as nat,
                    main_call("main!"@),
                    env1,
                    frames_view(local_vars),
                );
                &&& r is Ok
                &&& final(env)@ == env2
                &&& is_text_of(r->Ok_0@, res)
            },
            Err(e) => r == Err::<String, ParseError>(e) && final(env)@ == old(env)@,
        },
{
    let (_, expressions) = match parse_namespace(contents) {
        Ok(x) => x,
        Err(e) => {
            return Err(e);
        },
    };
    let ghost forms = seq_view(expressions@);
    let ghost lv = frames_view(local_vars);
    let ghost env0 = env@;
    let mut rest = expressions;
    proof {
        assert(forms.skip(0) =~= forms);
    }
    while rest.len() > 0
        invariant
            lv == frames_view(local_vars),
            rest@.len() <= forms.len(),
            seq_view(rest@) == forms.skip(forms.len() - rest@.len()),
            eval_forms_env(seq_view(rest@), env@, lv) == eval_forms_env(forms, env0, lv),
        decreases rest@.len(),
    {
        let ghost before = rest@;
        let e = rest.remove(0);
        proof {
            assert(seq_view(before)[0] == e@);
            assert forall|j: int| 0 <= j < rest@.len() implies #[trigger] seq_view(rest@)[j]
                == seq_view(before).drop_first()[j] by {
                assert(rest@[j] == before[j + 1]);
            }
            assert(seq_view(rest@) =~= seq_view(before).drop_first());
            assert(forms.skip(forms.len() - before.len()).drop_first() =~= forms.skip(
                forms.len() - rest@.len(),
            ));
        }
        let _ = eval_expression(e, env, local_vars, MAX_DEPTH);
    }
    let mut call: VecDeque<Expression> = VecDeque::new();
    call.push_back(Expression::At(Atom::Symbol("main!".to_owned())));
    proof {
        lemma_list_view(call);
        assert(seq_view(call@) =~= seq![ExprV::At(AtomV::Symbol("main!"@))]);
        assert(seq_view(rest@) =~= Seq::<ExprV>::empty());
    }
    Ok(eval(Expression::List(call), env, local_vars))
}

} // verus!
