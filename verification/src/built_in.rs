//! The built-in functions and the initial environment.
use vstd::prelude::*;

use crate::assoc::{insert_name, insert_entry, lookup_entry, remove_entry};
use crate::types::{
    copy_entries, frames_view, lemma_post_map_view, EnvV, Environment, LocalVars, SinglyLinkedList, SpecialForm, result_view, seq_view, Atom, AtomV, BuiltInFn, ErrorV,
    EvalResult, EvaluationError, ExprV, Expression, MapType,
};

verus! {

pub open spec fn not_atom() -> ErrorV {
    ErrorV::WrongType("not atom"@)
}

pub open spec fn not_integer() -> ErrorV {
    ErrorV::WrongType("atom but not integer"@)
}

pub open spec fn arity(expected: i64, received: nat) -> ErrorV {
    ErrorV::WrongArity(expected, received as i64)
}

pub open spec fn int_value(i: int) -> ExprV {
    ExprV::At(AtomV::Int(i as i64))
}

pub open spec fn fits_i64(i: int) -> bool {
    i64::MIN <= i <= i64::MAX
}

/// What `neg` gives: the negated integer.
pub open spec fn neg_spec(args: Seq<ExprV>) -> Result<ExprV, ErrorV> {
    if args.len() != 1 {
        Err(arity(1, args.len()))
    } else {
        match args[0] {
            ExprV::At(AtomV::Int(i)) => if fits_i64(-i) {
                Ok(int_value(-i))
            } else {
                Err(ErrorV::IntegerOverflow)
            },
            ExprV::At(_) => Err(not_integer()),
            _ => Err(not_atom()),
        }
    }
}

/// What `eq` gives: whether its two arguments are the same value.
pub open spec fn eq_spec(args: Seq<ExprV>) -> Result<ExprV, ErrorV> {
    if args.len() != 2 {
        Err(arity(2, args.len()))
    } else {
        Ok(ExprV::At(AtomV::Bool(args[0] == args[1])))
    }
}

/// What `<` gives: whether the first integer is below the second.
pub open spec fn compare_spec(args: Seq<ExprV>) -> Result<ExprV, ErrorV> {
    if args.len() != 2 {
        Err(arity(2, args.len()))
    } else {
        match (args[0], args[1]) {
            (ExprV::At(AtomV::Int(x)), ExprV::At(AtomV::Int(y))) => Ok(
                ExprV::At(AtomV::Bool(x < y)),
            ),
            _ => Err(ErrorV::WrongType("Can only compare two integers"@)),
        }
    }
}

/// The product of `acc` and the integers `args`, checked argument by argument.
pub open spec fn mul_fold(args: Seq<ExprV>, acc: int) -> Result<ExprV, ErrorV>
    decreases args.len(),
{
    if args.len() == 0 {
        Ok(int_value(acc))
    } else {
        match args[0] {
            ExprV::At(AtomV::Int(v)) => if fits_i64(acc * v) {
                mul_fold(args.drop_first(), acc * v)
            } else {
                Err(ErrorV::IntegerOverflow)
            },
            ExprV::At(_) => Err(not_integer()),
            _ => Err(not_atom()),
        }
    }
}

/// The sum of `acc` and the integers `args`, checked argument by argument.
pub open spec fn sum_fold(args: Seq<ExprV>, acc: int) -> Result<ExprV, ErrorV>
    decreases args.len(),
{
    if args.len() == 0 {
        Ok(int_value(acc))
    } else {
        match args[0] {
            ExprV::At(AtomV::Int(v)) => if fits_i64(acc + v) {
                sum_fold(args.drop_first(), acc + v)
            } else {
                Err(ErrorV::IntegerOverflow)
            },
            ExprV::At(_) => Err(not_integer()),
            _ => Err(not_atom()),
        }
    }
}

/// Integer division rounding towards zero.
pub open spec fn quotient(x: int, d: int) -> int {
    if x >= 0 && d > 0 {
        x / d
    } else if x < 0 && d < 0 {
        (-x) / (-d)
    } else if x < 0 {
        -((-x) / d)
    } else {
        -(x / (-d))
    }
}

/// The first integer divided in turn by the others; `first` is the quotient
/// so far, or none before the first argument.
pub open spec fn div_fold(args: Seq<ExprV>, first: Option<int>) -> Result<ExprV, ErrorV>
    decreases args.len(),
{
    if args.len() == 0 {
        Ok(
            int_value(
                match first {
                    Some(q) => q,
                    None => 0,
                },
            ),
        )
    } else {
        match args[0] {
            ExprV::At(AtomV::Int(v)) => if v == 0 {
                Err(ErrorV::DivideByZero)
            } else {
                match first {
                    None => div_fold(args.drop_first(), Some(v as int)),
                    Some(q) => if fits_i64(quotient(q, v as int)) {
                        div_fold(args.drop_first(), Some(quotient(q, v as int)))
                    } else {
                        Err(ErrorV::IntegerOverflow)
                    },
                }
            },
            ExprV::At(_) => Err(not_integer()),
            _ => Err(not_atom()),
        }
    }
}

/// What `assoc` gives: the map with the key set to the value.
pub open spec fn assoc_spec(args: Seq<ExprV>) -> Result<ExprV, ErrorV> {
    if args.len() < 3 {
        Err(arity(3, args.len()))
    } else {
        match args[0] {
            ExprV::PostMap(m) => match args[1] {
                ExprV::At(a) => Ok(ExprV::PostMap(m.insert(a, args[2]))),
                _ => Err(ErrorV::WrongType("key must be atom"@)),
            },
            _ => Err(ErrorV::WrongType("can only associate in a map"@)),
        }
    }
}

/// What `dissoc` gives: the map without the key.
pub open spec fn dissoc_spec(args: Seq<ExprV>) -> Result<ExprV, ErrorV> {
    if args.len() < 2 {
        Err(arity(2, args.len()))
    } else {
        match args[0] {
            ExprV::PostMap(m) => match args[1] {
                ExprV::At(a) => Ok(ExprV::PostMap(m.remove(a))),
                _ => Err(ErrorV::WrongType("key must be atom"@)),
            },
            _ => Err(ErrorV::WrongType("can only dissociate in a map"@)),
        }
    }
}

/// What `get` gives: the value of the key, or nil.
pub open spec fn get_spec(args: Seq<ExprV>) -> Result<ExprV, ErrorV> {
    if args.len() < 2 {
        Err(arity(2, args.len()))
    } else {
        match args[0] {
            ExprV::PostMap(m) => match args[1] {
                ExprV::At(a) => if m.contains_key(a) {
                    Ok(m[a])
                } else {
                    Ok(ExprV::At(AtomV::Nil))
                },
                _ => Err(ErrorV::WrongType("key must be atom"@)),
            },
            _ => Err(ErrorV::WrongType("can only dissociate in a map"@)),
        }
    }
}

/// What a built-in function gives on (evaluated) arguments.
pub open spec fn built_in_spec(f: BuiltInFn, args: Seq<ExprV>) -> Result<ExprV, ErrorV> {
    match f {
        BuiltInFn::Sum => sum_fold(args, 0),
        BuiltInFn::Mul => mul_fold(args, 1),
        BuiltInFn::Div => div_fold(args, None),
        BuiltInFn::Neg => neg_spec(args),
        BuiltInFn::Eq => eq_spec(args),
        BuiltInFn::Compare => compare_spec(args),
        BuiltInFn::Assoc => assoc_spec(args),
        BuiltInFn::Dissoc => dissoc_spec(args),
        BuiltInFn::Get => get_spec(args),
    }
}

fn wrong_type(msg: &str) -> (r: EvaluationError)
    ensures
        r@ == ErrorV::WrongType(msg@),
{
    EvaluationError::WrongType(msg.to_owned())
}

/// The negation of the one integer argument.
pub fn neg(args: Vec<Expression>) -> (r: EvalResult<Expression>)
    ensures
        result_view(r) == neg_spec(seq_view(args@)),
{
    let args_amount = args.len();
    if args_amount != 1 {
        Err(EvaluationError::WrongArity(1, args_amount as i64))
    } else {
        match &args[0] {
            Expression::At(atom) => match atom {
                Atom::Int(i) => match i.checked_mul(-1) {
                    Some(n) => Ok(Expression::At(Atom::Int(n))),
                    None => Err(EvaluationError::IntegerOverflow),
                },
                _ => Err(wrong_type("atom but not integer")),
            },
            _ => Err(wrong_type("not atom")),
        }
    }
}

/// Whether the two arguments are the same value.
pub fn eq(args: Vec<Expression>) -> (r: EvalResult<Expression>)
    ensures
        result_view(r) == eq_spec(seq_view(args@)),
{
    let args_amount = args.len();
    if args_amount != 2 {
        Err(EvaluationError::WrongArity(2, args_amount as i64))
    } else {
        Ok(Expression::At(Atom::Bool(args[0].equals(&args[1]))))
    }
}

/// Whether the first integer argument is below the second.
pub fn compare(args: Vec<Expression>) -> (r: EvalResult<Expression>)
    ensures
        result_view(r) == compare_spec(seq_view(args@)),
{
    let args_amount = args.len();
    if args_amount != 2 {
        Err(EvaluationError::WrongArity(2, args_amount as i64))
    } else {
        match (&args[0], &args[1]) {
            (Expression::At(Atom::Int(x)), Expression::At(Atom::Int(y))) => {
                Ok(Expression::At(Atom::Bool(*x < *y)))
            },
            _ => Err(wrong_type("Can only compare two integers")),
        }
    }
}

proof fn lemma_skip_step(s: Seq<ExprV>, i: int)
    requires
        0 <= i < s.len(),
    ensures
        s.skip(i).len() > 0,
        s.skip(i)[0] == s[i],
        s.skip(i).drop_first() == s.skip(i + 1),
{
    assert(s.skip(i).drop_first() =~= s.skip(i + 1));
}

/// The product of the integer arguments (1 for none).
pub fn mul(args: Vec<Expression>) -> (r: EvalResult<Expression>)
    ensures
        result_view(r) == mul_fold(seq_view(args@), 1),
{
    let ghost s = seq_view(args@);
    let mut mtt: i64 = 1;
    let mut i: usize = 0;
    assert(s.skip(0) =~= s);
    while i < args.len()
        invariant
            s == seq_view(args@),
            i <= args@.len(),
            mul_fold(s.skip(i as int), mtt as int) == mul_fold(s, 1),
        decreases args@.len() - i,
    {
        proof {
            lemma_skip_step(s, i as int);
        }
        match &args[i] {
            Expression::At(Atom::Int(value)) => match mtt.checked_mul(*value) {
                Some(m) => {
                    mtt = m;
                },
                None => {
                    return Err(EvaluationError::IntegerOverflow);
                },
            },
            Expression::At(_) => {
                return Err(wrong_type("atom but not integer"));
            },
            _ => {
                return Err(wrong_type("not atom"));
            },
        }
        i = i + 1;
    }
    assert(s.skip(i as int).len() == 0);
    Ok(Expression::At(Atom::Int(mtt)))
}

/// The sum of the integer arguments (0 for none).
pub fn sum(args: Vec<Expression>) -> (r: EvalResult<Expression>)
    ensures
        result_view(r) == sum_fold(seq_view(args@), 0),
{
    let ghost s = seq_view(args@);
    let mut acc: i64 = 0;
    let mut i: usize = 0;
    assert(s.skip(0) =~= s);
    while i < args.len()
        invariant
            s == seq_view(args@),
            i <= args@.len(),
            sum_fold(s.skip(i as int), acc as int) == sum_fold(s, 0),
        decreases args@.len() - i,
    {
        proof {
            lemma_skip_step(s, i as int);
        }
        match &args[i] {
            Expression::At(Atom::Int(value)) => match acc.checked_add(*value) {
                Some(m) => {
                    acc = m;
                },
                None => {
                    return Err(EvaluationError::IntegerOverflow);
                },
            },
            Expression::At(_) => {
                return Err(wrong_type("atom but not integer"));
            },
            _ => {
                return Err(wrong_type("not atom"));
            },
        }
        i = i + 1;
    }
    assert(s.skip(i as int).len() == 0);
    Ok(Expression::At(Atom::Int(acc)))
}

/// The first integer argument divided in turn by the others, rounding
/// towards zero (0 for no argument).
pub fn div(args: Vec<Expression>) -> (r: EvalResult<Expression>)
    ensures
        result_view(r) == div_fold(seq_view(args@), None),
{
    let ghost s = seq_view(args@);
    let mut first_value = true;
    let mut dvv: i64 = 0;
    let mut i: usize = 0;
    assert(s.skip(0) =~= s);
    while i < args.len()
        invariant
            s == seq_view(args@),
            i <= args@.len(),
            first_value ==> dvv == 0,
            div_fold(s.skip(i as int), if first_value { None } else { Some(dvv as int) })
                == div_fold(s, None),
        decreases args@.len() - i,
    {
        proof {
            lemma_skip_step(s, i as int);
        }
        match &args[i] {
            Expression::At(Atom::Int(value)) => {
                if *value == 0 {
                    return Err(EvaluationError::DivideByZero);
                }
                if first_value {
                    first_value = false;
                    dvv = *value;
                } else {
                    match dvv.checked_div(*value) {
                        Some(q) => {
                            dvv = q;
                        },
                        None => {
                            return Err(EvaluationError::IntegerOverflow);
                        },
                    }
                }
            },
            Expression::At(_) => {
                return Err(wrong_type("atom but not integer"));
            },
            _ => {
                return Err(wrong_type("not atom"));
            },
        }
        i = i + 1;
    }
    assert(s.skip(i as int).len() == 0);
    Ok(Expression::At(Atom::Int(dvv)))
}

/// The map (first argument) with the key (second) set to the value (third).
pub fn assoc(args: Vec<Expression>) -> (r: EvalResult<Expression>)
    ensures
        result_view(r) == assoc_spec(seq_view(args@)),
{
    if args.len() < 3 {
        Err(EvaluationError::WrongArity(3, args.len() as i64))
    } else if let Expression::Mapping(MapType::PostEvaluation(map)) = &args[0] {
        if let Expression::At(atom) = &args[1] {
            let mut m = copy_entries(map);
            insert_entry(&mut m, atom.copy(), args[2].copy());
            proof {
                lemma_post_map_view(*map);
                lemma_post_map_view(m);
            }
            Ok(Expression::Mapping(MapType::PostEvaluation(m)))
        } else {
            Err(wrong_type("key must be atom"))
        }
    } else {
        Err(wrong_type("can only associate in a map"))
    }
}

/// The map (first argument) without the key (second).
pub fn dissoc(args: Vec<Expression>) -> (r: EvalResult<Expression>)
    ensures
        result_view(r) == dissoc_spec(seq_view(args@)),
{
    if args.len() < 2 {
        Err(EvaluationError::WrongArity(2, args.len() as i64))
    } else if let Expression::Mapping(MapType::PostEvaluation(map)) = &args[0] {
        if let Expression::At(atom) = &args[1] {
            let m = remove_entry(copy_entries(map), atom);
            proof {
                lemma_post_map_view(*map);
                lemma_post_map_view(m);
            }
            Ok(Expression::Mapping(MapType::PostEvaluation(m)))
        } else {
            Err(wrong_type("key must be atom"))
        }
    } else {
        Err(wrong_type("can only dissociate in a map"))
    }
}

/// The value of the key (second argument) in the map (first), or nil.
pub fn get(args: Vec<Expression>) -> (r: EvalResult<Expression>)
    ensures
        result_view(r) == get_spec(seq_view(args@)),
{
    if args.len() < 2 {
        Err(EvaluationError::WrongArity(2, args.len() as i64))
    } else if let Expression::Mapping(MapType::PostEvaluation(map)) = &args[0] {
        if let Expression::At(atom) = &args[1] {
            proof {
                lemma_post_map_view(*map);
            }
            match lookup_entry(map, atom) {
                Some(exp) => Ok(exp),
                None => Ok(Expression::At(Atom::Nil)),
            }
        } else {
            Err(wrong_type("key must be atom"))
        }
    } else {
        Err(wrong_type("can only dissociate in a map"))
    }
}

/// Calls the built-in function `f` on evaluated arguments.
pub fn apply_built_in(f: BuiltInFn, args: Vec<Expression>) -> (r: EvalResult<Expression>)
    ensures
        result_view(r) == built_in_spec(f, seq_view(args@)),
{
    match f {
        BuiltInFn::Sum => sum(args),
        BuiltInFn::Mul => self::mul(args),
        BuiltInFn::Div => div(args),
        BuiltInFn::Neg => neg(args),
        BuiltInFn::Eq => eq(args),
        BuiltInFn::Compare => compare(args),
        BuiltInFn::Assoc => assoc(args),
        BuiltInFn::Dissoc => dissoc(args),
        BuiltInFn::Get => get(args),
    }
}

/// The special forms of a fresh environment.
pub open spec fn initial_special_forms() -> Map<Seq<char>, SpecialForm> {
    map![
        "quote"@ => SpecialForm::Quote,
        "if"@ => SpecialForm::If,
        "fn"@ => SpecialForm::Fn,
        "def"@ => SpecialForm::Def,
        "let"@ => SpecialForm::Let,
    ]
}

/// The built-in functions of a fresh environment, by name.
pub open spec fn initial_built_ins() -> Map<Seq<char>, BuiltInFn> {
    map![
        "+"@ => BuiltInFn::Sum,
        "*"@ => BuiltInFn::Mul,
        "/"@ => BuiltInFn::Div,
        "neg"@ => BuiltInFn::Neg,
        "eq"@ => BuiltInFn::Eq,
        "<"@ => BuiltInFn::Compare,
        "assoc"@ => BuiltInFn::Assoc,
        "dissoc"@ => BuiltInFn::Dissoc,
        "get"@ => BuiltInFn::Get,
    ]
}

/// A fresh environment: the special forms and built-ins, no variable, and
/// no local frame.
pub fn initial_env() -> (r: (Environment, LocalVars<'static>))
    ensures
        r.0@ == (EnvV {
            special_forms: initial_special_forms(),
            built_ins: initial_built_ins(),
            vars: Map::empty(),
        }),
        frames_view(&r.1) == Seq::<Map<Seq<char>, ExprV>>::empty(),
{
    let mut special_forms: Vec<(String, SpecialForm)> = Vec::new();
    let mut built_ins: Vec<(String, BuiltInFn)> = Vec::new();
    let vars: Vec<(String, Expression)> = Vec::new();
    proof {
        assert(crate::types::names_seq(special_forms@) =~= Seq::empty());
        assert(crate::types::names_seq(built_ins@) =~= Seq::empty());
        assert(crate::types::frame_seq(vars@) =~= Seq::empty());
    }

    insert_name(&mut built_ins, "+".to_owned(), BuiltInFn::Sum);
    insert_name(&mut built_ins, "*".to_owned(), BuiltInFn::Mul);
    insert_name(&mut built_ins, "/".to_owned(), BuiltInFn::Div);
    insert_name(&mut built_ins, "neg".to_owned(), BuiltInFn::Neg);
    insert_name(&mut built_ins, "eq".to_owned(), BuiltInFn::Eq);
    insert_name(&mut built_ins, "<".to_owned(), BuiltInFn::Compare);
    insert_name(&mut built_ins, "assoc".to_owned(), BuiltInFn::Assoc);
    insert_name(&mut built_ins, "dissoc".to_owned(), BuiltInFn::Dissoc);
    insert_name(&mut built_ins, "get".to_owned(), BuiltInFn::Get);

    insert_name(&mut special_forms, "quote".to_owned(), SpecialForm::Quote);
    insert_name(&mut special_forms, "if".to_owned(), SpecialForm::If);
    insert_name(&mut special_forms, "fn".to_owned(), SpecialForm::Fn);
    insert_name(&mut special_forms, "def".to_owned(), SpecialForm::Def);
    insert_name(&mut special_forms, "let".to_owned(), SpecialForm::Let);

    (
        Environment {
            special_forms: special_forms,
            built_in_fns: built_ins,
            top_level_vars: vars,
        },
        SinglyLinkedList::Nil,
    )
}

} // verus!
