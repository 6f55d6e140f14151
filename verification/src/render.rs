//! The text of an evaluation's outcome, in the shape of Rust's `Debug`
//! notation of the values.
use std::collections::VecDeque;
use vstd::prelude::*;
use vstd::std_specs::vecdeque::VecDequeAdditionalSpecFns;

use crate::types::{
    Atom, BuiltInFn, EvalResult, EvaluationError, Expression, FunctionType, MapType, SpecialForm,
};

verus! {

/// The `Debug` text of a string: quoted, with escapes.
pub uninterp spec fn quoted_text(s: Seq<char>) -> Seq<char>;

/// The `Debug` text of a character: in single quotes, with escapes.
pub uninterp spec fn char_text(c: char) -> Seq<char>;

/// The `Debug` text of a string.
#[verifier::external_body]
fn quoted(s: &String) -> (r: String)
    ensures
        r@ == quoted_text(s@),
{
    format!("{:?}", s)
}

/// The `Debug` text of a character.
#[verifier::external_body]
fn quoted_char(c: char) -> (r: String)
    ensures
        r@ == char_text(c),
{
    format!("{:?}", c)
}

pub open spec fn digit_text(d: int) -> Seq<char> {
    if d == 0 {
        "0"@
    } else if d == 1 {
        "1"@
    } else if d == 2 {
        "2"@
    } else if d == 3 {
        "3"@
    } else if d == 4 {
        "4"@
    } else if d == 5 {
        "5"@
    } else if d == 6 {
        "6"@
    } else if d == 7 {
        "7"@
    } else if d == 8 {
        "8"@
    } else {
        "9"@
    }
}

/// The decimal digits of a natural number.
pub open spec fn nat_text(n: nat) -> Seq<char>
    decreases n,
{
    if n < 10 {
        digit_text(n as int)
    } else {
        nat_text(n / 10) + digit_text((n % 10) as int)
    }
}

/// The decimal text of an integer.
pub open spec fn int_text(i: int) -> Seq<char> {
    if i < 0 {
        "-"@ + nat_text((-i) as nat)
    } else {
        nat_text(i as nat)
    }
}

fn push_digit(out: &mut String, d: u64)
    requires
        d < 10,
    ensures
        final(out)@ == old(out)@ + digit_text(d as int),
{
    if d == 0 {
        out.append("0");
    } else if d == 1 {
        out.append("1");
    } else if d == 2 {
        out.append("2");
    } else if d == 3 {
        out.append("3");
    } else if d == 4 {
        out.append("4");
    } else if d == 5 {
        out.append("5");
    } else if d == 6 {
        out.append("6");
    } else if d == 7 {
        out.append("7");
    } else if d == 8 {
        out.append("8");
    } else {
        out.append("9");
    }
}

fn push_nat(out: &mut String, n: u64)
    ensures
        final(out)@ == old(out)@ + nat_text(n as nat),
    decreases n,
{
    if n < 10 {
        push_digit(out, n);
    } else {
        push_nat(out, n / 10);
        push_digit(out, n % 10);
        assert(old(out)@ + nat_text((n / 10) as nat) + digit_text((n % 10) as int) =~= old(out)@
            + nat_text(n as nat));
    }
}

/// Appends the decimal text of an integer.
fn push_int(out: &mut String, i: i64)
    ensures
        final(out)@ == old(out)@ + int_text(i as int),
{
    if i < 0 {
        out.append("-");
        let m: u64 = if i == i64::MIN {
            0x8000_0000_0000_0000u64
        } else {
            (-i) as u64
        };
        push_nat(out, m);
        assert(old(out)@ + "-"@ + nat_text(m as nat) =~= old(out)@ + int_text(i as int));
    } else {
        push_nat(out, i as u64);
    }
}

pub open spec fn bool_text(b: bool) -> Seq<char> {
    if b {
        "true"@
    } else {
        "false"@
    }
}

pub open spec fn atom_text(a: Atom) -> Seq<char> {
    match a {
        Atom::Int(i) => "Int("@ + int_text(i as int) + ")"@,
        Atom::Char(c) => "Char("@ + char_text(c) + ")"@,
        Atom::Bool(b) => "Bool("@ + bool_text(b) + ")"@,
        Atom::Nil => "Nil"@,
        Atom::Symbol(s) => "Symbol("@ + quoted_text(s@) + ")"@,
        Atom::String(s) => "String("@ + quoted_text(s@) + ")"@,
    }
}

pub open spec fn special_form_text(f: SpecialForm) -> Seq<char> {
    match f {
        SpecialForm::Quote => "Quote"@,
        SpecialForm::If => "If"@,
        SpecialForm::Fn => "Fn"@,
        SpecialForm::Def => "Def"@,
        SpecialForm::Let => "Let"@,
    }
}

pub open spec fn built_in_text(b: BuiltInFn) -> Seq<char> {
    match b {
        BuiltInFn::Sum => "Sum"@,
        BuiltInFn::Mul => "Mul"@,
        BuiltInFn::Div => "Div"@,
        BuiltInFn::Neg => "Neg"@,
        BuiltInFn::Eq => "Eq"@,
        BuiltInFn::Compare => "Compare"@,
        BuiltInFn::Assoc => "Assoc"@,
        BuiltInFn::Dissoc => "Dissoc"@,
        BuiltInFn::Get => "Get"@,
    }
}

/// The separator before the item at `i` of `n` items, if it is not the last.
pub open spec fn sep_after(i: int, n: int) -> Seq<char> {
    if i + 1 < n {
        ", "@
    } else {
        Seq::empty()
    }
}

/// The text of an expression.
pub open spec fn expr_text(e: Expression) -> Seq<char>
    decreases e, 1nat,
{
    match e {
        Expression::At(a) => "At("@ + atom_text(a) + ")"@,
        Expression::List(v) => "List(["@ + deque_text(v, 0) + "])"@,
        Expression::Array(v) => "Array(["@ + vec_text(v, 0) + "])"@,
        Expression::Mapping(MapType::PreEvaluation(v)) => "Map(PreEvaluation(["@ + pairs_text(v, 0)
            + "]))"@,
        Expression::Mapping(MapType::PostEvaluation(v)) => "Map(PostEvaluation({"@ + entries_text(
            v,
            0,
        ) + "}))"@,
        Expression::SpecialForm(f) => "SpecialForm("@ + special_form_text(f) + ")"@,
        Expression::Function(FunctionType::BuiltIn(b)) => "Function(BuiltIn("@ + built_in_text(b)
            + "))"@,
        Expression::Function(FunctionType::Lambda(params, body)) => "Function(Lambda(["@ + vec_text(
            params,
            0,
        ) + "], "@ + expr_text(*body) + "))"@,
    }
}

/// The items of a list from `i` on, separated by commas.
pub open spec fn deque_text(v: VecDeque<Expression>, i: nat) -> Seq<char>
    decreases v, 0nat, v@.len() - i,
{
    if i >= v@.len() {
        Seq::empty()
    } else {
        expr_text(v[i as int]) + sep_after(i as int, v@.len() as int) + deque_text(v, i + 1)
    }
}

/// The items of an array from `i` on, separated by commas.
pub open spec fn vec_text(v: Vec<Expression>, i: nat) -> Seq<char>
    decreases v, 0nat, v@.len() - i,
{
    if i >= v@.len() {
        Seq::empty()
    } else {
        expr_text(v@[i as int]) + sep_after(i as int, v@.len() as int) + vec_text(v, i + 1)
    }
}

/// The (key, value) forms of a map literal from `i` on.
pub open spec fn pairs_text(v: Vec<(Expression, Expression)>, i: nat) -> Seq<char>
    decreases v, 0nat, v@.len() - i,
{
    if i >= v@.len() {
        Seq::empty()
    } else {
        "("@ + expr_text(v@[i as int].0) + ", "@ + expr_text(v@[i as int].1) + ")"@ + sep_after(
            i as int,
            v@.len() as int,
        ) + pairs_text(v, i + 1)
    }
}

/// The entries of an evaluated map from `i` on.
pub open spec fn entries_text(v: Vec<(Atom, Expression)>, i: nat) -> Seq<char>
    decreases v, 0nat, v@.len() - i,
{
    if i >= v@.len() {
        Seq::empty()
    } else {
        atom_text(v@[i as int].0) + ": "@ + expr_text(v@[i as int].1) + sep_after(
            i as int,
            v@.len() as int,
        ) + entries_text(v, i + 1)
    }
}

pub open spec fn error_text(e: EvaluationError) -> Seq<char> {
    match e {
        EvaluationError::DivideByZero => "DivideByZero"@,
        EvaluationError::SymbolNotFound(s) => "SymbolNotFound("@ + quoted_text(s@) + ")"@,
        EvaluationError::NotSpecialFormOrFunction => "NotSpecialFormOrFunction"@,
        EvaluationError::Pending => "Pending"@,
        EvaluationError::WrongType(s) => "WrongType("@ + quoted_text(s@) + ")"@,
        EvaluationError::WrongArity(a, b) => "WrongArity("@ + int_text(a as int) + ", "@ + int_text(
            b as int,
        ) + ")"@,
        EvaluationError::SpecialFormOutOfContext => "SpecialFormOutOfContext"@,
        EvaluationError::UnknownBinding(s) => "UnknownBinding("@ + quoted_text(s@) + ")"@,
        EvaluationError::ForbiddenDef(s) => "ForbiddenDef("@ + quoted_text(s@) + ")"@,
        EvaluationError::MustHaveEvenNumberOfForms(s) => "MustHaveEvenNumberOfForms("@ + quoted_text(
            s@,
        ) + ")"@,
        EvaluationError::IntegerOverflow => "IntegerOverflow"@,
    }
}

/// The text of an evaluation's outcome.
pub open spec fn result_text(r: EvalResult<Expression>) -> Seq<char> {
    match r {
        Ok(e) => "Ok("@ + expr_text(e) + ")"@,
        Err(e) => "Err("@ + error_text(e) + ")"@,
    }
}

fn push_atom(out: &mut String, a: &Atom)
    ensures
        final(out)@ == old(out)@ + atom_text(*a),
{
    let ghost o = out@;
    match a {
        Atom::Int(i) => {
            out.append("Int(");
            push_int(out, *i);
            out.append(")");
        },
        Atom::Char(c) => {
            out.append("Char(");
            let t = quoted_char(*c);
            out.append(t.as_str());
            out.append(")");
        },
        Atom::Bool(b) => {
            out.append("Bool(");
            if *b {
                out.append("true");
            } else {
                out.append("false");
            }
            out.append(")");
        },
        Atom::Nil => {
            out.append("Nil");
        },
        Atom::Symbol(s) => {
            out.append("Symbol(");
            let t = quoted(s);
            out.append(t.as_str());
            out.append(")");
        },
        Atom::String(s) => {
            out.append("String(");
            let t = quoted(s);
            out.append(t.as_str());
            out.append(")");
        },
    }
    assert(out@ =~= o + atom_text(*a));
}

fn push_sep(out: &mut String, i: usize, n: usize)
    requires
        i < n,
    ensures
        final(out)@ == old(out)@ + sep_after(i as int, n as int),
{
    if i < n - 1 {
        out.append(", ");
    } else {
        assert(out@ =~= out@ + Seq::<char>::empty());
    }
}

fn push_deque(out: &mut String, v: &VecDeque<Expression>)
    ensures
        final(out)@ == old(out)@ + deque_text(*v, 0),
    decreases v, 0nat, 0nat,
{
    let mut i: usize = 0;
    while i < v.len()
        invariant
            i <= v@.len(),
            out@ + deque_text(*v, i as nat) == old(out)@ + deque_text(*v, 0),
        decreases v@.len() - i,
    {
        let ghost before = out@;
        push_expr(out, &v[i]);
        push_sep(out, i, v.len());
        assert(before + deque_text(*v, i as nat) =~= out@ + deque_text(*v, (i + 1) as nat));
        i = i + 1;
    }
    assert(out@ + deque_text(*v, i as nat) =~= out@);
}

fn push_vec(out: &mut String, v: &Vec<Expression>)
    ensures
        final(out)@ == old(out)@ + vec_text(*v, 0),
    decreases v, 0nat, 0nat,
{
    let mut i: usize = 0;
    while i < v.len()
        invariant
            i <= v@.len(),
            out@ + vec_text(*v, i as nat) == old(out)@ + vec_text(*v, 0),
        decreases v@.len() - i,
    {
        let ghost before = out@;
        push_expr(out, &v[i]);
        push_sep(out, i, v.len());
        assert(before + vec_text(*v, i as nat) =~= out@ + vec_text(*v, (i + 1) as nat));
        i = i + 1;
    }
    assert(out@ + vec_text(*v, i as nat) =~= out@);
}

fn push_pairs(out: &mut String, v: &Vec<(Expression, Expression)>)
    ensures
        final(out)@ == old(out)@ + pairs_text(*v, 0),
    decreases v, 0nat, 0nat,
{
    let mut i: usize = 0;
    while i < v.len()
        invariant
            i <= v@.len(),
            out@ + pairs_text(*v, i as nat) == old(out)@ + pairs_text(*v, 0),
        decreases v@.len() - i,
    {
        let ghost before = out@;
        out.append("(");
        push_expr(out, &v[i].0);
        out.append(", ");
        push_expr(out, &v[i].1);
        out.append(")");
        push_sep(out, i, v.len());
        assert(before + pairs_text(*v, i as nat) =~= out@ + pairs_text(*v, (i + 1) as nat));
        i = i + 1;
    }
    assert(out@ + pairs_text(*v, i as nat) =~= out@);
}

fn push_entries(out: &mut String, v: &Vec<(Atom, Expression)>)
    ensures
        final(out)@ == old(out)@ + entries_text(*v, 0),
    decreases v, 0nat, 0nat,
{
    let mut i: usize = 0;
    while i < v.len()
        invariant
            i <= v@.len(),
            out@ + entries_text(*v, i as nat) == old(out)@ + entries_text(*v, 0),
        decreases v@.len() - i,
    {
        let ghost before = out@;
        push_atom(out, &v[i].0);
        out.append(": ");
        push_expr(out, &v[i].1);
        push_sep(out, i, v.len());
        assert(before + entries_text(*v, i as nat) =~= out@ + entries_text(*v, (i + 1) as nat));
        i = i + 1;
    }
    assert(out@ + entries_text(*v, i as nat) =~= out@);
}

fn push_expr(out: &mut String, e: &Expression)
    ensures
        final(out)@ == old(out)@ + expr_text(*e),
    decreases e, 1nat, 0nat,
{
    let ghost o = out@;
    match e {
        Expression::At(a) => {
            out.append("At(");
            push_atom(out, a);
            out.append(")");
        },
        Expression::List(v) => {
            out.append("List([");
            push_deque(out, v);
            out.append("])");
        },
        Expression::Array(v) => {
            out.append("Array([");
            push_vec(out, v);
            out.append("])");
        },
        Expression::Mapping(MapType::PreEvaluation(v)) => {
            out.append("Map(PreEvaluation([");
            push_pairs(out, v);
            out.append("]))");
        },
        Expression::Mapping(MapType::PostEvaluation(v)) => {
            out.append("Map(PostEvaluation({");
            push_entries(out, v);
            out.append("}))");
        },
        Expression::SpecialForm(f) => {
            out.append("SpecialForm(");
            match f {
                SpecialForm::Quote => out.append("Quote"),
                SpecialForm::If => out.append("If"),
                SpecialForm::Fn => out.append("Fn"),
                SpecialForm::Def => out.append("Def"),
                SpecialForm::Let => out.append("Let"),
            }
            out.append(")");
        },
        Expression::Function(FunctionType::BuiltIn(b)) => {
            out.append("Function(BuiltIn(");
            match b {
                BuiltInFn::Sum => out.append("Sum"),
                BuiltInFn::Mul => out.append("Mul"),
                BuiltInFn::Div => out.append("Div"),
                BuiltInFn::Neg => out.append("Neg"),
                BuiltInFn::Eq => out.append("Eq"),
                BuiltInFn::Compare => out.append("Compare"),
                BuiltInFn::Assoc => out.append("Assoc"),
                BuiltInFn::Dissoc => out.append("Dissoc"),
                BuiltInFn::Get => out.append("Get"),
            }
            out.append("))");
        },
        Expression::Function(FunctionType::Lambda(params, body)) => {
            out.append("Function(Lambda([");
            push_vec(out, params);
            out.append("], ");
            push_expr(out, &**body);
            out.append("))");
        },
    }
    assert(out@ =~= o + expr_text(*e));
}

fn push_error(out: &mut String, e: &EvaluationError)
    ensures
        final(out)@ == old(out)@ + error_text(*e),
{
    let ghost o = out@;
    match e {
        EvaluationError::DivideByZero => out.append("DivideByZero"),
        EvaluationError::SymbolNotFound(s) => {
            out.append("SymbolNotFound(");
            let t = quoted(s);
            out.append(t.as_str());
            out.append(")");
        },
        EvaluationError::NotSpecialFormOrFunction => out.append("NotSpecialFormOrFunction"),
        EvaluationError::Pending => out.append("Pending"),
        EvaluationError::WrongType(s) => {
            out.append("WrongType(");
            let t = quoted(s);
            out.append(t.as_str());
            out.append(")");
        },
        EvaluationError::WrongArity(a, b) => {
            out.append("WrongArity(");
            push_int(out, *a);
            out.append(", ");
            push_int(out, *b);
            out.append(")");
        },
        EvaluationError::SpecialFormOutOfContext => out.append("SpecialFormOutOfContext"),
        EvaluationError::UnknownBinding(s) => {
            out.append("UnknownBinding(");
            let t = quoted(s);
            out.append(t.as_str());
            out.append(")");
        },
        EvaluationError::ForbiddenDef(s) => {
            out.append("ForbiddenDef(");
            let t = quoted(s);
            out.append(t.as_str());
            out.append(")");
        },
        EvaluationError::MustHaveEvenNumberOfForms(s) => {
            out.append("MustHaveEvenNumberOfForms(");
            let t = quoted(s);
            out.append(t.as_str());
            out.append(")");
        },
        EvaluationError::IntegerOverflow => out.append("IntegerOverflow"),
    }
    assert(out@ =~= o + error_text(*e));
}

/// The text of an evaluation's outcome.
pub fn render_result(r: &EvalResult<Expression>) -> (t: String)
    ensures
        t@ == result_text(*r),
{
    let mut out = String::new();
    match r {
        Ok(e) => {
            out.append("Ok(");
            push_expr(&mut out, e);
            out.append(")");
        },
        Err(e) => {
            out.append("Err(");
            push_error(&mut out, e);
            out.append(")");
        },
    }
    assert(out@ =~= result_text(*r));
    out
}

} // verus!
