//! The values of the language, the evaluation environment and the errors,
//! each with the mathematical value that the contracts speak of.
use std::collections::VecDeque;
use vstd::prelude::*;
use vstd::std_specs::vecdeque::VecDequeAdditionalSpecFns;

use crate::assoc::{assoc_map, find_entry, lemma_entries_absent, lemma_entries_first, lemma_entries_has};

verus! {

/// The smallest values of the language.
#[derive(Debug, Clone)]
pub enum Atom {
    Int(i64),
    Char(char),
    Bool(bool),
    Nil,
    Symbol(String),
    String(String),
}

/// The forms that are evaluated by their own rule rather than as a call.
#[derive(Debug, Clone, Copy, PartialEq, Eq, Structural)]
pub enum SpecialForm {
    Quote,
    If,
    Fn,
    Def,
    Let,
}

/// The functions that the interpreter provides.
#[derive(Debug, Clone, Copy, PartialEq, Eq, Structural)]
pub enum BuiltInFn {
    Sum,
    Mul,
    Div,
    Neg,
    Eq,
    Compare,
    Assoc,
    Dissoc,
    Get,
}

/// A callable value: a user function (parameters and body) or a built-in.
#[derive(Debug)]
pub enum FunctionType {
    Lambda(Vec<Expression>, Box<Expression>),
    BuiltIn(BuiltInFn),
}

/// A map literal before evaluation (key and value forms in order) or an
/// evaluated map (an association list, the first entry of a key wins).
#[derive(Debug)]
pub enum MapType {
    PreEvaluation(Vec<(Expression, Expression)>),
    PostEvaluation(Vec<(Atom, Expression)>),
}

/// A form of the language, and a value that evaluation produces.
#[derive(Debug)]
pub enum Expression {
    At(Atom),
    List(VecDeque<Expression>),
    Array(Vec<Expression>),
    Mapping(MapType),
    SpecialForm(SpecialForm),
    Function(FunctionType),
}

/// Why an evaluation failed.
#[derive(Debug, Clone)]
pub enum EvaluationError {
    DivideByZero,
    SymbolNotFound(String),
    NotSpecialFormOrFunction,
    /// The evaluation did not finish within the nesting budget.
    Pending,
    WrongType(String),
    /// (Expected, Received)
    WrongArity(i64, i64),
    SpecialFormOutOfContext,
    UnknownBinding(String),
    ForbiddenDef(String),
    MustHaveEvenNumberOfForms(String),
    /// An integer result does not fit in an `i64`.
    IntegerOverflow,
}

pub type EvalResult<O> = Result<O, EvaluationError>;

/// A stack of frames; the head is the innermost one.
#[derive(Debug)]
pub enum SinglyLinkedList<'a, T> {
    Cons(T, &'a SinglyLinkedList<'a, T>),
    Nil,
}

/// The local variables visible to an evaluation: frames of bindings.
pub type LocalVars<'a> = SinglyLinkedList<'a, Vec<(String, Expression)>>;

/// The global tables of the interpreter. Each is an association list in
/// which the first entry of a name wins.
#[derive(Debug)]
pub struct Environment {
    pub special_forms: Vec<(String, SpecialForm)>,
    pub built_in_fns: Vec<(String, BuiltInFn)>,
    pub top_level_vars: Vec<(String, Expression)>,
}

/* ------------------------------------------------------------------------ */
/* The mathematical values                                                   */

pub enum AtomV {
    Int(i64),
    Char(char),
    Bool(bool),
    Nil,
    Symbol(Seq<char>),
    Str(Seq<char>),
}

pub enum ExprV {
    At(AtomV),
    List(Seq<ExprV>),
    Array(Seq<ExprV>),
    PreMap(Seq<(ExprV, ExprV)>),
    PostMap(Map<AtomV, ExprV>),
    Special(SpecialForm),
    Lambda(Seq<ExprV>, Box<ExprV>),
    BuiltIn(BuiltInFn),
}

pub enum ErrorV {
    DivideByZero,
    SymbolNotFound(Seq<char>),
    NotSpecialFormOrFunction,
    Pending,
    WrongType(Seq<char>),
    WrongArity(i64, i64),
    SpecialFormOutOfContext,
    UnknownBinding(Seq<char>),
    ForbiddenDef(Seq<char>),
    MustHaveEvenNumberOfForms(Seq<char>),
    IntegerOverflow,
}

pub struct EnvV {
    pub special_forms: Map<Seq<char>, SpecialForm>,
    pub built_ins: Map<Seq<char>, BuiltInFn>,
    pub vars: Map<Seq<char>, ExprV>,
}

pub open spec fn atom_view(a: Atom) -> AtomV {
    match a {
        Atom::Int(i) => AtomV::Int(i),
        Atom::Char(c) => AtomV::Char(c),
        Atom::Bool(b) => AtomV::Bool(b),
        Atom::Nil => AtomV::Nil,
        Atom::Symbol(s) => AtomV::Symbol(s@),
        Atom::String(s) => AtomV::Str(s@),
    }
}

/// The entries of an evaluated map, each by its value; empty for other forms.
pub open spec fn entries_view_raw(e: Expression) -> Seq<(AtomV, ExprV)>
    decreases e, 0nat,
{
    match e {
        Expression::Mapping(MapType::PostEvaluation(v)) => Seq::new(
            v@.len(),
            |i: int|
                if 0 <= i < v@.len() {
                    (atom_view(v@[i].0), expr_view(v@[i].1))
                } else {
                    (AtomV::Nil, ExprV::At(AtomV::Nil))
                },
        ),
        _ => Seq::empty(),
    }
}

pub open spec fn expr_view(e: Expression) -> ExprV
    decreases e, 1nat,
{
    match e {
        Expression::At(a) => ExprV::At(atom_view(a)),
        Expression::List(v) => ExprV::List(
            Seq::new(
                v@.len(),
                |i: int|
                    if 0 <= i < v@.len() {
                        expr_view(v[i])
                    } else {
                        ExprV::At(AtomV::Nil)
                    },
            ),
        ),
        Expression::Array(v) => ExprV::Array(
            Seq::new(
                v@.len(),
                |i: int|
                    if 0 <= i < v@.len() {
                        expr_view(v@[i])
                    } else {
                        ExprV::At(AtomV::Nil)
                    },
            ),
        ),
        Expression::Mapping(MapType::PreEvaluation(v)) => ExprV::PreMap(
            Seq::new(
                v@.len(),
                |i: int|
                    if 0 <= i < v@.len() {
                        (expr_view(v@[i].0), expr_view(v@[i].1))
                    } else {
                        (ExprV::At(AtomV::Nil), ExprV::At(AtomV::Nil))
                    },
            ),
        ),
        Expression::Mapping(MapType::PostEvaluation(_)) => ExprV::PostMap(
            assoc_map(entries_view_raw(e)),
        ),
        Expression::SpecialForm(f) => ExprV::Special(f),
        Expression::Function(FunctionType::BuiltIn(b)) => ExprV::BuiltIn(b),
        Expression::Function(FunctionType::Lambda(params, body)) => ExprV::Lambda(
            Seq::new(
                params@.len(),
                |i: int|
                    if 0 <= i < params@.len() {
                        expr_view(params@[i])
                    } else {
                        ExprV::At(AtomV::Nil)
                    },
            ),
            Box::new(expr_view(*body)),
        ),
    }
}

impl View for Atom {
    type V = AtomV;

    open spec fn view(&self) -> AtomV {
        atom_view(*self)
    }
}

impl View for Expression {
    type V = ExprV;

    open spec fn view(&self) -> ExprV {
        expr_view(*self)
    }
}

pub open spec fn seq_view(s: Seq<Expression>) -> Seq<ExprV> {
    s.map_values(|e: Expression| expr_view(e))
}

pub open spec fn pair_view(p: (Expression, Expression)) -> (ExprV, ExprV) {
    (expr_view(p.0), expr_view(p.1))
}

pub open spec fn entry_view(p: (Atom, Expression)) -> (AtomV, ExprV) {
    (atom_view(p.0), expr_view(p.1))
}

pub open spec fn binding_view<V>(p: (String, V)) -> (Seq<char>, V) {
    (p.0@, p.1)
}

pub open spec fn var_view(p: (String, Expression)) -> (Seq<char>, ExprV) {
    (p.0@, expr_view(p.1))
}

pub open spec fn pairs_seq(s: Seq<(Expression, Expression)>) -> Seq<(ExprV, ExprV)> {
    s.map_values(|p: (Expression, Expression)| pair_view(p))
}

pub open spec fn entries_seq(s: Seq<(Atom, Expression)>) -> Seq<(AtomV, ExprV)> {
    s.map_values(|p: (Atom, Expression)| entry_view(p))
}

pub open spec fn frame_seq(s: Seq<(String, Expression)>) -> Seq<(Seq<char>, ExprV)> {
    s.map_values(|p: (String, Expression)| var_view(p))
}

pub open spec fn names_seq<V>(s: Seq<(String, V)>) -> Seq<(Seq<char>, V)> {
    s.map_values(|p: (String, V)| binding_view(p))
}

/// The map that an association list of evaluated entries stands for.
pub open spec fn entries_map(s: Seq<(Atom, Expression)>) -> Map<AtomV, ExprV> {
    assoc_map(entries_seq(s))
}

/// No two entries of an evaluated map have the same key.
pub open spec fn distinct_keys(s: Seq<(Atom, Expression)>) -> bool {
    forall|i: int, j: int| #![trigger s[i], s[j]] 0 <= i < j < s.len() ==> s[i].0@ != s[j].0@
}

/// The map that a frame of named bindings stands for.
pub open spec fn frame_map(s: Seq<(String, Expression)>) -> Map<Seq<char>, ExprV> {
    assoc_map(frame_seq(s))
}

/// The map that a table of names stands for.
pub open spec fn names_map<V>(s: Seq<(String, V)>) -> Map<Seq<char>, V> {
    assoc_map(names_seq(s))
}

pub open spec fn err_view(e: EvaluationError) -> ErrorV {
    match e {
        EvaluationError::DivideByZero => ErrorV::DivideByZero,
        EvaluationError::SymbolNotFound(s) => ErrorV::SymbolNotFound(s@),
        EvaluationError::NotSpecialFormOrFunction => ErrorV::NotSpecialFormOrFunction,
        EvaluationError::Pending => ErrorV::Pending,
        EvaluationError::WrongType(s) => ErrorV::WrongType(s@),
        EvaluationError::WrongArity(a, b) => ErrorV::WrongArity(a, b),
        EvaluationError::SpecialFormOutOfContext => ErrorV::SpecialFormOutOfContext,
        EvaluationError::UnknownBinding(s) => ErrorV::UnknownBinding(s@),
        EvaluationError::ForbiddenDef(s) => ErrorV::ForbiddenDef(s@),
        EvaluationError::MustHaveEvenNumberOfForms(s) => ErrorV::MustHaveEvenNumberOfForms(s@),
        EvaluationError::IntegerOverflow => ErrorV::IntegerOverflow,
    }
}

impl View for EvaluationError {
    type V = ErrorV;

    open spec fn view(&self) -> ErrorV {
        err_view(*self)
    }
}

/// The mathematical value of an evaluation's outcome.
pub open spec fn result_view(r: EvalResult<Expression>) -> Result<ExprV, ErrorV> {
    match r {
        Ok(e) => Ok(expr_view(e)),
        Err(e) => Err(err_view(e)),
    }
}

pub open spec fn env_view(env: Environment) -> EnvV {
    EnvV {
        special_forms: names_map(env.special_forms@),
        built_ins: names_map(env.built_in_fns@),
        vars: frame_map(env.top_level_vars@),
    }
}

impl View for Environment {
    type V = EnvV;

    open spec fn view(&self) -> EnvV {
        env_view(*self)
    }
}

/// The frames of local bindings, innermost first.
pub open spec fn frames_view<'a>(l: &LocalVars<'a>) -> Seq<Map<Seq<char>, ExprV>>
    decreases l,
{
    match l {
        SinglyLinkedList::Cons(frame, tail) => seq![frame_map(frame@)] + frames_view(tail),
        SinglyLinkedList::Nil => Seq::empty(),
    }
}

/* ------------------------------------------------------------------------ */
/* Facts about the views                                                     */

pub proof fn lemma_list_view(v: VecDeque<Expression>)
    ensures
        expr_view(Expression::List(v)) == ExprV::List(seq_view(v@)),
{
    let ev = expr_view(Expression::List(v));
    assert(ev->List_0 =~= seq_view(v@));
}

pub proof fn lemma_array_view(v: Vec<Expression>)
    ensures
        expr_view(Expression::Array(v)) == ExprV::Array(seq_view(v@)),
{
    let ev = expr_view(Expression::Array(v));
    assert(ev->Array_0 =~= seq_view(v@));
}

pub proof fn lemma_lambda_view(params: Vec<Expression>, body: Box<Expression>)
    ensures
        expr_view(Expression::Function(FunctionType::Lambda(params, body))) == ExprV::Lambda(
            seq_view(params@),
            Box::new(expr_view(*body)),
        ),
{
    let ev = expr_view(Expression::Function(FunctionType::Lambda(params, body)));
    assert(ev->Lambda_0 =~= seq_view(params@));
}

pub proof fn lemma_pre_map_view(v: Vec<(Expression, Expression)>)
    ensures
        expr_view(Expression::Mapping(MapType::PreEvaluation(v))) == ExprV::PreMap(
            pairs_seq(v@),
        ),
{
    let ev = expr_view(Expression::Mapping(MapType::PreEvaluation(v)));
    assert(ev->PreMap_0 =~= pairs_seq(v@));
}

pub proof fn lemma_post_map_view(v: Vec<(Atom, Expression)>)
    ensures
        expr_view(Expression::Mapping(MapType::PostEvaluation(v))) == ExprV::PostMap(
            entries_map(v@),
        ),
{
    let e = Expression::Mapping(MapType::PostEvaluation(v));
    assert(entries_view_raw(e) =~= entries_seq(v@));
}

/* ------------------------------------------------------------------------ */
/* Copies that keep the value                                                */

impl Atom {
    /// A copy of the atom.
    pub fn copy(&self) -> (r: Atom)
        ensures
            r@ == self@,
    {
        match self {
            Atom::Int(i) => Atom::Int(*i),
            Atom::Char(c) => Atom::Char(*c),
            Atom::Bool(b) => Atom::Bool(*b),
            Atom::Nil => Atom::Nil,
            Atom::Symbol(s) => Atom::Symbol(s.clone()),
            Atom::String(s) => Atom::String(s.clone()),
        }
    }
}

impl Atom {
    /// Whether two atoms are the same value.
    pub fn equals(&self, other: &Atom) -> (r: bool)
        ensures
            r == (self@ == other@),
    {
        match (self, other) {
            (Atom::Int(a), Atom::Int(b)) => *a == *b,
            (Atom::Char(a), Atom::Char(b)) => *a == *b,
            (Atom::Bool(a), Atom::Bool(b)) => *a == *b,
            (Atom::Nil, Atom::Nil) => true,
            (Atom::Symbol(a), Atom::Symbol(b)) => *a == *b,
            (Atom::String(a), Atom::String(b)) => *a == *b,
            _ => false,
        }
    }
}

impl EvaluationError {
    /// A copy of the error.
    pub fn copy(&self) -> (r: EvaluationError)
        ensures
            r@ == self@,
    {
        match self {
            EvaluationError::DivideByZero => EvaluationError::DivideByZero,
            EvaluationError::SymbolNotFound(s) => EvaluationError::SymbolNotFound(s.clone()),
            EvaluationError::NotSpecialFormOrFunction => EvaluationError::NotSpecialFormOrFunction,
            EvaluationError::Pending => EvaluationError::Pending,
            EvaluationError::WrongType(s) => EvaluationError::WrongType(s.clone()),
            EvaluationError::WrongArity(a, b) => EvaluationError::WrongArity(*a, *b),
            EvaluationError::SpecialFormOutOfContext => EvaluationError::SpecialFormOutOfContext,
            EvaluationError::UnknownBinding(s) => EvaluationError::UnknownBinding(s.clone()),
            EvaluationError::ForbiddenDef(s) => EvaluationError::ForbiddenDef(s.clone()),
            EvaluationError::MustHaveEvenNumberOfForms(s) => EvaluationError::MustHaveEvenNumberOfForms(
                s.clone(),
            ),
            EvaluationError::IntegerOverflow => EvaluationError::IntegerOverflow,
        }
    }
}

/// A copy of a sequence of expressions.
pub fn copy_vec(v: &Vec<Expression>) -> (r: Vec<Expression>)
    ensures
        seq_view(r@) == seq_view(v@),
    decreases v, 0nat,
{
    let mut r: Vec<Expression> = Vec::new();
    let mut i: usize = 0;
    while i < v.len()
        invariant
            i <= v.len(),
            r@.len() == i,
            forall|j: int| 0 <= j < i ==> expr_view(#[trigger] r@[j]) == expr_view(v@[j]),
        decreases v.len() - i,
    {
        r.push(v[i].copy());
        i = i + 1;
    }
    assert(seq_view(r@) =~= seq_view(v@));
    r
}

/// A copy of a list of expressions.
pub fn copy_deque(v: &VecDeque<Expression>) -> (r: VecDeque<Expression>)
    ensures
        seq_view(r@) == seq_view(v@),
    decreases v, 0nat,
{
    let mut r: VecDeque<Expression> = VecDeque::new();
    let mut i: usize = 0;
    while i < v.len()
        invariant
            i <= v@.len(),
            r@.len() == i,
            forall|j: int| 0 <= j < i ==> expr_view(#[trigger] r@[j]) == expr_view(v@[j]),
        decreases v@.len() - i,
    {
        r.push_back(v[i].copy());
        i = i + 1;
    }
    assert(seq_view(r@) =~= seq_view(v@));
    r
}

/// A copy of the (key, value) forms of a map literal.
pub fn copy_pairs(v: &Vec<(Expression, Expression)>) -> (r: Vec<(Expression, Expression)>)
    ensures
        pairs_seq(r@) == pairs_seq(v@),
    decreases v, 0nat,
{
    let mut r: Vec<(Expression, Expression)> = Vec::new();
    let mut i: usize = 0;
    while i < v.len()
        invariant
            i <= v@.len(),
            r@.len() == i,
            forall|j: int| 0 <= j < i ==> pair_view(#[trigger] r@[j]) == pair_view(v@[j]),
        decreases v@.len() - i,
    {
        let k = v[i].0.copy();
        let x = v[i].1.copy();
        r.push((k, x));
        i = i + 1;
    }
    assert(pairs_seq(r@) =~= pairs_seq(v@));
    r
}

/// A copy of the entries of an evaluated map.
pub fn copy_entries(v: &Vec<(Atom, Expression)>) -> (r: Vec<(Atom, Expression)>)
    ensures
        entries_seq(r@) == entries_seq(v@),
        distinct_keys(r@) == distinct_keys(v@),
    decreases v, 0nat,
{
    let mut r: Vec<(Atom, Expression)> = Vec::new();
    let mut i: usize = 0;
    while i < v.len()
        invariant
            i <= v@.len(),
            r@.len() == i,
            forall|j: int| 0 <= j < i ==> entry_view(#[trigger] r@[j]) == entry_view(v@[j]),
        decreases v@.len() - i,
    {
        let k = v[i].0.copy();
        let x = v[i].1.copy();
        r.push((k, x));
        i = i + 1;
    }
    assert(entries_seq(r@) =~= entries_seq(v@));
    assert forall|j: int| 0 <= j < r@.len() implies #[trigger] r@[j].0@ == v@[j].0@ by {
        assert(entry_view(r@[j]) == entry_view(v@[j]));
    }
    proof {
        if distinct_keys(v@) {
            assert forall|a: int, b: int| 0 <= a < b < r@.len() implies r@[a].0@ != r@[b].0@ by {
                assert(r@[a].0@ == v@[a].0@ && r@[b].0@ == v@[b].0@);
            }
        }
        if distinct_keys(r@) {
            assert forall|a: int, b: int| 0 <= a < b < v@.len() implies v@[a].0@ != v@[b].0@ by {
                assert(r@[a].0@ == v@[a].0@ && r@[b].0@ == v@[b].0@);
            }
        }
    }
    r
}

impl Expression {
    /// A copy of the expression.
    pub fn copy(&self) -> (r: Expression)
        ensures
            r@ == self@,
        decreases self, 1nat,
    {
        match self {
            Expression::At(a) => Expression::At(a.copy()),
            Expression::List(v) => {
                let r = copy_deque(v);
                proof {
                    lemma_list_view(*v);
                    lemma_list_view(r);
                }
                Expression::List(r)
            },
            Expression::Array(v) => {
                let r = copy_vec(v);
                proof {
                    lemma_array_view(*v);
                    lemma_array_view(r);
                }
                Expression::Array(r)
            },
            Expression::Mapping(MapType::PreEvaluation(v)) => {
                let r = copy_pairs(v);
                proof {
                    lemma_pre_map_view(*v);
                    lemma_pre_map_view(r);
                }
                Expression::Mapping(MapType::PreEvaluation(r))
            },
            Expression::Mapping(MapType::PostEvaluation(v)) => {
                let r = copy_entries(v);
                proof {
                    lemma_post_map_view(*v);
                    lemma_post_map_view(r);
                }
                Expression::Mapping(MapType::PostEvaluation(r))
            },
            Expression::SpecialForm(f) => Expression::SpecialForm(*f),
            Expression::Function(FunctionType::BuiltIn(b)) => Expression::Function(
                FunctionType::BuiltIn(*b),
            ),
            Expression::Function(FunctionType::Lambda(params, body)) => {
                let p = copy_vec(params);
                let b = body.copy();
                proof {
                    lemma_lambda_view(*params, *body);
                    lemma_lambda_view(p, Box::new(b));
                }
                Expression::Function(FunctionType::Lambda(p, Box::new(b)))
            },
        }
    }
}


/// Whether two sequences of expressions are equal, element by element.
pub fn vec_equals(a: &Vec<Expression>, b: &Vec<Expression>) -> (r: bool)
    ensures
        r == (seq_view(a@) == seq_view(b@)),
    decreases a, 0nat,
{
    if a.len() != b.len() {
        return false;
    }
    let mut i: usize = 0;
    while i < a.len()
        invariant
            i <= a@.len(),
            a@.len() == b@.len(),
            forall|j: int| 0 <= j < i ==> expr_view(#[trigger] a@[j]) == expr_view(b@[j]),
        decreases a@.len() - i,
    {
        if !a[i].equals(&b[i]) {
            assert(seq_view(a@)[i as int] != seq_view(b@)[i as int]);
            return false;
        }
        i = i + 1;
    }
    assert(seq_view(a@) =~= seq_view(b@));
    true
}

/// Whether two lists of expressions are equal, element by element.
pub fn deque_equals(a: &VecDeque<Expression>, b: &VecDeque<Expression>) -> (r: bool)
    ensures
        r == (seq_view(a@) == seq_view(b@)),
    decreases a, 0nat,
{
    if a.len() != b.len() {
        return false;
    }
    let mut i: usize = 0;
    while i < a.len()
        invariant
            i <= a@.len(),
            a@.len() == b@.len(),
            forall|j: int| 0 <= j < i ==> expr_view(#[trigger] a@[j]) == expr_view(b@[j]),
        decreases a@.len() - i,
    {
        if !a[i].equals(&b[i]) {
            assert(seq_view(a@)[i as int] != seq_view(b@)[i as int]);
            return false;
        }
        i = i + 1;
    }
    assert(seq_view(a@) =~= seq_view(b@));
    true
}

/// Whether two map literals have equal (key, value) forms, in order.
pub fn pairs_equals(a: &Vec<(Expression, Expression)>, b: &Vec<(Expression, Expression)>) -> (r:
    bool)
    ensures
        r == (pairs_seq(a@) == pairs_seq(b@)),
    decreases a, 0nat,
{
    if a.len() != b.len() {
        return false;
    }
    let mut i: usize = 0;
    while i < a.len()
        invariant
            i <= a@.len(),
            a@.len() == b@.len(),
            forall|j: int| 0 <= j < i ==> pair_view(#[trigger] a@[j]) == pair_view(b@[j]),
        decreases a@.len() - i,
    {
        if !a[i].0.equals(&b[i].0) || !a[i].1.equals(&b[i].1) {
            assert(pairs_seq(a@)[i as int] != pairs_seq(b@)[i as int]);
            return false;
        }
        i = i + 1;
    }
    assert(pairs_seq(a@) =~= pairs_seq(b@));
    true
}

/// Whether two evaluated maps give the same keys the same values.
pub fn entries_equals(a: &Vec<(Atom, Expression)>, b: &Vec<(Atom, Expression)>) -> (r: bool)
    ensures
        r == (entries_map(a@) == entries_map(b@)),
    decreases a, 0nat,
{
    let mut i: usize = 0;
    while i < a.len()
        invariant
            i <= a@.len(),
            forall|j: int|
                0 <= j < i ==> {
                    &&& entries_map(b@).contains_key(#[trigger] a@[j].0@)
                    &&& entries_map(a@).contains_key(a@[j].0@)
                    &&& entries_map(a@)[a@[j].0@] == entries_map(b@)[a@[j].0@]
                },
        decreases a@.len() - i,
    {
        let ia = match find_entry(a, &a[i].0) {
            Some(ia) => ia,
            None => {
                return false;
            },
        };
        proof {
            lemma_entries_first(a@, a@[i as int].0@, ia as int);
        }
        match find_entry(b, &a[i].0) {
            None => {
                proof {
                    lemma_entries_absent(b@, a@[i as int].0@);
                }
                return false;
            },
            Some(ib) => {
                proof {
                    lemma_entries_first(b@, a@[i as int].0@, ib as int);
                }
                if !a[ia].1.equals(&b[ib].1) {
                    return false;
                }
            },
        }
        i = i + 1;
    }
    let mut i: usize = 0;
    while i < b.len()
        invariant
            i <= b@.len(),
            forall|j: int| 0 <= j < i ==> entries_map(a@).contains_key(#[trigger] b@[j].0@),
        decreases b@.len() - i,
    {
        match find_entry(a, &b[i].0) {
            None => {
                proof {
                    lemma_entries_absent(a@, b@[i as int].0@);
                    lemma_entries_first(b@, b@[i as int].0@, i as int);
                }
                return false;
            },
            Some(ia) => {
                proof {
                    lemma_entries_first(a@, b@[i as int].0@, ia as int);
                }
            },
        }
        i = i + 1;
    }
    proof {
        assert forall|k: AtomV| #[trigger] entries_map(a@).contains_key(k) implies entries_map(
            b@,
        ).contains_key(k) && entries_map(a@)[k] == entries_map(b@)[k] by {
            let j = lemma_entries_has(a@, k);
        }
        assert forall|k: AtomV| #[trigger] entries_map(b@).contains_key(k) implies entries_map(
            a@,
        ).contains_key(k) by {
            let j = lemma_entries_has(b@, k);
        }
        assert(entries_map(a@) =~= entries_map(b@));
    }
    true
}

impl Expression {
    /// Whether two expressions are the same value.
    pub fn equals(&self, other: &Expression) -> (r: bool)
        ensures
            r == (self@ == other@),
        decreases self, 1nat,
    {
        match (self, other) {
            (Expression::At(a), Expression::At(b)) => a.equals(b),
            (Expression::List(a), Expression::List(b)) => {
                proof {
                    lemma_list_view(*a);
                    lemma_list_view(*b);
                }
                deque_equals(a, b)
            },
            (Expression::Array(a), Expression::Array(b)) => {
                proof {
                    lemma_array_view(*a);
                    lemma_array_view(*b);
                }
                vec_equals(a, b)
            },
            (
                Expression::Mapping(MapType::PreEvaluation(a)),
                Expression::Mapping(MapType::PreEvaluation(b)),
            ) => {
                proof {
                    lemma_pre_map_view(*a);
                    lemma_pre_map_view(*b);
                }
                pairs_equals(a, b)
            },
            (
                Expression::Mapping(MapType::PostEvaluation(a)),
                Expression::Mapping(MapType::PostEvaluation(b)),
            ) => {
                proof {
                    lemma_post_map_view(*a);
                    lemma_post_map_view(*b);
                }
                entries_equals(a, b)
            },
            (Expression::SpecialForm(a), Expression::SpecialForm(b)) => *a == *b,
            (
                Expression::Function(FunctionType::BuiltIn(a)),
                Expression::Function(FunctionType::BuiltIn(b)),
            ) => *a == *b,
            (
                Expression::Function(FunctionType::Lambda(pa, ba)),
                Expression::Function(FunctionType::Lambda(pb, bb)),
            ) => {
                proof {
                    lemma_lambda_view(*pa, *ba);
                    lemma_lambda_view(*pb, *bb);
                }
                vec_equals(pa, pb) && (**ba).equals(&**bb)
            },
            _ => false,
        }
    }
}

} // verus!
