//! Values in which every evaluated map holds each key once, and the copy
//! that makes a value so while keeping what it stands for.
use std::collections::VecDeque;
use vstd::prelude::*;
use vstd::std_specs::vecdeque::VecDequeAdditionalSpecFns;

use crate::assoc::{
    find_entry, has_key, lemma_assoc_contains, lemma_assoc_push, lemma_assoc_push_present, lemma_entries_absent,
    lemma_entries_first,
};
use crate::types::{
    distinct_keys, entries_map, entries_seq, entry_view, lemma_array_view, lemma_lambda_view,
    lemma_list_view, lemma_post_map_view, lemma_pre_map_view, pair_view, pairs_seq, result_view,
    seq_view, Atom, EvalResult, Expression, FunctionType, MapType,
};

verus! {

pub open spec fn all_true(s: Seq<bool>) -> bool {
    forall|i: int| 0 <= i < s.len() ==> #[trigger] s[i]
}

/// Every evaluated map inside `e` holds each key once.
pub open spec fn keys_once(e: Expression) -> bool
    decreases e,
{
    match e {
        Expression::List(v) => all_true(
            Seq::new(
                v@.len(),
                |i: int|
                    if 0 <= i < v@.len() {
                        keys_once(v[i])
                    } else {
                        true
                    },
            ),
        ),
        Expression::Array(v) => all_true(
            Seq::new(
                v@.len(),
                |i: int|
                    if 0 <= i < v@.len() {
                        keys_once(v@[i])
                    } else {
                        true
                    },
            ),
        ),
        Expression::Mapping(MapType::PreEvaluation(v)) => all_true(
            Seq::new(
                v@.len(),
                |i: int|
                    if 0 <= i < v@.len() {
                        keys_once(v@[i].0) && keys_once(v@[i].1)
                    } else {
                        true
                    },
            ),
        ),
        Expression::Mapping(MapType::PostEvaluation(v)) => distinct_keys(v@) && all_true(
            Seq::new(
                v@.len(),
                |i: int|
                    if 0 <= i < v@.len() {
                        keys_once(v@[i].1)
                    } else {
                        true
                    },
            ),
        ),
        Expression::Function(FunctionType::Lambda(params, body)) => all_true(
            Seq::new(
                params@.len(),
                |i: int|
                    if 0 <= i < params@.len() {
                        keys_once(params@[i])
                    } else {
                        true
                    },
            ),
        ) && keys_once(*body),
        _ => true,
    }
}

/// An outcome whose value, if any, holds each key of its maps once.
pub open spec fn result_keys_once(r: EvalResult<Expression>) -> bool {
    match r {
        Ok(e) => keys_once(e),
        Err(_) => true,
    }
}

proof fn lemma_keys_once_list(v: VecDeque<Expression>)
    requires
        forall|j: int| 0 <= j < v@.len() ==> keys_once(#[trigger] v@[j]),
    ensures
        keys_once(Expression::List(v)),
{
    let s = Seq::new(
        v@.len(),
        |i: int|
            if 0 <= i < v@.len() {
                keys_once(v[i])
            } else {
                true
            },
    );
    assert forall|i: int| 0 <= i < s.len() implies #[trigger] s[i] by {
        assert(keys_once(v@[i]));
    }
}

proof fn lemma_keys_once_array(v: Vec<Expression>)
    requires
        forall|j: int| 0 <= j < v@.len() ==> keys_once(#[trigger] v@[j]),
    ensures
        keys_once(Expression::Array(v)),
{
    let s = Seq::new(
        v@.len(),
        |i: int|
            if 0 <= i < v@.len() {
                keys_once(v@[i])
            } else {
                true
            },
    );
    assert forall|i: int| 0 <= i < s.len() implies #[trigger] s[i] by {
        assert(keys_once(v@[i]));
    }
}

proof fn lemma_keys_once_pre_map(v: Vec<(Expression, Expression)>)
    requires
        forall|j: int|
            0 <= j < v@.len() ==> keys_once((#[trigger] v@[j]).0) && keys_once(v@[j].1),
    ensures
        keys_once(Expression::Mapping(MapType::PreEvaluation(v))),
{
    let s = Seq::new(
        v@.len(),
        |i: int|
            if 0 <= i < v@.len() {
                keys_once(v@[i].0) && keys_once(v@[i].1)
            } else {
                true
            },
    );
    assert forall|i: int| 0 <= i < s.len() implies #[trigger] s[i] by {
        assert(keys_once(v@[i].0) && keys_once(v@[i].1));
    }
}

proof fn lemma_keys_once_post_map(v: Vec<(Atom, Expression)>)
    requires
        distinct_keys(v@),
        forall|j: int| 0 <= j < v@.len() ==> keys_once((#[trigger] v@[j]).1),
    ensures
        keys_once(Expression::Mapping(MapType::PostEvaluation(v))),
{
    let s = Seq::new(
        v@.len(),
        |i: int|
            if 0 <= i < v@.len() {
                keys_once(v@[i].1)
            } else {
                true
            },
    );
    assert forall|i: int| 0 <= i < s.len() implies #[trigger] s[i] by {
        assert(keys_once(v@[i].1));
    }
}

proof fn lemma_keys_once_lambda(params: Vec<Expression>, body: Box<Expression>)
    requires
        forall|j: int| 0 <= j < params@.len() ==> keys_once(#[trigger] params@[j]),
        keys_once(*body),
    ensures
        keys_once(Expression::Function(FunctionType::Lambda(params, body))),
{
    let s = Seq::new(
        params@.len(),
        |i: int|
            if 0 <= i < params@.len() {
                keys_once(params@[i])
            } else {
                true
            },
    );
    assert forall|i: int| 0 <= i < s.len() implies #[trigger] s[i] by {
        assert(keys_once(params@[i]));
    }
}

fn normalize_vec(v: &Vec<Expression>) -> (r: Vec<Expression>)
    ensures
        seq_view(r@) == seq_view(v@),
        forall|j: int| 0 <= j < r@.len() ==> keys_once(#[trigger] r@[j]),
    decreases v, 0nat,
{
    let mut r: Vec<Expression> = Vec::new();
    let mut i: usize = 0;
    while i < v.len()
        invariant
            i <= v.len(),
            r@.len() == i,
            forall|j: int| 0 <= j < i ==> (#[trigger] r@[j])@ == v@[j]@,
            forall|j: int| 0 <= j < i ==> keys_once(#[trigger] r@[j]),
        decreases v.len() - i,
    {
        r.push(normalize(&v[i]));
        i = i + 1;
    }
    assert(seq_view(r@) =~= seq_view(v@));
    r
}

fn normalize_deque(v: &VecDeque<Expression>) -> (r: VecDeque<Expression>)
    ensures
        seq_view(r@) == seq_view(v@),
        forall|j: int| 0 <= j < r@.len() ==> keys_once(#[trigger] r@[j]),
    decreases v, 0nat,
{
    let mut r: VecDeque<Expression> = VecDeque::new();
    let mut i: usize = 0;
    while i < v.len()
        invariant
            i <= v@.len(),
            r@.len() == i,
            forall|j: int| 0 <= j < i ==> (#[trigger] r@[j])@ == v@[j]@,
            forall|j: int| 0 <= j < i ==> keys_once(#[trigger] r@[j]),
        decreases v@.len() - i,
    {
        r.push_back(normalize(&v[i]));
        i = i + 1;
    }
    assert(seq_view(r@) =~= seq_view(v@));
    r
}

fn normalize_pairs(v: &Vec<(Expression, Expression)>) -> (r: Vec<(Expression, Expression)>)
    ensures
        pairs_seq(r@) == pairs_seq(v@),
        forall|j: int| 0 <= j < r@.len() ==> keys_once((#[trigger] r@[j]).0) && keys_once(r@[j].1),
    decreases v, 0nat,
{
    let mut r: Vec<(Expression, Expression)> = Vec::new();
    let mut i: usize = 0;
    while i < v.len()
        invariant
            i <= v@.len(),
            r@.len() == i,
            forall|j: int| 0 <= j < i ==> pair_view(#[trigger] r@[j]) == pair_view(v@[j]),
            forall|j: int| 0 <= j < i ==> keys_once((#[trigger] r@[j]).0) && keys_once(r@[j].1),
        decreases v@.len() - i,
    {
        let k = normalize(&v[i].0);
        let x = normalize(&v[i].1);
        r.push((k, x));
        i = i + 1;
    }
    assert(pairs_seq(r@) =~= pairs_seq(v@));
    r
}

/// The first entry of each key, in order, with normalized values.
fn normalize_entries(v: &Vec<(Atom, Expression)>) -> (r: Vec<(Atom, Expression)>)
    ensures
        entries_map(r@) == entries_map(v@),
        distinct_keys(r@),
        forall|j: int| 0 <= j < r@.len() ==> keys_once((#[trigger] r@[j]).1),
    decreases v, 0nat,
{
    let mut r: Vec<(Atom, Expression)> = Vec::new();
    let mut i: usize = 0;
    assert(entries_seq(v@.take(0)) =~= entries_seq(r@));
    while i < v.len()
        invariant
            i <= v@.len(),
            entries_map(r@) == entries_map(v@.take(i as int)),
            distinct_keys(r@),
            forall|j: int| 0 <= j < r@.len() ==> keys_once((#[trigger] r@[j]).1),
        decreases v@.len() - i,
    {
        let ghost before = r@;
        let ghost t = entries_seq(v@.take(i as int));
        let ghost kv = v@[i as int].0@;
        let ghost xv = v@[i as int].1@;
        proof {
            assert(entries_seq(v@.take(i + 1)) =~= t.push((kv, xv)));
        }
        match find_entry(&r, &v[i].0) {
            Some(ib) => {
                proof {
                    lemma_entries_first(r@, kv, ib as int);
                    lemma_assoc_contains(t, kv);
                    lemma_assoc_push_present(t, kv, xv);
                }
            },
            None => {
                let k = v[i].0.copy();
                let x = normalize(&v[i].1);
                r.push((k, x));
                proof {
                    lemma_entries_absent(before, kv);
                    lemma_assoc_contains(t, kv);
                    assert forall|j: int| 0 <= j < t.len() implies #[trigger] t[j].0 != kv by {
                        if t[j].0 == kv {
                            assert(has_key(t, kv));
                        }
                    }
                    lemma_assoc_push(t, kv, xv);
                    let bs = entries_seq(before);
                    assert forall|j: int| 0 <= j < bs.len() implies #[trigger] bs[j].0 != kv by {
                        assert(bs[j].0 == before[j].0@);
                    }
                    lemma_assoc_push(bs, kv, xv);
                    assert(entries_seq(r@) =~= bs.push((kv, xv)));
                    assert forall|a: int, b: int| 0 <= a < b < r@.len() implies r@[a].0@ != r@[b].0@ by {
                        if b < before.len() {
                            assert(r@[a] == before[a] && r@[b] == before[b]);
                        } else {
                            assert(r@[a] == before[a]);
                        }
                    }
                }
            },
        }
        i = i + 1;
    }
    assert(v@.take(v@.len() as int) =~= v@);
    r
}

/// A copy of the value in which each evaluated map keeps only the first
/// entry of each key: the same value, with each key of a map held once.
pub fn normalize(e: &Expression) -> (r: Expression)
    ensures
        r@ == e@,
        keys_once(r),
    decreases e, 1nat,
{
    match e {
        Expression::At(a) => Expression::At(a.copy()),
        Expression::List(v) => {
            let r = normalize_deque(v);
            proof {
                lemma_list_view(*v);
                lemma_list_view(r);
                lemma_keys_once_list(r);
            }
            Expression::List(r)
        },
        Expression::Array(v) => {
            let r = normalize_vec(v);
            proof {
                lemma_array_view(*v);
                lemma_array_view(r);
                lemma_keys_once_array(r);
            }
            Expression::Array(r)
        },
        Expression::Mapping(MapType::PreEvaluation(v)) => {
            let r = normalize_pairs(v);
            proof {
                lemma_pre_map_view(*v);
                lemma_pre_map_view(r);
                lemma_keys_once_pre_map(r);
            }
            Expression::Mapping(MapType::PreEvaluation(r))
        },
        Expression::Mapping(MapType::PostEvaluation(v)) => {
            let r = normalize_entries(v);
            proof {
                lemma_post_map_view(*v);
                lemma_post_map_view(r);
                lemma_keys_once_post_map(r);
            }
            Expression::Mapping(MapType::PostEvaluation(r))
        },
        Expression::SpecialForm(f) => Expression::SpecialForm(*f),
        Expression::Function(FunctionType::BuiltIn(b)) => Expression::Function(
            FunctionType::BuiltIn(*b),
        ),
        Expression::Function(FunctionType::Lambda(params, body)) => {
            let p = normalize_vec(params);
            let b = normalize(&**body);
            proof {
                lemma_lambda_view(*params, *body);
                lemma_lambda_view(p, Box::new(b));
                lemma_keys_once_lambda(p, Box::new(b));
            }
            Expression::Function(FunctionType::Lambda(p, Box::new(b)))
        },
    }
}

/// The outcome with its value normalized.
pub fn normalize_result(r: &EvalResult<Expression>) -> (s: EvalResult<Expression>)
    ensures
        result_view(s) == result_view(*r),
        result_keys_once(s),
{
    match r {
        Ok(e) => Ok(normalize(e)),
        Err(err) => Err(err.copy()),
    }
}

} // verus!
