//! Helpers over sequences of results and of forms.
use vstd::prelude::*;

use crate::types::{EvalResult, EvaluationError};

verus! {

/// Every outcome in `s` is a success.
pub open spec fn all_ok<E, P>(s: Seq<Result<E, P>>) -> bool {
    forall|i: int| 0 <= i < s.len() ==> (#[trigger] s[i]) is Ok
}

/// The values of a sequence of successes.
pub open spec fn ok_values<E, P>(s: Seq<Result<E, P>>) -> Seq<E> {
    s.map_values(|r: Result<E, P>| r->Ok_0)
}

/// Entry `i` is the first failure of `s`.
pub open spec fn first_err_at<E, P>(s: Seq<Result<E, P>>, i: int) -> bool {
    &&& 0 <= i < s.len()
    &&& s[i] is Err
    &&& forall|j: int| 0 <= j < i ==> (#[trigger] s[j]) is Ok
}

/// The values of all the outcomes if each is a success, else the first failure.
pub fn map_m<Expected, PossibleError>(maybes: Vec<Result<Expected, PossibleError>>) -> (r: Result<
    Vec<Expected>,
    PossibleError,
>)
    ensures
        match r {
            Ok(v) => all_ok(maybes@) && v@ == ok_values(maybes@),
            Err(e) => exists|i: int| first_err_at(maybes@, i) && maybes@[i] == Err::<Expected, PossibleError>(e),
        },
{
    let ghost orig = maybes@;
    let mut to_return: Vec<Expected> = Vec::new();
    let mut rest = maybes;
    let ghost n = orig.len();
    while rest.len() > 0
        invariant
            n == orig.len(),
            orig == maybes@,
            rest@ == orig.skip(n - rest@.len()),
            to_return@.len() == n - rest@.len(),
            forall|j: int| 0 <= j < n - rest@.len() ==> (#[trigger] orig[j]) is Ok,
            to_return@ == ok_values(orig).take(n - rest@.len()),
        decreases rest@.len(),
    {
        let ghost i = n - rest@.len();
        let ghost before = rest@;
        let maybe_err = rest.remove(0);
        proof {
            assert(before[0] == orig[i]);
            assert(rest@ =~= orig.skip(n - rest@.len()));
        }
        match maybe_err {
            Err(err) => {
                proof {
                    assert(first_err_at(orig, i));
                    assert(orig[i] == Err::<Expected, PossibleError>(err));
                }
                return Err(err);
            },
            Ok(ok) => {
                to_return.push(ok);
                proof {
                    assert(to_return@ =~= ok_values(orig).take(n - rest@.len()));
                }
            },
        }
    }
    proof {
        assert(to_return@ =~= ok_values(orig));
    }
    Ok(to_return)
}

/// The consecutive pairs of an even sequence.
pub open spec fn pairs_of<T>(s: Seq<T>) -> Seq<(T, T)> {
    Seq::new(s.len() / 2, |i: int| (s[2 * i], s[2 * i + 1]))
}

/// Groups the forms two by two; fails on an odd number of forms.
pub fn tuple_even_vector<T>(to_tuple: Vec<T>) -> (r: EvalResult<Vec<(T, T)>>)
    ensures
        match r {
            Ok(v) => to_tuple@.len() % 2 == 0 && v@ == pairs_of(to_tuple@),
            Err(e) => to_tuple@.len() % 2 == 1 && e@ == crate::types::ErrorV::MustHaveEvenNumberOfForms(
                "let binding"@,
            ),
        },
{
    let ghost orig = to_tuple@;
    let ghost n = orig.len();
    let mut ret: Vec<(T, T)> = Vec::new();
    let mut intermediate_tuple: Option<T> = None;
    let mut rest = to_tuple;
    while rest.len() > 0
        invariant
            n == orig.len(),
            rest@.len() <= n,
            rest@ == orig.skip(n - rest@.len()),
            (n - rest@.len()) % 2 == 0 <==> intermediate_tuple is None,
            intermediate_tuple matches Some(x) ==> x == orig[n - rest@.len() - 1],
            ret@ == pairs_of(orig.take(n - rest@.len())),
        decreases rest@.len(),
    {
        let ghost i = n - rest@.len();
        let ghost before = rest@;
        let half_binding = rest.remove(0);
        proof {
            assert(before[0] == orig[i]);
            assert(rest@ =~= orig.skip(n - rest@.len()));
        }
        match intermediate_tuple {
            Some(let1) => {
                ret.push((let1, half_binding));
                intermediate_tuple = None;
                proof {
                    assert(ret@ =~= pairs_of(orig.take(i + 1)));
                }
            },
            None => {
                intermediate_tuple = Some(half_binding);
                proof {
                    assert(pairs_of(orig.take(i)) =~= pairs_of(orig.take(i + 1)));
                }
            },
        }
    }
    proof {
        assert(orig.take(n as int) =~= orig);
    }
    match intermediate_tuple {
        Some(_) => Err(EvaluationError::MustHaveEvenNumberOfForms("let binding".to_owned())),
        None => Ok(ret),
    }
}

/// The values of all the outcomes if each is a success, else the first failure.
pub open spec fn collect<E, P>(s: Seq<Result<E, P>>) -> Result<Seq<E>, P>
    decreases s.len(),
{
    if s.len() == 0 {
        Ok(Seq::empty())
    } else {
        match s[0] {
            Err(e) => Err(e),
            Ok(v) => match collect(s.drop_first()) {
                Ok(vs) => Ok(seq![v] + vs),
                Err(e) => Err(e),
            },
        }
    }
}

/// `collect` of successes gives their values.
pub proof fn lemma_collect_ok<E, P>(s: Seq<Result<E, P>>)
    requires
        all_ok(s),
    ensures
        collect(s) == Ok::<Seq<E>, P>(ok_values(s)),
    decreases s.len(),
{
    if s.len() > 0 {
        let t = s.drop_first();
        assert forall|i: int| 0 <= i < t.len() implies (#[trigger] t[i]) is Ok by {
            assert(t[i] == s[i + 1]);
        }
        lemma_collect_ok(t);
        assert(s[0] is Ok);
        assert(ok_values(s) =~= seq![s[0]->Ok_0] + ok_values(t));
    } else {
        assert(ok_values(s) =~= Seq::<E>::empty());
    }
}

/// `collect` gives the first failure.
pub proof fn lemma_collect_err<E, P>(s: Seq<Result<E, P>>, i: int)
    requires
        first_err_at(s, i),
    ensures
        collect(s) == Err::<Seq<E>, P>(s[i]->Err_0),
    decreases s.len(),
{
    if i > 0 {
        let t = s.drop_first();
        assert forall|j: int| 0 <= j < i - 1 implies (#[trigger] t[j]) is Ok by {
            assert(t[j] == s[j + 1]);
        }
        lemma_collect_err(t, i - 1);
    }
}

} // verus!
