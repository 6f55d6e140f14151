//! Association lists: sequences of (key, value) entries read as maps in
//! which the first entry of a key wins.
use vstd::prelude::*;

use crate::types::{distinct_keys, entry_view, entries_map, entries_seq, frame_map, frame_seq, names_map, names_seq, Atom, AtomV, ExprV, Expression};

verus! {

/// The map that an association list stands for: the first entry of a key wins.
pub open spec fn assoc_map<K, V>(s: Seq<(K, V)>) -> Map<K, V>
    decreases s.len(),
{
    if s.len() == 0 {
        Map::empty()
    } else {
        assoc_map(s.drop_first()).insert(s[0].0, s[0].1)
    }
}

/// The entries whose key is not `k`, in order.
pub open spec fn without_key<K, V>(s: Seq<(K, V)>, k: K) -> Seq<(K, V)>
    decreases s.len(),
{
    if s.len() == 0 {
        s
    } else if s[0].0 == k {
        without_key(s.drop_first(), k)
    } else {
        seq![s[0]] + without_key(s.drop_first(), k)
    }
}

/// Some entry has key `k`.
pub open spec fn has_key<K, V>(s: Seq<(K, V)>, k: K) -> bool {
    exists|i: int| 0 <= i < s.len() && #[trigger] s[i].0 == k
}

/// Entry `i` is the first entry with key `k`.
pub open spec fn first_key_at<K, V>(s: Seq<(K, V)>, k: K, i: int) -> bool {
    &&& 0 <= i < s.len()
    &&& s[i].0 == k
    &&& forall|j: int| 0 <= j < i ==> #[trigger] s[j].0 != k
}

/// The map has key `k` exactly when some entry has it.
pub proof fn lemma_assoc_contains<K, V>(s: Seq<(K, V)>, k: K)
    ensures
        assoc_map(s).contains_key(k) == has_key(s, k),
    decreases s.len(),
{
    if s.len() > 0 {
        lemma_assoc_contains(s.drop_first(), k);
        if has_key(s.drop_first(), k) {
            let i = choose|i: int| 0 <= i < s.drop_first().len() && #[trigger] s.drop_first()[i].0 == k;
            assert(s[i + 1].0 == k);
        }
        if has_key(s, k) && s[0].0 != k {
            let i = choose|i: int| 0 <= i < s.len() && #[trigger] s[i].0 == k;
            assert(s.drop_first()[i - 1].0 == k);
        }
        if s[0].0 == k {
            assert(s[0].0 == k);
        }
    }
}

/// The value of key `k` is that of its first entry.
pub proof fn lemma_assoc_first<K, V>(s: Seq<(K, V)>, k: K, i: int)
    requires
        first_key_at(s, k, i),
    ensures
        assoc_map(s).contains_key(k),
        assoc_map(s)[k] == s[i].1,
    decreases s.len(),
{
    if i > 0 {
        assert(s[0].0 != k);
        let t = s.drop_first();
        assert forall|j: int| 0 <= j < i - 1 implies #[trigger] t[j].0 != k by {
            assert(s[j + 1].0 != k);
        }
        lemma_assoc_first(t, k, i - 1);
    }
}

/// An association list without an entry for `k` stands for a map without `k`.
pub proof fn lemma_assoc_absent<K, V>(s: Seq<(K, V)>, k: K)
    requires
        forall|j: int| 0 <= j < s.len() ==> #[trigger] s[j].0 != k,
    ensures
        !assoc_map(s).contains_key(k),
{
    lemma_assoc_contains(s, k);
}

/// Replacing the first entry of `k` sets the value of `k`.
pub proof fn lemma_assoc_update<K, V>(s: Seq<(K, V)>, k: K, i: int, v: V)
    requires
        first_key_at(s, k, i),
    ensures
        assoc_map(s.update(i, (k, v))) == assoc_map(s).insert(k, v),
    decreases s.len(),
{
    let u = s.update(i, (k, v));
    if i == 0 {
        assert(u.drop_first() =~= s.drop_first());
        assert(assoc_map(u) =~= assoc_map(s).insert(k, v));
    } else {
        let t = s.drop_first();
        assert forall|j: int| 0 <= j < i - 1 implies #[trigger] t[j].0 != k by {
            assert(s[j + 1].0 != k);
        }
        lemma_assoc_update(t, k, i - 1, v);
        assert(u.drop_first() =~= t.update(i - 1, (k, v)));
        assert(s[0].0 != k);
        assert(assoc_map(u) =~= assoc_map(s).insert(k, v));
    }
}

/// Appending an entry for an absent key sets its value.
pub proof fn lemma_assoc_push<K, V>(s: Seq<(K, V)>, k: K, v: V)
    requires
        forall|j: int| 0 <= j < s.len() ==> #[trigger] s[j].0 != k,
    ensures
        assoc_map(s.push((k, v))) == assoc_map(s).insert(k, v),
    decreases s.len(),
{
    let p = s.push((k, v));
    if s.len() == 0 {
        assert(p.drop_first() =~= Seq::<(K, V)>::empty());
        assert(assoc_map(p.drop_first()) == Map::<K, V>::empty());
        assert(p[0] == (k, v));
        assert(assoc_map(p) =~= assoc_map(s).insert(k, v));
    } else {
        let t = s.drop_first();
        assert forall|j: int| 0 <= j < t.len() implies #[trigger] t[j].0 != k by {
            assert(s[j + 1].0 != k);
        }
        lemma_assoc_push(t, k, v);
        assert(p.drop_first() =~= t.push((k, v)));
        assert(s[0].0 != k);
        assert(assoc_map(p) =~= assoc_map(s).insert(k, v));
    }
}

/// Appending an entry for a key that is already there changes nothing.
pub proof fn lemma_assoc_push_present<K, V>(s: Seq<(K, V)>, k: K, v: V)
    requires
        has_key(s, k),
    ensures
        assoc_map(s.push((k, v))) == assoc_map(s),
    decreases s.len(),
{
    let p = s.push((k, v));
    let t = s.drop_first();
    assert(p.drop_first() =~= t.push((k, v)));
    assert(p[0] == s[0]);
    if s[0].0 == k {
        if has_key(t, k) {
            lemma_assoc_push_present(t, k, v);
        } else {
            assert forall|j: int| 0 <= j < t.len() implies #[trigger] t[j].0 != k by {
                if t[j].0 == k {
                    assert(has_key(t, k));
                }
            }
            lemma_assoc_push(t, k, v);
        }
        assert(assoc_map(p) =~= assoc_map(s));
    } else {
        let i = choose|i: int| 0 <= i < s.len() && #[trigger] s[i].0 == k;
        assert(t[i - 1].0 == k);
        lemma_assoc_push_present(t, k, v);
        assert(assoc_map(p) =~= assoc_map(s));
    }
}

/// Dropping every entry of `k` removes `k` from the map.
pub proof fn lemma_assoc_without<K, V>(s: Seq<(K, V)>, k: K)
    ensures
        assoc_map(without_key(s, k)) == assoc_map(s).remove(k),
    decreases s.len(),
{
    if s.len() == 0 {
        assert(assoc_map(s).remove(k) =~= Map::empty());
    } else {
        lemma_assoc_without(s.drop_first(), k);
        if s[0].0 == k {
            assert(assoc_map(s).remove(k) =~= assoc_map(s.drop_first()).remove(k));
        } else {
            let w = seq![s[0]] + without_key(s.drop_first(), k);
            assert(w.drop_first() =~= without_key(s.drop_first(), k));
            assert(assoc_map(w) =~= assoc_map(s).remove(k));
        }
    }
}

/// One step of `without_key` from position `i`.
pub proof fn lemma_without_step<K, V>(s: Seq<(K, V)>, k: K, i: int)
    requires
        0 <= i < s.len(),
    ensures
        without_key(s.skip(i), k) == (if s[i].0 == k {
            without_key(s.skip(i + 1), k)
        } else {
            seq![s[i]] + without_key(s.skip(i + 1), k)
        }),
{
    assert(s.skip(i).drop_first() =~= s.skip(i + 1));
    assert(s.skip(i)[0] == s[i]);
}

/// The first entry of key `k` gives the value of `k`.
pub proof fn lemma_entries_first(s: Seq<(Atom, Expression)>, k: AtomV, i: int)
    requires
        0 <= i < s.len(),
        s[i].0@ == k,
        forall|j: int| 0 <= j < i ==> (#[trigger] s[j]).0@ != k,
    ensures
        entries_map(s).contains_key(k),
        entries_map(s)[k] == s[i].1@,
{
    let m = entries_seq(s);
    assert forall|j: int| 0 <= j < i implies #[trigger] m[j].0 != k by {
        assert(m[j].0 == s[j].0@);
    }
    lemma_assoc_first(m, k, i);
}

/// A key that no entry has is not in the map.
pub proof fn lemma_entries_absent(s: Seq<(Atom, Expression)>, k: AtomV)
    requires
        forall|j: int| 0 <= j < s.len() ==> (#[trigger] s[j]).0@ != k,
    ensures
        !entries_map(s).contains_key(k),
{
    let m = entries_seq(s);
    assert forall|j: int| 0 <= j < m.len() implies #[trigger] m[j].0 != k by {
        assert(m[j].0 == s[j].0@);
    }
    lemma_assoc_absent(m, k);
}

/// A key of the map is the key of some entry.
pub proof fn lemma_entries_has(s: Seq<(Atom, Expression)>, k: AtomV) -> (i: int)
    requires
        entries_map(s).contains_key(k),
    ensures
        0 <= i < s.len(),
        s[i].0@ == k,
{
    let m = entries_seq(s);
    lemma_assoc_contains(m, k);
    let i = choose|i: int| 0 <= i < m.len() && #[trigger] m[i].0 == k;
    assert(m[i].0 == s[i].0@);
    i
}

/// The index of the first entry named `k`, if any.
pub fn find_name<V>(s: &Vec<(String, V)>, k: &String) -> (r: Option<usize>)
    ensures
        match r {
            Some(i) => {
                &&& i < s@.len()
                &&& s@[i as int].0@ == k@
                &&& forall|j: int| 0 <= j < i ==> (#[trigger] s@[j]).0@ != k@
            },
            None => forall|j: int| 0 <= j < s@.len() ==> (#[trigger] s@[j]).0@ != k@,
        },
{
    let mut i: usize = 0;
    while i < s.len()
        invariant
            i <= s@.len(),
            forall|j: int| 0 <= j < i ==> (#[trigger] s@[j]).0@ != k@,
        decreases s@.len() - i,
    {
        if s[i].0 == *k {
            return Some(i);
        }
        i = i + 1;
    }
    None
}

/// The value that a table of names gives `k`.
pub fn lookup_name<V: Copy>(s: &Vec<(String, V)>, k: &String) -> (r: Option<V>)
    ensures
        r == (if names_map(s@).contains_key(k@) {
            Some(names_map(s@)[k@])
        } else {
            None::<V>
        }),
{
    let ghost m = names_seq(s@);
    match find_name(s, k) {
        Some(i) => {
            proof {
                assert forall|j: int| 0 <= j < i implies #[trigger] m[j].0 != k@ by {
                    assert(m[j].0 == s@[j].0@);
                }
                lemma_assoc_first(m, k@, i as int);
            }
            Some(s[i].1)
        },
        None => {
            proof {
                assert forall|j: int| 0 <= j < m.len() implies #[trigger] m[j].0 != k@ by {
                    assert(m[j].0 == s@[j].0@);
                }
                lemma_assoc_absent(m, k@);
            }
            None
        },
    }
}

/// A copy of the value that a frame gives `k`.
pub fn lookup_var(s: &Vec<(String, Expression)>, k: &String) -> (r: Option<Expression>)
    ensures
        match r {
            Some(e) => frame_map(s@).contains_key(k@) && e@ == frame_map(s@)[k@],
            None => !frame_map(s@).contains_key(k@),
        },
{
    let ghost m = frame_seq(s@);
    match find_name(s, k) {
        Some(i) => {
            proof {
                assert forall|j: int| 0 <= j < i implies #[trigger] m[j].0 != k@ by {
                    assert(m[j].0 == s@[j].0@);
                }
                lemma_assoc_first(m, k@, i as int);
            }
            Some(s[i].1.copy())
        },
        None => {
            proof {
                assert forall|j: int| 0 <= j < m.len() implies #[trigger] m[j].0 != k@ by {
                    assert(m[j].0 == s@[j].0@);
                }
                lemma_assoc_absent(m, k@);
            }
            None
        },
    }
}

/// Sets the value of `k` in a frame: the first entry of `k` is replaced, or
/// an entry is appended.
pub fn insert_var(s: &mut Vec<(String, Expression)>, k: String, v: Expression)
    ensures
        frame_map(final(s)@) == frame_map(old(s)@).insert(k@, v@),
{
    let ghost kv = k@;
    let ghost vv = v@;
    let ghost m = frame_seq(old(s)@);
    match find_name(s, &k) {
        Some(i) => {
            proof {
                assert forall|j: int| 0 <= j < i implies #[trigger] m[j].0 != kv by {
                    assert(m[j].0 == old(s)@[j].0@);
                }
                lemma_assoc_update(m, kv, i as int, vv);
            }
            s.set(i, (k, v));
            proof {
                assert(frame_seq(s@) =~= m.update(i as int, (kv, vv)));
            }
        },
        None => {
            proof {
                assert forall|j: int| 0 <= j < m.len() implies #[trigger] m[j].0 != kv by {
                    assert(m[j].0 == old(s)@[j].0@);
                }
                lemma_assoc_push(m, kv, vv);
            }
            s.push((k, v));
            proof {
                assert(frame_seq(s@) =~= m.push((kv, vv)));
            }
        },
    }
}

/// Sets the value of name `k` in a table.
pub fn insert_name<V>(s: &mut Vec<(String, V)>, k: String, v: V)
    ensures
        names_map(final(s)@) == names_map(old(s)@).insert(k@, v),
{
    let ghost kv = k@;
    let ghost vv = v;
    let ghost m = names_seq(old(s)@);
    match find_name(s, &k) {
        Some(i) => {
            proof {
                assert forall|j: int| 0 <= j < i implies #[trigger] m[j].0 != kv by {
                    assert(m[j].0 == old(s)@[j].0@);
                }
                lemma_assoc_update(m, kv, i as int, vv);
            }
            s.set(i, (k, v));
            proof {
                assert(names_seq(s@) =~= m.update(i as int, (kv, vv)));
            }
        },
        None => {
            proof {
                assert forall|j: int| 0 <= j < m.len() implies #[trigger] m[j].0 != kv by {
                    assert(m[j].0 == old(s)@[j].0@);
                }
                lemma_assoc_push(m, kv, vv);
            }
            s.push((k, v));
            proof {
                assert(names_seq(s@) =~= m.push((kv, vv)));
            }
        },
    }
}

/// The index of the first entry whose key is `k`, if any.
pub fn find_entry(s: &Vec<(Atom, Expression)>, k: &Atom) -> (r: Option<usize>)
    ensures
        match r {
            Some(i) => {
                &&& i < s@.len()
                &&& s@[i as int].0@ == k@
                &&& forall|j: int| 0 <= j < i ==> (#[trigger] s@[j]).0@ != k@
            },
            None => forall|j: int| 0 <= j < s@.len() ==> (#[trigger] s@[j]).0@ != k@,
        },
{
    let mut i: usize = 0;
    while i < s.len()
        invariant
            i <= s@.len(),
            forall|j: int| 0 <= j < i ==> (#[trigger] s@[j]).0@ != k@,
        decreases s@.len() - i,
    {
        if s[i].0.equals(k) {
            return Some(i);
        }
        i = i + 1;
    }
    None
}

/// A copy of the value of key `k` in an evaluated map.
pub fn lookup_entry(s: &Vec<(Atom, Expression)>, k: &Atom) -> (r: Option<Expression>)
    ensures
        match r {
            Some(e) => entries_map(s@).contains_key(k@) && e@ == entries_map(s@)[k@],
            None => !entries_map(s@).contains_key(k@),
        },
{
    let ghost m = entries_seq(s@);
    match find_entry(s, k) {
        Some(i) => {
            proof {
                assert forall|j: int| 0 <= j < i implies #[trigger] m[j].0 != k@ by {
                    assert(m[j].0 == s@[j].0@);
                }
                lemma_assoc_first(m, k@, i as int);
            }
            Some(s[i].1.copy())
        },
        None => {
            proof {
                assert forall|j: int| 0 <= j < m.len() implies #[trigger] m[j].0 != k@ by {
                    assert(m[j].0 == s@[j].0@);
                }
                lemma_assoc_absent(m, k@);
            }
            None
        },
    }
}

/// Sets the value of `k` in an evaluated map.
pub fn insert_entry(s: &mut Vec<(Atom, Expression)>, k: Atom, v: Expression)
    ensures
        entries_map(final(s)@) == entries_map(old(s)@).insert(k@, v@),
        distinct_keys(old(s)@) ==> distinct_keys(final(s)@),
{
    let ghost kv = k@;
    let ghost vv = v@;
    let ghost m = entries_seq(old(s)@);
    match find_entry(s, &k) {
        Some(i) => {
            proof {
                assert forall|j: int| 0 <= j < i implies #[trigger] m[j].0 != kv by {
                    assert(m[j].0 == old(s)@[j].0@);
                }
                lemma_assoc_update(m, kv, i as int, vv);
            }
            s.set(i, (k, v));
            proof {
                assert(entries_seq(s@) =~= m.update(i as int, (kv, vv)));
                assert forall|j: int| 0 <= j < s@.len() implies #[trigger] s@[j].0@ == old(
                    s,
                )@[j].0@ by {}
            }
        },
        None => {
            proof {
                assert forall|j: int| 0 <= j < m.len() implies #[trigger] m[j].0 != kv by {
                    assert(m[j].0 == old(s)@[j].0@);
                }
                lemma_assoc_push(m, kv, vv);
            }
            s.push((k, v));
            proof {
                assert(entries_seq(s@) =~= m.push((kv, vv)));
                assert forall|j: int| 0 <= j < old(s)@.len() implies #[trigger] s@[j] == old(
                    s,
                )@[j] by {}
            }
        },
    }
}

/// The entries of an evaluated map without key `k`.
pub fn remove_entry(s: Vec<(Atom, Expression)>, k: &Atom) -> (r: Vec<(Atom, Expression)>)
    ensures
        entries_map(r@) == entries_map(s@).remove(k@),
        distinct_keys(s@) ==> distinct_keys(r@),
{
    let ghost m = entries_seq(s@);
    let ghost kv = k@;
    let ghost distinct = distinct_keys(s@);
    let mut r: Vec<(Atom, Expression)> = Vec::new();
    let mut rest = s;
    let ghost n = m.len();
    assert(m.skip(0) =~= m);
    while rest.len() > 0
        invariant
            n == m.len(),
            kv == k@,
            rest@.len() <= n,
            entries_seq(rest@) == m.skip(n - rest@.len()),
            without_key(m, kv) == entries_seq(r@) + without_key(m.skip(n - rest@.len()), kv),
            distinct == distinct_keys(s@),
            distinct ==> distinct_keys(r@) && distinct_keys(rest@),
            distinct ==> forall|a: int, c: int|
                0 <= a < r@.len() && 0 <= c < rest@.len() ==> #[trigger] r@[a].0@ != #[trigger] rest@[c].0@,
        decreases rest@.len(),
    {
        let ghost i = n - rest@.len();
        let ghost before = entries_seq(r@);
        let ghost before_rest = rest@;
        let p = rest.remove(0);
        proof {
            lemma_without_step(m, kv, i);
            assert(entries_seq(before_rest)[0] == m[i]);
            assert(crate::types::entry_view(p) == m[i]);
            assert forall|j: int| 0 <= j < rest@.len() implies #[trigger] entries_seq(rest@)[j]
                == m.skip(n - rest@.len())[j] by {
                assert(rest@[j] == before_rest[j + 1]);
                assert(entries_seq(before_rest)[j + 1] == m.skip(i)[j + 1]);
            }
            assert(entries_seq(rest@) =~= m.skip(n - rest@.len()));
        }
        proof {
            assert forall|c: int| 0 <= c < rest@.len() implies #[trigger] rest@[c] == before_rest[c
                + 1] by {}
        }
        let same = p.0.equals(k);
        if !same {
            r.push(p);
            proof {
                assert(entries_seq(r@) =~= before + seq![m[i]]);
                assert(before + (seq![m[i]] + without_key(m.skip(i + 1), kv)) =~= (before + seq![
                    m[i],
                ]) + without_key(m.skip(i + 1), kv));
            }
        } else {
            proof {
                assert(m[i].0 == kv);
            }
        }
        proof {
            assert(n - rest@.len() == i + 1);
        }
    }
    proof {
        assert(m.skip(n as int) =~= Seq::<(AtomV, ExprV)>::empty());
        assert(entries_seq(r@) + without_key(m.skip(n as int), kv) =~= entries_seq(r@));
        lemma_assoc_without(m, kv);
    }
    r
}

} // verus!
