//! Properties of the library that relate several operations or hold of
//! every input.
use vstd::prelude::*;
use vstd::utf8::{decode_utf8, pop_first_scalar, valid_utf8};

use crate::built_in::{
    assoc_spec, compare_spec, dissoc_spec, eq_spec, get_spec, int_value, mul_fold, neg_spec,
    sum_fold,
};
use crate::eval::{
    bind_atoms_spec, bind_symbols_spec, call_function_spec, call_special_form_spec, def_spec,
    eval_all_spec, eval_list_spec, eval_spec, if_spec, let_spec, lookup_symbol_spec,
    lookup_vars_spec, zip_spec, Frames, MAX_DEPTH,
};
use crate::parser::{
    digits_end, false_text, has_text_at, is_symbol_byte, nil_text, symbol_end, true_text,
    ParseError, lemma_spaces_end, parse_atom_spec, parse_bool_spec, parse_bracket_spec, parse_char_spec,
    parse_expr_spec, parse_nil_spec, parse_num_spec, parse_string_spec, parse_symbol_spec,
    spaces_end, Bracket,
};
use crate::driver::eval_forms_env;
use crate::types::{AtomV, EnvV, ErrorV, ExprV, SpecialForm};
use crate::util::{collect, pairs_of};

verus! {

/// Reading a key of a map after `assoc` gives the value that was written.
pub proof fn law_get_after_assoc(m: Map<AtomV, ExprV>, k: AtomV, v: ExprV)
    ensures
        assoc_spec(seq![ExprV::PostMap(m), ExprV::At(k), v]) == Ok::<ExprV, ErrorV>(
            ExprV::PostMap(m.insert(k, v)),
        ),
        get_spec(seq![ExprV::PostMap(m.insert(k, v)), ExprV::At(k)]) == Ok::<ExprV, ErrorV>(v),
{
}

/// Writing one key with `assoc` leaves what `get` reads of every other key.
pub proof fn law_assoc_keeps_other_keys(m: Map<AtomV, ExprV>, k: AtomV, v: ExprV, other: AtomV)
    requires
        other != k,
    ensures
        get_spec(seq![ExprV::PostMap(m.insert(k, v)), ExprV::At(other)]) == get_spec(
            seq![ExprV::PostMap(m), ExprV::At(other)],
        ),
{
}

/// After `dissoc` of a key, `get` of that key gives nil.
pub proof fn law_get_after_dissoc(m: Map<AtomV, ExprV>, k: AtomV)
    ensures
        dissoc_spec(seq![ExprV::PostMap(m), ExprV::At(k)]) == Ok::<ExprV, ErrorV>(
            ExprV::PostMap(m.remove(k)),
        ),
        get_spec(seq![ExprV::PostMap(m.remove(k)), ExprV::At(k)]) == Ok::<ExprV, ErrorV>(
            ExprV::At(AtomV::Nil),
        ),
{
}

/// `dissoc` undoes `assoc` of a key that the map did not have.
pub proof fn law_dissoc_undoes_assoc(m: Map<AtomV, ExprV>, k: AtomV, v: ExprV)
    requires
        !m.contains_key(k),
    ensures
        m.insert(k, v).remove(k) == m,
{
    assert(m.insert(k, v).remove(k) =~= m);
}

/// Every value equals itself, and equality is symmetric.
pub proof fn law_eq_reflexive_symmetric(x: ExprV, y: ExprV)
    ensures
        eq_spec(seq![x, x]) == Ok::<ExprV, ErrorV>(ExprV::At(AtomV::Bool(true))),
        eq_spec(seq![x, y]) == eq_spec(seq![y, x]),
{
}

/// `<` is a strict order: never `x < x`, and never both `x < y` and `y < x`.
pub proof fn law_compare_strict(x: i64, y: i64)
    ensures
        compare_spec(seq![ExprV::At(AtomV::Int(x)), ExprV::At(AtomV::Int(x))]) == Ok::<
            ExprV,
            ErrorV,
        >(ExprV::At(AtomV::Bool(false))),
        compare_spec(seq![ExprV::At(AtomV::Int(x)), ExprV::At(AtomV::Int(y))]) == Ok::<
            ExprV,
            ErrorV,
        >(ExprV::At(AtomV::Bool(true))) ==> compare_spec(
            seq![ExprV::At(AtomV::Int(y)), ExprV::At(AtomV::Int(x))],
        ) == Ok::<ExprV, ErrorV>(ExprV::At(AtomV::Bool(false))),
{
}

/// `<` on integers is their order: an integer is below its successor, every
/// negative integer is below every other one, and `<` is transitive.
pub proof fn law_compare_integer_order(x: i64, y: i64, z: i64)
    ensures
        y == x + 1 ==> compare_spec(seq![ExprV::At(AtomV::Int(x)), ExprV::At(AtomV::Int(y))])
            == Ok::<ExprV, ErrorV>(ExprV::At(AtomV::Bool(true))),
        x < 0 <= y ==> compare_spec(seq![ExprV::At(AtomV::Int(x)), ExprV::At(AtomV::Int(y))])
            == Ok::<ExprV, ErrorV>(ExprV::At(AtomV::Bool(true))),
        compare_spec(seq![ExprV::At(AtomV::Int(x)), ExprV::At(AtomV::Int(y))]) == Ok::<
            ExprV,
            ErrorV,
        >(ExprV::At(AtomV::Bool(true))) && compare_spec(
            seq![ExprV::At(AtomV::Int(y)), ExprV::At(AtomV::Int(z))],
        ) == Ok::<ExprV, ErrorV>(ExprV::At(AtomV::Bool(true))) ==> compare_spec(
            seq![ExprV::At(AtomV::Int(x)), ExprV::At(AtomV::Int(z))],
        ) == Ok::<ExprV, ErrorV>(ExprV::At(AtomV::Bool(true))),
{
}

/// Negating twice gives the integer back.
pub proof fn law_neg_involutive(x: i64)
    requires
        x != i64::MIN,
    ensures
        neg_spec(seq![ExprV::At(AtomV::Int(x))]) == Ok::<ExprV, ErrorV>(
            ExprV::At(AtomV::Int(-x as i64)),
        ),
        neg_spec(seq![ExprV::At(AtomV::Int(-x as i64))]) == Ok::<ExprV, ErrorV>(
            ExprV::At(AtomV::Int(x)),
        ),
{
}

/// The integer of an argument (zero for any other value).
pub open spec fn int_of(e: ExprV) -> int {
    match e {
        ExprV::At(AtomV::Int(v)) => v as int,
        _ => 0,
    }
}

/// The product of the integers of the arguments.
pub open spec fn product(s: Seq<ExprV>) -> int
    decreases s.len(),
{
    if s.len() == 0 {
        1
    } else {
        int_of(s[0]) * product(s.drop_first())
    }
}

/// The sum of the integers of the arguments.
pub open spec fn total(s: Seq<ExprV>) -> int
    decreases s.len(),
{
    if s.len() == 0 {
        0
    } else {
        int_of(s[0]) + total(s.drop_first())
    }
}

proof fn lemma_mul_fold_value(s: Seq<ExprV>, acc: int)
    ensures
        mul_fold(s, acc) is Ok ==> mul_fold(s, acc) == Ok::<ExprV, ErrorV>(
            int_value(acc * product(s)),
        ),
    decreases s.len(),
{
    if s.len() == 0 {
        assert(acc * 1 == acc);
    } else if let ExprV::At(AtomV::Int(v)) = s[0] {
        let p = product(s.drop_first());
        lemma_mul_fold_value(s.drop_first(), acc * v);
        assert(acc * v * p == acc * (v * p)) by (nonlinear_arith);
    }
}

proof fn lemma_sum_fold_value(s: Seq<ExprV>, acc: int)
    ensures
        sum_fold(s, acc) is Ok ==> sum_fold(s, acc) == Ok::<ExprV, ErrorV>(
            int_value(acc + total(s)),
        ),
    decreases s.len(),
{
    if s.len() > 0 {
        if let ExprV::At(AtomV::Int(v)) = s[0] {
            lemma_sum_fold_value(s.drop_first(), acc + v);
        }
    }
}

proof fn lemma_product_remove(s: Seq<ExprV>, j: int)
    requires
        0 <= j < s.len(),
    ensures
        product(s) == int_of(s[j]) * product(s.remove(j)),
    decreases j,
{
    if j == 0 {
        assert(s.remove(0) =~= s.drop_first());
    } else {
        let t = s.drop_first();
        lemma_product_remove(t, j - 1);
        assert(s.remove(j).drop_first() =~= t.remove(j - 1));
        assert(s.remove(j)[0] == s[0]);
        assert(t[j - 1] == s[j]);
        let x = int_of(s[0]);
        let y = int_of(s[j]);
        let p = product(t.remove(j - 1));
        assert(x * (y * p) == y * (x * p)) by (nonlinear_arith);
    }
}

proof fn lemma_total_remove(s: Seq<ExprV>, j: int)
    requires
        0 <= j < s.len(),
    ensures
        total(s) == int_of(s[j]) + total(s.remove(j)),
    decreases j,
{
    if j == 0 {
        assert(s.remove(0) =~= s.drop_first());
    } else {
        let t = s.drop_first();
        lemma_total_remove(t, j - 1);
        assert(s.remove(j).drop_first() =~= t.remove(j - 1));
        assert(s.remove(j)[0] == s[0]);
        assert(t[j - 1] == s[j]);
    }
}

/// The element `a[0]` at some place `j` of `b`, where `a` and `b` hold the
/// same elements; the rests hold the same elements too.
proof fn lemma_same_elements_step(a: Seq<ExprV>, b: Seq<ExprV>) -> (j: int)
    requires
        a.len() > 0,
        a.to_multiset() == b.to_multiset(),
    ensures
        0 <= j < b.len(),
        b[j] == a[0],
        a.drop_first().to_multiset() == b.remove(j).to_multiset(),
{
    vstd::seq_lib::to_multiset_contains(a, a[0]);
    vstd::seq_lib::to_multiset_contains(b, a[0]);
    assert(a.contains(a[0])) by {
        assert(a[0] == a[0]);
    }
    let j = choose|j: int| 0 <= j < b.len() && b[j] == a[0];
    vstd::seq_lib::to_multiset_remove(a, 0);
    vstd::seq_lib::to_multiset_remove(b, j);
    assert(a.remove(0) =~= a.drop_first());
    j
}

proof fn lemma_product_same_elements(a: Seq<ExprV>, b: Seq<ExprV>)
    requires
        a.to_multiset() == b.to_multiset(),
    ensures
        product(a) == product(b),
    decreases a.len(),
{
    vstd::seq_lib::to_multiset_len(a);
    vstd::seq_lib::to_multiset_len(b);
    if a.len() > 0 {
        let j = lemma_same_elements_step(a, b);
        lemma_product_same_elements(a.drop_first(), b.remove(j));
        lemma_product_remove(b, j);
    }
}

proof fn lemma_total_same_elements(a: Seq<ExprV>, b: Seq<ExprV>)
    requires
        a.to_multiset() == b.to_multiset(),
    ensures
        total(a) == total(b),
    decreases a.len(),
{
    vstd::seq_lib::to_multiset_len(a);
    vstd::seq_lib::to_multiset_len(b);
    if a.len() > 0 {
        let j = lemma_same_elements_step(a, b);
        lemma_total_same_elements(a.drop_first(), b.remove(j));
        lemma_total_remove(b, j);
    }
}

/// `*` gives the product of its arguments, whatever their order: two
/// argument lists that hold the same elements, each multiplied without
/// overflow, give the same result.
pub proof fn law_mul_any_order(a: Seq<ExprV>, b: Seq<ExprV>)
    requires
        a.to_multiset() == b.to_multiset(),
        mul_fold(a, 1) is Ok,
        mul_fold(b, 1) is Ok,
    ensures
        mul_fold(a, 1) == Ok::<ExprV, ErrorV>(int_value(product(a))),
        mul_fold(a, 1) == mul_fold(b, 1),
{
    lemma_mul_fold_value(a, 1);
    lemma_mul_fold_value(b, 1);
    lemma_product_same_elements(a, b);
}

/// `+` gives the sum of its arguments, whatever their order: two argument
/// lists that hold the same elements, each added up without overflow, give
/// the same result.
pub proof fn law_sum_any_order(a: Seq<ExprV>, b: Seq<ExprV>)
    requires
        a.to_multiset() == b.to_multiset(),
        sum_fold(a, 0) is Ok,
        sum_fold(b, 0) is Ok,
    ensures
        sum_fold(a, 0) == Ok::<ExprV, ErrorV>(int_value(total(a))),
        sum_fold(a, 0) == sum_fold(b, 0),
{
    lemma_sum_fold_value(a, 0);
    lemma_sum_fold_value(b, 0);
    lemma_total_same_elements(a, b);
}

/// `b` is `a` after evaluations: the same special forms and built-ins, and
/// every top-level variable of `a` still defined.
pub open spec fn env_extends(a: EnvV, b: EnvV) -> bool {
    &&& b.special_forms == a.special_forms
    &&& b.built_ins == a.built_ins
    &&& forall|k: Seq<char>| #[trigger] a.vars.contains_key(k) ==> b.vars.contains_key(k)
}

/// Evaluation keeps the special forms and the built-ins, and removes no
/// top-level variable.
pub proof fn law_eval_extends_env(fuel: nat, e: ExprV, env: EnvV, locals: Frames)
    ensures
        env_extends(env, eval_spec(fuel, e, env, locals).1),
    decreases fuel, 0nat, 0nat,
{
    if fuel > 0 {
        let f = (fuel - 1) as nat;
        match e {
            ExprV::Array(items) => lemma_eval_all_extends(f, items, env, locals),
            ExprV::PreMap(pairs) => lemma_bind_atoms_extends(f, pairs, Map::empty(), env, locals),
            ExprV::List(items) => lemma_eval_list_extends(f, items, env, locals),
            _ => {},
        }
    }
}

proof fn lemma_eval_all_extends(fuel: nat, items: Seq<ExprV>, env: EnvV, locals: Frames)
    ensures
        env_extends(env, eval_all_spec(fuel, items, env, locals).1),
    decreases fuel, 1nat, items.len(),
{
    if items.len() > 0 {
        let (r0, env1) = eval_spec(fuel, items[0], env, locals);
        law_eval_extends_env(fuel, items[0], env, locals);
        lemma_eval_all_extends(fuel, items.drop_first(), env1, locals);
    }
}

proof fn lemma_bind_symbols_extends(
    fuel: nat,
    pairs: Seq<(ExprV, ExprV)>,
    acc: Map<Seq<char>, ExprV>,
    env: EnvV,
    locals: Frames,
)
    ensures
        env_extends(env, bind_symbols_spec(fuel, pairs, acc, env, locals).1),
    decreases fuel, 1nat, pairs.len(),
{
    if pairs.len() > 0 {
        if let ExprV::At(AtomV::Symbol(sym)) = pairs[0].0 {
            let (r, env1) = eval_spec(fuel, pairs[0].1, env, locals);
            law_eval_extends_env(fuel, pairs[0].1, env, locals);
            if let Ok(v) = r {
                lemma_bind_symbols_extends(fuel, pairs.drop_first(), acc.insert(sym, v), env1, locals);
            }
        }
    }
}

proof fn lemma_bind_atoms_extends(
    fuel: nat,
    pairs: Seq<(ExprV, ExprV)>,
    acc: Map<AtomV, ExprV>,
    env: EnvV,
    locals: Frames,
)
    ensures
        env_extends(env, bind_atoms_spec(fuel, pairs, acc, env, locals).1),
    decreases fuel, 1nat, pairs.len(),
{
    if pairs.len() > 0 {
        if let ExprV::At(a) = pairs[0].0 {
            let (r, env1) = eval_spec(fuel, pairs[0].1, env, locals);
            law_eval_extends_env(fuel, pairs[0].1, env, locals);
            if let Ok(v) = r {
                lemma_bind_atoms_extends(fuel, pairs.drop_first(), acc.insert(a, v), env1, locals);
            }
        }
    }
}

proof fn lemma_if_extends(fuel: nat, args: Seq<ExprV>, env: EnvV, locals: Frames)
    ensures
        env_extends(env, if_spec(fuel, args, env, locals).1),
    decreases fuel, 2nat, 0nat,
{
    if args.len() == 3 || args.len() == 2 {
        let (c, env1) = eval_spec(fuel, args[0], env, locals);
        law_eval_extends_env(fuel, args[0], env, locals);
        law_eval_extends_env(fuel, args[1], env1, locals);
        if args.len() == 3 {
            law_eval_extends_env(fuel, args[2], env1, locals);
        }
    }
}

proof fn lemma_def_extends(fuel: nat, args: Seq<ExprV>, env: EnvV, locals: Frames)
    ensures
        env_extends(env, def_spec(fuel, args, env, locals).1),
    decreases fuel, 2nat, 0nat,
{
    if args.len() == 2 {
        law_eval_extends_env(fuel, args[1], env, locals);
    }
}

proof fn lemma_let_extends(fuel: nat, args: Seq<ExprV>, env: EnvV, locals: Frames)
    ensures
        env_extends(env, let_spec(fuel, args, env, locals).1),
    decreases fuel, 2nat, 0nat,
{
    if args.len() == 2 {
        if let ExprV::Array(vec) = args[0] {
            if vec.len() % 2 == 0 {
                let pairs = crate::util::pairs_of(vec);
                let (m, env1) = bind_symbols_spec(fuel, pairs, Map::empty(), env, locals);
                lemma_bind_symbols_extends(fuel, pairs, Map::empty(), env, locals);
                if let Ok(frame) = m {
                    law_eval_extends_env(fuel, args[1], env1, seq![frame] + locals);
                }
            }
        }
    }
}

proof fn lemma_call_special_form_extends(
    fuel: nat,
    sf: SpecialForm,
    args: Seq<ExprV>,
    env: EnvV,
    locals: Frames,
)
    ensures
        env_extends(env, call_special_form_spec(fuel, sf, args, env, locals).1),
    decreases fuel, 3nat, 0nat,
{
    match sf {
        SpecialForm::If => lemma_if_extends(fuel, args, env, locals),
        SpecialForm::Def => lemma_def_extends(fuel, args, env, locals),
        SpecialForm::Let => lemma_let_extends(fuel, args, env, locals),
        _ => {},
    }
}

proof fn lemma_call_function_extends(
    fuel: nat,
    fun: ExprV,
    args: Seq<ExprV>,
    env: EnvV,
    locals: Frames,
)
    ensures
        env_extends(env, call_function_spec(fuel, fun, args, env, locals).1),
    decreases fuel, 4nat, 0nat,
{
    let (rs, env1) = eval_all_spec(fuel, args, env, locals);
    lemma_eval_all_extends(fuel, args, env, locals);
    if let Ok(vals) = crate::util::collect(rs) {
        if let ExprV::Lambda(params, body) = fun {
            let pairs = crate::eval::zip_spec(params, vals);
            let (m, env2) = bind_symbols_spec(fuel, pairs, Map::empty(), env1, locals);
            lemma_bind_symbols_extends(fuel, pairs, Map::empty(), env1, locals);
            if let Ok(frame) = m {
                law_eval_extends_env(fuel, *body, env2, seq![frame] + locals);
            }
        }
    }
}

proof fn lemma_eval_list_extends(fuel: nat, items: Seq<ExprV>, env: EnvV, locals: Frames)
    ensures
        env_extends(env, eval_list_spec(fuel, items, env, locals).1),
    decreases fuel, 5nat, 0nat,
{
    if items.len() > 0 {
        let (c, env1) = eval_spec(fuel, items[0], env, locals);
        law_eval_extends_env(fuel, items[0], env, locals);
        match c {
            Ok(ExprV::Special(sf)) => lemma_call_special_form_extends(
                fuel,
                sf,
                items.drop_first(),
                env1,
                locals,
            ),
            Ok(ExprV::BuiltIn(b)) => lemma_call_function_extends(
                fuel,
                ExprV::BuiltIn(b),
                items.drop_first(),
                env1,
                locals,
            ),
            Ok(ExprV::Lambda(ps, body)) => lemma_call_function_extends(
                fuel,
                ExprV::Lambda(ps, body),
                items.drop_first(),
                env1,
                locals,
            ),
            _ => {},
        }
    }
}

/// After `(def sym form)` succeeds, the symbol evaluates to the value that
/// was defined, where no local frame binds it.
pub proof fn law_def_then_lookup(
    fuel: nat,
    sym: Seq<char>,
    form: ExprV,
    env: EnvV,
    locals: Frames,
    read_fuel: nat,
)
    requires
        lookup_vars_spec(sym, locals) is None,
        def_spec(fuel, seq![ExprV::At(AtomV::Symbol(sym)), form], env, locals).0 is Ok,
        read_fuel > 0,
    ensures
        ({
            let (r, env2) = def_spec(fuel, seq![ExprV::At(AtomV::Symbol(sym)), form], env, locals);
            &&& env2.vars.contains_key(sym)
            &&& eval_spec(read_fuel, ExprV::At(AtomV::Symbol(sym)), env2, locals) == (r, env2)
        }),
{
    let args = seq![ExprV::At(AtomV::Symbol(sym)), form];
    law_eval_extends_env(fuel, form, env, locals);
    assert(!env.special_forms.contains_key(sym));
    assert(!env.built_ins.contains_key(sym));
}

/// `(quote x)` evaluates to `x` itself and changes nothing, where `q`
/// names the special form `quote`.
pub proof fn law_quote(fuel: nat, q: Seq<char>, x: ExprV, env: EnvV, locals: Frames)
    requires
        fuel >= 2,
        env.special_forms.contains_key(q),
        env.special_forms[q] == SpecialForm::Quote,
    ensures
        eval_spec(fuel, ExprV::List(seq![ExprV::At(AtomV::Symbol(q)), x]), env, locals) == (
            Ok::<ExprV, ErrorV>(x),
            env,
        ),
{
    let items = seq![ExprV::At(AtomV::Symbol(q)), x];
    assert(items.drop_first() =~= seq![x]);
    let f = (fuel - 1) as nat;
    assert(eval_spec(f, items[0], env, locals) == (
        Ok::<ExprV, ErrorV>(ExprV::Special(SpecialForm::Quote)),
        env,
    ));
    assert(crate::eval::quote_spec(seq![x]) == Ok::<ExprV, ErrorV>(x));
    assert(call_special_form_spec(f, SpecialForm::Quote, items.drop_first(), env, locals) == (
        Ok::<ExprV, ErrorV>(x),
        env,
    ));
    assert(eval_list_spec(f, items, env, locals) == (Ok::<ExprV, ErrorV>(x), env));
}

/// Every atom but a symbol evaluates to itself, and so do functions and
/// evaluated maps; the environment is unchanged.
pub proof fn law_self_evaluating(fuel: nat, e: ExprV, env: EnvV, locals: Frames)
    requires
        fuel > 0,
        e is At && !(e->At_0 is Symbol) || e is BuiltIn || e is Lambda || e is PostMap,
    ensures
        eval_spec(fuel, e, env, locals) == (Ok::<ExprV, ErrorV>(e), env),
{
}

/// A local binding hides the top-level variable of the same name, and an
/// inner frame hides an outer one; special forms and built-ins come first.
pub proof fn law_inner_frame_shadows(
    sym: Seq<char>,
    frame: Map<Seq<char>, ExprV>,
    env: EnvV,
    locals: Frames,
)
    requires
        frame.contains_key(sym),
        !env.special_forms.contains_key(sym),
        !env.built_ins.contains_key(sym),
    ensures
        lookup_symbol_spec(sym, env, seq![frame] + locals) == Ok::<ExprV, ErrorV>(frame[sym]),
{
    assert((seq![frame] + locals)[0] == frame);
}

/// Blanks before a form do not change what is read.
pub proof fn law_leading_blanks(s: Seq<u8>, p: int)
    requires
        0 <= p <= s.len(),
    ensures
        parse_expr_spec(s, p) == parse_expr_spec(s, spaces_end(s, p)),
{
    let q = spaces_end(s, p);
    lemma_spaces_end(s, p);
    assert(parse_num_spec(s, p) == parse_num_spec(s, q));
    assert(parse_char_spec(s, p) == parse_char_spec(s, q));
    assert(parse_bool_spec(s, p) == parse_bool_spec(s, q));
    assert(parse_nil_spec(s, p) == parse_nil_spec(s, q));
    assert(parse_symbol_spec(s, p) == parse_symbol_spec(s, q));
    assert(parse_string_spec(s, p) == parse_string_spec(s, q));
    assert(parse_atom_spec(s, p) == parse_atom_spec(s, q));
    assert(parse_bracket_spec(s, p, Bracket::Paren) == parse_bracket_spec(s, q, Bracket::Paren));
    assert(parse_bracket_spec(s, p, Bracket::Square) == parse_bracket_spec(s, q, Bracket::Square));
    assert(parse_bracket_spec(s, p, Bracket::Curly) == parse_bracket_spec(s, q, Bracket::Curly));
}

/// Pairing the forms two by two keeps them all, in order.
pub proof fn law_pairs_keep_forms<T>(s: Seq<T>)
    requires
        s.len() % 2 == 0,
    ensures
        pairs_of(s).len() * 2 == s.len(),
        forall|i: int|
            0 <= i < s.len() ==> #[trigger] s[i] == (if i % 2 == 0 {
                pairs_of(s)[i / 2].0
            } else {
                pairs_of(s)[i / 2].1
            }),
{
    assert forall|i: int| 0 <= i < s.len() implies #[trigger] s[i] == (if i % 2 == 0 {
        pairs_of(s)[i / 2].0
    } else {
        pairs_of(s)[i / 2].1
    }) by {
        let j = i / 2;
        assert(0 <= j < s.len() / 2);
        if i % 2 == 0 {
            assert(2 * j == i);
        } else {
            assert(2 * j + 1 == i);
        }
    }
}

/// A successful evaluation gives the same value and the same environment
/// with any larger budget.
pub proof fn law_budget_monotone(fuel: nat, more: nat, e: ExprV, env: EnvV, locals: Frames)
    requires
        fuel <= more,
        eval_spec(fuel, e, env, locals).0 is Ok,
    ensures
        eval_spec(more, e, env, locals) == eval_spec(fuel, e, env, locals),
    decreases fuel, 0nat, 0nat,
{
    let f = (fuel - 1) as nat;
    let g = (more - 1) as nat;
    match e {
        ExprV::Array(items) => {
            lemma_all_monotone(f, g, items, env, locals);
        },
        ExprV::PreMap(pairs) => {
            lemma_bind_atoms_monotone(f, g, pairs, Map::empty(), env, locals);
        },
        ExprV::List(items) => {
            lemma_list_monotone(f, g, items, env, locals);
        },
        _ => {},
    }
}

proof fn lemma_collect_cons<E, P>(r0: Result<E, P>, rs: Seq<Result<E, P>>)
    ensures
        collect(seq![r0] + rs) == (match r0 {
            Err(e) => Err(e),
            Ok(v) => match collect(rs) {
                Ok(vs) => Ok(seq![v] + vs),
                Err(e) => Err(e),
            },
        }),
{
    assert((seq![r0] + rs).drop_first() =~= rs);
    assert((seq![r0] + rs)[0] == r0);
}

proof fn lemma_all_monotone(fuel: nat, more: nat, items: Seq<ExprV>, env: EnvV, locals: Frames)
    requires
        fuel <= more,
        collect(eval_all_spec(fuel, items, env, locals).0) is Ok,
    ensures
        eval_all_spec(more, items, env, locals) == eval_all_spec(fuel, items, env, locals),
    decreases fuel, 1nat, items.len(),
{
    if items.len() > 0 {
        let (r0, env1) = eval_spec(fuel, items[0], env, locals);
        let (rs, env2) = eval_all_spec(fuel, items.drop_first(), env1, locals);
        lemma_collect_cons(r0, rs);
        law_budget_monotone(fuel, more, items[0], env, locals);
        lemma_all_monotone(fuel, more, items.drop_first(), env1, locals);
    }
}

proof fn lemma_bind_symbols_monotone(
    fuel: nat,
    more: nat,
    pairs: Seq<(ExprV, ExprV)>,
    acc: Map<Seq<char>, ExprV>,
    env: EnvV,
    locals: Frames,
)
    requires
        fuel <= more,
        bind_symbols_spec(fuel, pairs, acc, env, locals).0 is Ok,
    ensures
        bind_symbols_spec(more, pairs, acc, env, locals) == bind_symbols_spec(
            fuel,
            pairs,
            acc,
            env,
            locals,
        ),
    decreases fuel, 1nat, pairs.len(),
{
    if pairs.len() > 0 {
        if let ExprV::At(AtomV::Symbol(sym)) = pairs[0].0 {
            let (r, env1) = eval_spec(fuel, pairs[0].1, env, locals);
            law_budget_monotone(fuel, more, pairs[0].1, env, locals);
            if let Ok(v) = r {
                lemma_bind_symbols_monotone(
                    fuel,
                    more,
                    pairs.drop_first(),
                    acc.insert(sym, v),
                    env1,
                    locals,
                );
            }
        }
    }
}

proof fn lemma_bind_atoms_monotone(
    fuel: nat,
    more: nat,
    pairs: Seq<(ExprV, ExprV)>,
    acc: Map<AtomV, ExprV>,
    env: EnvV,
    locals: Frames,
)
    requires
        fuel <= more,
        bind_atoms_spec(fuel, pairs, acc, env, locals).0 is Ok,
    ensures
        bind_atoms_spec(more, pairs, acc, env, locals) == bind_atoms_spec(
            fuel,
            pairs,
            acc,
            env,
            locals,
        ),
    decreases fuel, 1nat, pairs.len(),
{
    if pairs.len() > 0 {
        if let ExprV::At(a) = pairs[0].0 {
            let (r, env1) = eval_spec(fuel, pairs[0].1, env, locals);
            law_budget_monotone(fuel, more, pairs[0].1, env, locals);
            if let Ok(v) = r {
                lemma_bind_atoms_monotone(
                    fuel,
                    more,
                    pairs.drop_first(),
                    acc.insert(a, v),
                    env1,
                    locals,
                );
            }
        }
    }
}

proof fn lemma_if_monotone(fuel: nat, more: nat, args: Seq<ExprV>, env: EnvV, locals: Frames)
    requires
        fuel <= more,
        if_spec(fuel, args, env, locals).0 is Ok,
    ensures
        if_spec(more, args, env, locals) == if_spec(fuel, args, env, locals),
    decreases fuel, 2nat, 0nat,
{
    if args.len() == 3 || args.len() == 2 {
        let (c, env1) = eval_spec(fuel, args[0], env, locals);
        law_budget_monotone(fuel, more, args[0], env, locals);
        if let Ok(v) = c {
            if crate::eval::truthy(v) {
                law_budget_monotone(fuel, more, args[1], env1, locals);
            } else if args.len() == 3 {
                law_budget_monotone(fuel, more, args[2], env1, locals);
            }
        }
    }
}

proof fn lemma_def_monotone(fuel: nat, more: nat, args: Seq<ExprV>, env: EnvV, locals: Frames)
    requires
        fuel <= more,
        def_spec(fuel, args, env, locals).0 is Ok,
    ensures
        def_spec(more, args, env, locals) == def_spec(fuel, args, env, locals),
    decreases fuel, 2nat, 0nat,
{
    if args.len() == 2 {
        if let ExprV::At(AtomV::Symbol(sym)) = args[0] {
            law_budget_monotone(fuel, more, args[1], env, locals);
        }
    }
}

proof fn lemma_let_monotone(fuel: nat, more: nat, args: Seq<ExprV>, env: EnvV, locals: Frames)
    requires
        fuel <= more,
        let_spec(fuel, args, env, locals).0 is Ok,
    ensures
        let_spec(more, args, env, locals) == let_spec(fuel, args, env, locals),
    decreases fuel, 2nat, 0nat,
{
    if args.len() == 2 {
        if let ExprV::Array(vec) = args[0] {
            if vec.len() % 2 == 0 {
                let pairs = pairs_of(vec);
                let (m, env1) = bind_symbols_spec(fuel, pairs, Map::empty(), env, locals);
                lemma_bind_symbols_monotone(fuel, more, pairs, Map::empty(), env, locals);
                if let Ok(frame) = m {
                    law_budget_monotone(fuel, more, args[1], env1, seq![frame] + locals);
                }
            }
        }
    }
}

proof fn lemma_special_monotone(
    fuel: nat,
    more: nat,
    sf: SpecialForm,
    args: Seq<ExprV>,
    env: EnvV,
    locals: Frames,
)
    requires
        fuel <= more,
        call_special_form_spec(fuel, sf, args, env, locals).0 is Ok,
    ensures
        call_special_form_spec(more, sf, args, env, locals) == call_special_form_spec(
            fuel,
            sf,
            args,
            env,
            locals,
        ),
    decreases fuel, 3nat, 0nat,
{
    match sf {
        SpecialForm::If => lemma_if_monotone(fuel, more, args, env, locals),
        SpecialForm::Def => lemma_def_monotone(fuel, more, args, env, locals),
        SpecialForm::Let => lemma_let_monotone(fuel, more, args, env, locals),
        _ => {},
    }
}

proof fn lemma_function_monotone(
    fuel: nat,
    more: nat,
    fun: ExprV,
    args: Seq<ExprV>,
    env: EnvV,
    locals: Frames,
)
    requires
        fuel <= more,
        call_function_spec(fuel, fun, args, env, locals).0 is Ok,
    ensures
        call_function_spec(more, fun, args, env, locals) == call_function_spec(
            fuel,
            fun,
            args,
            env,
            locals,
        ),
    decreases fuel, 4nat, 0nat,
{
    let (rs, env1) = eval_all_spec(fuel, args, env, locals);
    lemma_all_monotone(fuel, more, args, env, locals);
    if let Ok(vals) = crate::util::collect(rs) {
        if let ExprV::Lambda(params, body) = fun {
            let pairs = crate::eval::zip_spec(params, vals);
            let (m, env2) = bind_symbols_spec(fuel, pairs, Map::empty(), env1, locals);
            lemma_bind_symbols_monotone(fuel, more, pairs, Map::empty(), env1, locals);
            if let Ok(frame) = m {
                law_budget_monotone(fuel, more, *body, env2, seq![frame] + locals);
            }
        }
    }
}

proof fn lemma_list_monotone(fuel: nat, more: nat, items: Seq<ExprV>, env: EnvV, locals: Frames)
    requires
        fuel <= more,
        eval_list_spec(fuel, items, env, locals).0 is Ok,
    ensures
        eval_list_spec(more, items, env, locals) == eval_list_spec(fuel, items, env, locals),
    decreases fuel, 5nat, 0nat,
{
    if items.len() > 0 {
        let (c, env1) = eval_spec(fuel, items[0], env, locals);
        law_budget_monotone(fuel, more, items[0], env, locals);
        match c {
            Ok(ExprV::Special(sf)) => lemma_special_monotone(
                fuel,
                more,
                sf,
                items.drop_first(),
                env1,
                locals,
            ),
            Ok(ExprV::BuiltIn(b)) => lemma_function_monotone(
                fuel,
                more,
                ExprV::BuiltIn(b),
                items.drop_first(),
                env1,
                locals,
            ),
            Ok(ExprV::Lambda(ps, body)) => lemma_function_monotone(
                fuel,
                more,
                ExprV::Lambda(ps, body),
                items.drop_first(),
                env1,
                locals,
            ),
            _ => {},
        }
    }
}


/* ------------------------------------------------------------------------ */
/* Local frames                                                              */

/// A symbol is found in the innermost frame that binds it, however deep:
/// frames that do not bind it are passed over.
pub proof fn law_lookup_through_frames(sym: Seq<char>, frames: Frames, j: int)
    requires
        0 <= j < frames.len(),
        forall|i: int| 0 <= i < j ==> !(#[trigger] frames[i]).contains_key(sym),
        frames[j].contains_key(sym),
    ensures
        lookup_vars_spec(sym, frames) == Some(frames[j][sym]),
    decreases j,
{
    if j > 0 {
        let t = frames.drop_first();
        assert forall|i: int| 0 <= i < j - 1 implies !(#[trigger] t[i]).contains_key(sym) by {
            assert(t[i] == frames[i + 1]);
        }
        assert(!frames[0].contains_key(sym));
        law_lookup_through_frames(sym, t, j - 1);
    }
}

/// A symbol that no frame binds is not a local variable.
pub proof fn law_lookup_unbound(sym: Seq<char>, frames: Frames)
    requires
        forall|i: int| 0 <= i < frames.len() ==> !(#[trigger] frames[i]).contains_key(sym),
    ensures
        lookup_vars_spec(sym, frames) is None,
    decreases frames.len(),
{
    if frames.len() > 0 {
        let t = frames.drop_first();
        assert forall|i: int| 0 <= i < t.len() implies !(#[trigger] t[i]).contains_key(sym) by {
            assert(t[i] == frames[i + 1]);
        }
        assert(!frames[0].contains_key(sym));
        law_lookup_unbound(sym, t);
    }
}

/// A symbol that is neither a special form nor a built-in evaluates to its
/// binding in the innermost frame that binds it, however deep.
pub proof fn law_symbol_through_frames(
    fuel: nat,
    sym: Seq<char>,
    env: EnvV,
    frames: Frames,
    j: int,
)
    requires
        fuel > 0,
        !env.special_forms.contains_key(sym),
        !env.built_ins.contains_key(sym),
        0 <= j < frames.len(),
        forall|i: int| 0 <= i < j ==> !(#[trigger] frames[i]).contains_key(sym),
        frames[j].contains_key(sym),
    ensures
        eval_spec(fuel, ExprV::At(AtomV::Symbol(sym)), env, frames) == (
            Ok::<ExprV, ErrorV>(frames[j][sym]),
            env,
        ),
{
    law_lookup_through_frames(sym, frames, j);
}

/* ------------------------------------------------------------------------ */
/* A file of forms                                                           */

/// A file of no forms leaves the environment as it is.
pub proof fn law_forms_none(env: EnvV, locals: Frames)
    ensures
        eval_forms_env(Seq::empty(), env, locals) == env,
{
}

/// A file of one form evaluates it.
pub proof fn law_forms_one(f: ExprV, env: EnvV, locals: Frames)
    ensures
        eval_forms_env(seq![f], env, locals) == eval_spec(MAX_DEPTH as nat, f, env, locals).1,
{
    assert(seq![f].drop_first() =~= Seq::<ExprV>::empty());
    let e1 = eval_spec(MAX_DEPTH as nat, f, env, locals).1;
    assert(eval_forms_env(Seq::<ExprV>::empty(), e1, locals) == e1);
}

/// The forms are evaluated first to last: the forms of `a` then those of
/// `b` give the environment that `b` gives after `a`.
pub proof fn law_forms_in_order(a: Seq<ExprV>, b: Seq<ExprV>, env: EnvV, locals: Frames)
    ensures
        eval_forms_env(a + b, env, locals) == eval_forms_env(
            b,
            eval_forms_env(a, env, locals),
            locals,
        ),
    decreases a.len(),
{
    if a.len() == 0 {
        assert(a + b =~= b);
    } else {
        assert((a + b).drop_first() =~= a.drop_first() + b);
        assert((a + b)[0] == a[0]);
        law_forms_in_order(
            a.drop_first(),
            b,
            eval_spec(MAX_DEPTH as nat, a[0], env, locals).1,
            locals,
        );
    }
}

/* ------------------------------------------------------------------------ */
/* Calls of user functions                                                   */

/// The name of a symbol.
pub open spec fn symbol_name(e: ExprV) -> Seq<char> {
    match e {
        ExprV::At(AtomV::Symbol(s)) => s,
        _ => Seq::empty(),
    }
}

/// An atom other than a symbol: a value that evaluates to itself.
pub open spec fn plain_atom(e: ExprV) -> bool {
    e is At && !(e->At_0 is Symbol)
}

/// Parameters: symbols, no two with the same name.
pub open spec fn distinct_symbols(ps: Seq<ExprV>) -> bool {
    &&& forall|i: int| 0 <= i < ps.len() ==> (#[trigger] ps[i]) is At && ps[i]->At_0 is Symbol
    &&& forall|i: int, k: int|
        #![trigger ps[i], ps[k]]
        0 <= i < k < ps.len() ==> symbol_name(ps[i]) != symbol_name(ps[k])
}

proof fn lemma_eval_all_plain(fuel: nat, items: Seq<ExprV>, env: EnvV, locals: Frames)
    requires
        fuel > 0,
        forall|i: int| 0 <= i < items.len() ==> plain_atom(#[trigger] items[i]),
    ensures
        eval_all_spec(fuel, items, env, locals).1 == env,
        collect(eval_all_spec(fuel, items, env, locals).0) == Ok::<Seq<ExprV>, ErrorV>(items),
    decreases items.len(),
{
    if items.len() > 0 {
        let t = items.drop_first();
        assert forall|i: int| 0 <= i < t.len() implies plain_atom(#[trigger] t[i]) by {
            assert(t[i] == items[i + 1]);
        }
        assert(plain_atom(items[0]));
        assert(eval_spec(fuel, items[0], env, locals) == (Ok::<ExprV, ErrorV>(items[0]), env));
        lemma_eval_all_plain(fuel, t, env, locals);
        let (rs, env2) = eval_all_spec(fuel, t, env, locals);
        let r0 = Ok::<ExprV, ErrorV>(items[0]);
        let whole = seq![r0] + rs;
        assert(whole[0] == r0);
        assert(whole.drop_first() =~= rs);
        assert(eval_all_spec(fuel, items, env, locals).0 == whole);
        assert(collect(whole) == Ok::<Seq<ExprV>, ErrorV>(seq![items[0]] + t));
        assert(seq![items[0]] + t =~= items);
    } else {
        assert(items =~= Seq::<ExprV>::empty());
    }
}

/// Binding symbols to plain atoms, in turn: every name gets its value, and
/// the names not bound keep what `acc` gives them.
proof fn lemma_bind_plain(
    fuel: nat,
    pairs: Seq<(ExprV, ExprV)>,
    acc: Map<Seq<char>, ExprV>,
    env: EnvV,
    locals: Frames,
)
    requires
        fuel > 0,
        forall|i: int|
            0 <= i < pairs.len() ==> (#[trigger] pairs[i]).0 is At && pairs[i].0->At_0 is Symbol
                && plain_atom(pairs[i].1),
        forall|i: int, k: int|
            #![trigger pairs[i], pairs[k]]
            0 <= i < k < pairs.len() ==> symbol_name(pairs[i].0) != symbol_name(pairs[k].0),
    ensures
        bind_symbols_spec(fuel, pairs, acc, env, locals).1 == env,
        bind_symbols_spec(fuel, pairs, acc, env, locals).0 is Ok,
        ({
            let m = bind_symbols_spec(fuel, pairs, acc, env, locals).0->Ok_0;
            &&& forall|i: int|
                0 <= i < pairs.len() ==> m.contains_key(symbol_name((#[trigger] pairs[i]).0))
                    && m[symbol_name(pairs[i].0)] == pairs[i].1
            &&& forall|k: Seq<char>|
                (forall|i: int| 0 <= i < pairs.len() ==> symbol_name((#[trigger] pairs[i]).0) != k)
                    ==> (#[trigger] m.contains_key(k) == acc.contains_key(k) && (acc.contains_key(k)
                    ==> m[k] == acc[k]))
        }),
    decreases pairs.len(),
{
    if pairs.len() > 0 {
        let t = pairs.drop_first();
        let n0 = symbol_name(pairs[0].0);
        let v0 = pairs[0].1;
        assert forall|i: int|
            0 <= i < t.len() implies (#[trigger] t[i]).0 is At && t[i].0->At_0 is Symbol
                && plain_atom(t[i].1) by {
            assert(t[i] == pairs[i + 1]);
        }
        assert forall|i: int, k: int|
            #![trigger t[i], t[k]]
            0 <= i < k < t.len() implies symbol_name(t[i].0) != symbol_name(t[k].0) by {
            assert(t[i] == pairs[i + 1] && t[k] == pairs[k + 1]);
        }
        assert(plain_atom(pairs[0].1));
        assert(pairs[0].0 == ExprV::At(AtomV::Symbol(n0)));
        assert(eval_spec(fuel, v0, env, locals) == (Ok::<ExprV, ErrorV>(v0), env));
        lemma_bind_plain(fuel, t, acc.insert(n0, v0), env, locals);
        let m = bind_symbols_spec(fuel, pairs, acc, env, locals).0->Ok_0;
        assert(bind_symbols_spec(fuel, pairs, acc, env, locals) == bind_symbols_spec(
            fuel,
            t,
            acc.insert(n0, v0),
            env,
            locals,
        ));
        assert forall|i: int|
            0 <= i < pairs.len() implies m.contains_key(symbol_name((#[trigger] pairs[i]).0))
                && m[symbol_name(pairs[i].0)] == pairs[i].1 by {
            if i == 0 {
                assert forall|l: int| 0 <= l < t.len() implies symbol_name(
                    (#[trigger] t[l]).0,
                ) != n0 by {
                    assert(t[l] == pairs[l + 1]);
                    assert(symbol_name(pairs[0].0) != symbol_name(pairs[l + 1].0));
                }
            } else {
                assert(pairs[i] == t[i - 1]);
            }
        }
        assert forall|k: Seq<char>|
            (forall|i: int| 0 <= i < pairs.len() ==> symbol_name((#[trigger] pairs[i]).0) != k)
                implies #[trigger] m.contains_key(k) == acc.contains_key(k) && (acc.contains_key(k)
                ==> m[k] == acc[k]) by {
            assert(symbol_name(pairs[0].0) != k);
            assert forall|l: int| 0 <= l < t.len() implies symbol_name((#[trigger] t[l]).0) != k by {
                assert(t[l] == pairs[l + 1]);
            }
        }
    }
}

/// Calling a user function binds its i-th parameter to the value of its
/// i-th argument: a function whose body is its j-th parameter, called on
/// atoms, gives the j-th atom and leaves the environment as it is.
pub proof fn law_call_binds_parameters_in_order(
    fuel: nat,
    params: Seq<ExprV>,
    args: Seq<ExprV>,
    j: int,
    env: EnvV,
    locals: Frames,
)
    requires
        fuel > 0,
        distinct_symbols(params),
        params.len() == args.len(),
        forall|i: int| 0 <= i < args.len() ==> plain_atom(#[trigger] args[i]),
        0 <= j < params.len(),
        !env.special_forms.contains_key(symbol_name(params[j])),
        !env.built_ins.contains_key(symbol_name(params[j])),
    ensures
        call_function_spec(fuel, ExprV::Lambda(params, Box::new(params[j])), args, env, locals)
            == (Ok::<ExprV, ErrorV>(args[j]), env),
{
    lemma_eval_all_plain(fuel, args, env, locals);
    let pairs = zip_spec(params, args);
    assert(pairs.len() == params.len());
    assert forall|i: int| 0 <= i < pairs.len() implies #[trigger] pairs[i] == (params[i], args[i]) by {}
    assert forall|i: int|
        0 <= i < pairs.len() implies (#[trigger] pairs[i]).0 is At && pairs[i].0->At_0 is Symbol
            && plain_atom(pairs[i].1) by {
        assert(pairs[i] == (params[i], args[i]));
        assert(params[i] is At && params[i]->At_0 is Symbol);
        assert(plain_atom(args[i]));
    }
    assert forall|i: int, k: int|
        #![trigger pairs[i], pairs[k]]
        0 <= i < k < pairs.len() implies symbol_name(pairs[i].0) != symbol_name(pairs[k].0) by {
        assert(pairs[i] == (params[i], args[i]) && pairs[k] == (params[k], args[k]));
        assert(symbol_name(params[i]) != symbol_name(params[k]));
    }
    lemma_bind_plain(fuel, pairs, Map::empty(), env, locals);
    let frame = bind_symbols_spec(fuel, pairs, Map::empty(), env, locals).0->Ok_0;
    assert(pairs[j] == (params[j], args[j]));
    assert(frame.contains_key(symbol_name(params[j])) && frame[symbol_name(params[j])] == args[j]);
    let name = symbol_name(params[j]);
    assert(params[j] is At && params[j]->At_0 is Symbol);
    assert(params[j] == ExprV::At(AtomV::Symbol(name)));
    let frames = seq![frame] + locals;
    assert(frames[0] == frame);
    law_lookup_through_frames(name, frames, 0);
}

/* ------------------------------------------------------------------------ */
/* Symbols                                                                   */

/// An ASCII letter.
pub open spec fn is_letter(c: u8) -> bool {
    ('a' as int <= c as int <= 'z' as int) || ('A' as int <= c as int <= 'Z' as int)
}

/// The bytes that a symbol is made of: ASCII letters and digits and the
/// characters `*/+-_!?><`.
pub open spec fn symbol_text_byte(c: u8) -> bool {
    ||| is_letter(c)
    ||| '0' as int <= c as int <= '9' as int
    ||| "*/+-_!?><"@.contains(c as char)
}

/// The reader's symbol bytes are exactly the ASCII letters and digits and
/// the characters `*/+-_!?><`.
pub proof fn law_symbol_bytes(c: u8)
    ensures
        is_symbol_byte(c) == symbol_text_byte(c),
{
    reveal_strlit("*/+-_!?><");
    let p = "*/+-_!?><"@;
    assert(p.len() == 9);
    if c == 0x2A {
        assert(p[0] == c as char);
    } else if c == 0x2F {
        assert(p[1] == c as char);
    } else if c == 0x2B {
        assert(p[2] == c as char);
    } else if c == 0x2D {
        assert(p[3] == c as char);
    } else if c == 0x5F {
        assert(p[4] == c as char);
    } else if c == 0x21 {
        assert(p[5] == c as char);
    } else if c == 0x3F {
        assert(p[6] == c as char);
    } else if c == 0x3E {
        assert(p[7] == c as char);
    } else if c == 0x3C {
        assert(p[8] == c as char);
    } else if p.contains(c as char) {
        let i = choose|i: int| 0 <= i < p.len() && p[i] == c as char;
        assert(p[i] == c as char);
    }
}

/// ASCII bytes are valid UTF-8 and stand for the characters of their codes.
proof fn lemma_ascii_text(b: Seq<u8>)
    requires
        forall|i: int| 0 <= i < b.len() ==> #[trigger] b[i] < 0x80,
    ensures
        valid_utf8(b),
        decode_utf8(b) == Seq::new(b.len(), |i: int| b[i] as char),
    decreases b.len(),
{
    if b.len() > 0 {
        let b0 = b[0];
        assert(b0 < 0x80);
        assert(b0 & 0x7F == b0) by (bit_vector)
            requires
                b0 < 0x80,
        ;
        let rest = b.subrange(1, b.len() as int);
        assert forall|i: int| 0 <= i < rest.len() implies #[trigger] rest[i] < 0x80 by {
            assert(rest[i] == b[i + 1]);
        }
        lemma_ascii_text(rest);
        assert(pop_first_scalar(b) == rest);
        assert(decode_utf8(b) =~= Seq::new(b.len(), |i: int| b[i] as char));
    }
}

proof fn lemma_symbol_run_end(s: Seq<u8>, p: int, e: int)
    requires
        0 <= p <= e <= s.len(),
        forall|i: int| p <= i < e ==> is_symbol_byte(#[trigger] s[i]),
        e == s.len() || !is_symbol_byte(s[e]),
    ensures
        symbol_end(s, p) == e,
    decreases e - p,
{
    if p < e {
        lemma_symbol_run_end(s, p + 1, e);
    }
}

/// A run of symbol bytes that starts with a letter, does not start with
/// `true`, `false` or `nil`, and ends the text or is followed by another
/// byte, reads as one symbol: its name is the run and reading stops at the
/// run's end.
pub proof fn law_symbol_run_reads(t: Seq<u8>, rest: Seq<u8>)
    requires
        t.len() > 0,
        forall|i: int| 0 <= i < t.len() ==> symbol_text_byte(#[trigger] t[i]),
        is_letter(t[0]),
        rest.len() == 0 || !symbol_text_byte(rest[0]),
        !has_text_at(t + rest, 0, true_text()),
        !has_text_at(t + rest, 0, false_text()),
        !has_text_at(t + rest, 0, nil_text()),
    ensures
        parse_expr_spec(t + rest, 0) == Ok::<(int, ExprV), ParseError>(
            (t.len() as int, ExprV::At(AtomV::Symbol(Seq::new(t.len(), |i: int| t[i] as char)))),
        ),
{
    let s = t + rest;
    let n = t.len() as int;
    assert(s[0] == t[0]);
    law_symbol_bytes(t[0]);
    assert(spaces_end(s, 0) == 0);
    assert(digits_end(s, 0) == 0);
    assert forall|i: int| 0 <= i < n implies is_symbol_byte(#[trigger] s[i]) by {
        assert(s[i] == t[i]);
        law_symbol_bytes(t[i]);
    }
    if rest.len() > 0 {
        assert(s[n] == rest[0]);
        law_symbol_bytes(rest[0]);
    }
    lemma_symbol_run_end(s, 0, n);
    assert(s.subrange(0, n) =~= t);
    assert forall|i: int| 0 <= i < t.len() implies #[trigger] t[i] < 0x80 by {
        law_symbol_bytes(t[i]);
    }
    lemma_ascii_text(t);
    assert(parse_num_spec(s, 0) == Err::<(int, ExprV), ParseError>(ParseError::NoMatch));
    assert(parse_char_spec(s, 0) == Err::<(int, ExprV), ParseError>(ParseError::NoMatch));
    assert(parse_bool_spec(s, 0) == Err::<(int, ExprV), ParseError>(ParseError::NoMatch));
    assert(parse_nil_spec(s, 0) == Err::<(int, ExprV), ParseError>(ParseError::NoMatch));
}

} // verus!
