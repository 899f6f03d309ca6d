//! Likeness of values: being the same but for the bits of floats.
//!
//! Whether an evaluation fails, which integers, symbols, procedures and
//! lists it gives, and what it binds do not depend on floating-point
//! arithmetic. This module states that: outcomes of evaluations that start
//! alike are alike, whatever the floating-point models.

use vstd::prelude::*;
use crate::ast::AstView;
use crate::builtins::{
    all_integers, all_numbers, apply, failure, integer_of, integer_product, integer_sum, is_integer,
    value_of,
};
use crate::env::{bind, lookup, Scope};
use crate::error::SchemeError;
use crate::eval::{eval_args, eval_spec, is_definition, Evaluated, Gathered};
use crate::float::FloatModel;
use crate::value::{DataView, Function, Number};

verus! {

/// Two values are alike: they are the same but for the bits of the floats in
/// them. Integers are alike if they are equal, and so are symbols and
/// procedures; any two floats are alike; lists are alike if they are equally
/// long and alike element by element.
pub open spec fn alike(a: DataView, b: DataView) -> bool
    decreases a, 0int,
{
    match (a, b) {
        (DataView::Number(Number::Integer(i)), DataView::Number(Number::Integer(j))) => i == j,
        (DataView::Number(Number::Float(_)), DataView::Number(Number::Float(_))) => true,
        (DataView::Symbol(s), DataView::Symbol(t)) => s == t,
        (DataView::Proc(f), DataView::Proc(g)) => f == g,
        (DataView::List(xs), DataView::List(ys)) => xs.len() == ys.len() && alike_upto(
            xs,
            ys,
            xs.len() as int,
        ),
        _ => false,
    }
}

/// The first `k` values of `xs` and of `ys` are alike, one by one.
pub open spec fn alike_upto(xs: Seq<DataView>, ys: Seq<DataView>, k: int) -> bool
    decreases xs, k,
{
    if k <= 0 || k > xs.len() || k > ys.len() {
        true
    } else {
        alike_upto(xs, ys, k - 1) && alike(xs[k - 1], ys[k - 1])
    }
}

/// Two sequences of values are equally long and alike value by value.
pub open spec fn all_alike(xs: Seq<DataView>, ys: Seq<DataView>) -> bool {
    &&& xs.len() == ys.len()
    &&& forall|k: int| 0 <= k < xs.len() ==> alike(#[trigger] xs[k], ys[k])
}

/// Two optional values are both missing, or both there and alike.
pub open spec fn alike_option(a: Option<DataView>, b: Option<DataView>) -> bool {
    match (a, b) {
        (Some(x), Some(y)) => alike(x, y),
        (None, None) => true,
        _ => false,
    }
}

/// Two results are the same failure, or both a success with alike values.
pub open spec fn alike_result(
    a: Result<Option<DataView>, SchemeError>,
    b: Result<Option<DataView>, SchemeError>,
) -> bool {
    match (a, b) {
        (Ok(x), Ok(y)) => alike_option(x, y),
        (Err(e1), Err(e2)) => e1 == e2,
        _ => false,
    }
}

/// Two scopes bind the same names, each to alike values.
pub open spec fn alike_scope(a: Scope, b: Scope) -> bool {
    &&& a.dom() == b.dom()
    &&& forall|key: Seq<char>| a.contains_key(key) ==> alike(#[trigger] a[key], b[key])
}

/// Two environments have as many scopes, and these are alike one by one.
pub open spec fn alike_env(a: Seq<Scope>, b: Seq<Scope>) -> bool {
    &&& a.len() == b.len()
    &&& forall|j: int| 0 <= j < a.len() ==> alike_scope(#[trigger] a[j], b[j])
}

/// Lists are alike exactly if their elements are alike one by one.
pub proof fn lemma_alike_lists(xs: Seq<DataView>, ys: Seq<DataView>)
    ensures
        alike(DataView::List(xs), DataView::List(ys)) == all_alike(xs, ys),
{
    if xs.len() == ys.len() {
        lemma_alike_upto(xs, ys, xs.len() as int);
    }
}

proof fn lemma_alike_upto(xs: Seq<DataView>, ys: Seq<DataView>, k: int)
    requires
        0 <= k <= xs.len(),
        k <= ys.len(),
    ensures
        alike_upto(xs, ys, k) == (forall|j: int| 0 <= j < k ==> alike(#[trigger] xs[j], ys[j])),
    decreases k,
{
    if k > 0 {
        lemma_alike_upto(xs, ys, k - 1);
        if alike_upto(xs, ys, k) {
            assert forall|j: int| 0 <= j < k implies alike(#[trigger] xs[j], ys[j]) by {
                if j < k - 1 {
                } else {
                    assert(alike(xs[k - 1], ys[k - 1]));
                }
            }
        } else {
            if alike_upto(xs, ys, k - 1) {
                assert(!alike(xs[k - 1], ys[k - 1]));
            }
        }
    }
}

/// Every value is like itself.
pub proof fn lemma_alike_reflexive(a: DataView)
    ensures
        alike(a, a),
    decreases a,
{
    match a {
        DataView::List(xs) => {
            assert forall|k: int| 0 <= k < xs.len() implies alike(#[trigger] xs[k], xs[k]) by {
                lemma_alike_reflexive(xs[k]);
            }
            lemma_alike_lists(xs, xs);
        },
        _ => {},
    }
}

/// What is like a value that is like a third is like the third.
pub proof fn lemma_alike_transitive(a: DataView, b: DataView, c: DataView)
    requires
        alike(a, b),
        alike(b, c),
    ensures
        alike(a, c),
    decreases a,
{
    match (a, b, c) {
        (DataView::List(xs), DataView::List(ys), DataView::List(zs)) => {
            lemma_alike_lists(xs, ys);
            lemma_alike_lists(ys, zs);
            assert forall|k: int| 0 <= k < xs.len() implies alike(#[trigger] xs[k], zs[k]) by {
                assert(alike(xs[k], ys[k]));
                assert(alike(ys[k], zs[k]));
                lemma_alike_transitive(xs[k], ys[k], zs[k]);
            }
            lemma_alike_lists(xs, zs);
        },
        _ => {},
    }
}

/// Every sequence of values is like itself.
pub proof fn lemma_all_alike_reflexive(xs: Seq<DataView>)
    ensures
        all_alike(xs, xs),
{
    assert forall|k: int| 0 <= k < xs.len() implies alike(#[trigger] xs[k], xs[k]) by {
        lemma_alike_reflexive(xs[k]);
    }
}

/// Likeness of sequences is transitive.
pub proof fn lemma_all_alike_transitive(xs: Seq<DataView>, ys: Seq<DataView>, zs: Seq<DataView>)
    requires
        all_alike(xs, ys),
        all_alike(ys, zs),
    ensures
        all_alike(xs, zs),
{
    assert forall|k: int| 0 <= k < xs.len() implies alike(#[trigger] xs[k], zs[k]) by {
        assert(alike(xs[k], ys[k]));
        assert(alike(ys[k], zs[k]));
        lemma_alike_transitive(xs[k], ys[k], zs[k]);
    }
}

/// Every environment is like itself.
pub proof fn lemma_alike_env_reflexive(env: Seq<Scope>)
    ensures
        alike_env(env, env),
{
    assert forall|j: int| 0 <= j < env.len() implies alike_scope(#[trigger] env[j], env[j]) by {
        assert forall|key: Seq<char>| env[j].contains_key(key) implies alike(
            #[trigger] env[j][key],
            env[j][key],
        ) by {
            lemma_alike_reflexive(env[j][key]);
        }
    }
}

/// Likeness of environments is transitive.
pub proof fn lemma_alike_env_transitive(a: Seq<Scope>, b: Seq<Scope>, c: Seq<Scope>)
    requires
        alike_env(a, b),
        alike_env(b, c),
    ensures
        alike_env(a, c),
{
    assert forall|j: int| 0 <= j < a.len() implies alike_scope(#[trigger] a[j], c[j]) by {
        assert(alike_scope(a[j], b[j]));
        assert(alike_scope(b[j], c[j]));
        assert forall|key: Seq<char>| a[j].contains_key(key) implies alike(
            #[trigger] a[j][key],
            c[j][key],
        ) by {
            assert(b[j].contains_key(key));
            assert(alike(a[j][key], b[j][key]));
            assert(alike(b[j][key], c[j][key]));
            lemma_alike_transitive(a[j][key], b[j][key], c[j][key]);
        }
    }
}

/// Every result is like itself.
pub proof fn lemma_alike_result_reflexive(a: Result<Option<DataView>, SchemeError>)
    ensures
        alike_result(a, a),
{
    match a {
        Ok(Some(x)) => {
            lemma_alike_reflexive(x);
        },
        _ => {},
    }
}

/// Likeness of results is transitive.
pub proof fn lemma_alike_result_transitive(
    a: Result<Option<DataView>, SchemeError>,
    b: Result<Option<DataView>, SchemeError>,
    c: Result<Option<DataView>, SchemeError>,
)
    requires
        alike_result(a, b),
        alike_result(b, c),
    ensures
        alike_result(a, c),
{
    match (a, b, c) {
        (Ok(Some(x)), Ok(Some(y)), Ok(Some(z))) => {
            lemma_alike_transitive(x, y, z);
        },
        _ => {},
    }
}

/// In alike environments a name is unbound in both or bound to alike values.
pub proof fn lemma_lookup_alike(a: Seq<Scope>, b: Seq<Scope>, key: Seq<char>)
    requires
        alike_env(a, b),
    ensures
        alike_option(lookup(a, key), lookup(b, key)),
    decreases a.len(),
{
    if a.len() > 0 {
        assert(alike_scope(a[0], b[0]));
        if a[0].contains_key(key) {
            assert(b[0].contains_key(key));
        } else {
            assert(!b[0].contains_key(key));
            let ra = a.skip(1);
            let rb = b.skip(1);
            assert forall|j: int| 0 <= j < ra.len() implies alike_scope(
                #[trigger] ra[j],
                rb[j],
            ) by {
                assert(alike_scope(a[j + 1], b[j + 1]));
            }
            lemma_lookup_alike(ra, rb, key);
        }
    }
}

/// Binding a name to alike values in alike environments leaves them alike.
pub proof fn lemma_bind_alike(
    a: Seq<Scope>,
    b: Seq<Scope>,
    key: Seq<char>,
    x: DataView,
    y: DataView,
)
    requires
        alike_env(a, b),
        alike(x, y),
        a.len() >= 1,
    ensures
        alike_env(bind(a, key, x), bind(b, key, y)),
{
    let a2 = bind(a, key, x);
    let b2 = bind(b, key, y);
    assert forall|j: int| 0 <= j < a2.len() implies alike_scope(#[trigger] a2[j], b2[j]) by {
        assert(alike_scope(a[j], b[j]));
        if j == 0 {
            assert(a2[0].dom() =~= b2[0].dom());
            assert forall|k: Seq<char>| a2[0].contains_key(k) implies alike(
                #[trigger] a2[0][k],
                b2[0][k],
            ) by {
                if k != key {
                    assert(a[0].contains_key(k));
                    assert(alike(a[0][k], b[0][k]));
                }
            }
        }
    }
}

/// Two outcomes of evaluation are alike: alike results, alike environments,
/// and as many lines of output.
pub open spec fn alike_evaluated(a: Evaluated, b: Evaluated) -> bool {
    &&& alike_result(a.result, b.result)
    &&& alike_env(a.env, b.env)
    &&& a.output.len() == b.output.len()
}

/// Two gatherings of arguments are alike: alike arguments, alike
/// environments, and as many lines of output.
pub open spec fn alike_gathered(a: Gathered, b: Gathered) -> bool {
    &&& all_alike(a.args, b.args)
    &&& alike_env(a.env, b.env)
    &&& a.output.len() == b.output.len()
}

/// Alike arguments hold the same integers, so their sums and products as
/// integers are the same, and they are all numbers, or all integers, together.
proof fn lemma_integers_alike(xs: Seq<DataView>, ys: Seq<DataView>)
    requires
        all_alike(xs, ys),
    ensures
        all_numbers(xs) == all_numbers(ys),
        all_integers(xs) == all_integers(ys),
        integer_sum(xs) == integer_sum(ys),
        integer_product(xs) == integer_product(ys),
    decreases xs.len(),
{
    assert forall|k: int| 0 <= k < xs.len() implies (xs[k] is Number) == (ys[k] is Number)
        && is_integer(xs[k]) == is_integer(ys[k]) by {
        assert(alike(xs[k], ys[k]));
    }
    if all_numbers(xs) {
        assert forall|k: int| 0 <= k < ys.len() implies #[trigger] ys[k] is Number by {
            assert(xs[k] is Number);
        }
    }
    if all_numbers(ys) {
        assert forall|k: int| 0 <= k < xs.len() implies #[trigger] xs[k] is Number by {
            assert(ys[k] is Number);
        }
    }
    if all_integers(xs) {
        assert forall|k: int| 0 <= k < ys.len() implies is_integer(#[trigger] ys[k]) by {
            assert(is_integer(xs[k]));
        }
    }
    if all_integers(ys) {
        assert forall|k: int| 0 <= k < xs.len() implies is_integer(#[trigger] xs[k]) by {
            assert(is_integer(ys[k]));
        }
    }
    if xs.len() > 0 {
        let xr = xs.drop_last();
        let yr = ys.drop_last();
        assert forall|k: int| 0 <= k < xr.len() implies alike(#[trigger] xr[k], yr[k]) by {
            assert(alike(xs[k], ys[k]));
        }
        lemma_integers_alike(xr, yr);
        assert(alike(xs[xs.len() - 1], ys[ys.len() - 1]));
        assert(integer_of(xs.last()) == integer_of(ys.last()));
    }
}

/// Applying a procedure to alike arguments fails in the same way or gives
/// alike values, whatever the floating-point models are; and it adds as many
/// lines to the output.
pub proof fn lemma_apply_alike(
    fm1: FloatModel,
    fm2: FloatModel,
    f: Function,
    xs: Seq<DataView>,
    ys: Seq<DataView>,
    out1: Seq<Seq<char>>,
    out2: Seq<Seq<char>>,
)
    requires
        all_alike(xs, ys),
        out1.len() == out2.len(),
    ensures
        failure(f, xs) == failure(f, ys),
        alike_result(apply(fm1, f, xs, out1).result, apply(fm2, f, ys, out2).result),
        apply(fm1, f, xs, out1).output.len() == apply(fm2, f, ys, out2).output.len(),
{
    lemma_integers_alike(xs, ys);
    if xs.len() > 0 {
        assert(alike(xs[0], ys[0]));
        assert(alike(xs[xs.len() - 1], ys[ys.len() - 1]));
    }
    match f {
        Function::List => {
            lemma_alike_lists(xs, ys);
        },
        Function::Car | Function::Cdr => {
            if xs.len() == 1 && xs[0] is List {
                let xl = xs[0]->List_0;
                let yl = ys[0]->List_0;
                lemma_alike_lists(xl, yl);
                if xl.len() > 0 {
                    assert(alike(xl[0], yl[0]));
                    assert forall|k: int| 0 <= k < xl.skip(1).len() implies alike(
                        #[trigger] xl.skip(1)[k],
                        yl.skip(1)[k],
                    ) by {
                        assert(alike(xl[k + 1], yl[k + 1]));
                    }
                    lemma_alike_lists(xl.skip(1), yl.skip(1));
                }
            }
        },
        _ => {},
    }
}

/// Evaluations that start alike end alike: in alike environments and with
/// as many lines of output, a form fails in the same way or gives alike
/// values, and leaves alike environments and as many lines of output,
/// whatever the floating-point models are. An evaluation keeps the number of
/// scopes.
pub proof fn lemma_eval_alike(
    fm1: FloatModel,
    fm2: FloatModel,
    ast: AstView,
    env1: Seq<Scope>,
    env2: Seq<Scope>,
    out1: Seq<Seq<char>>,
    out2: Seq<Seq<char>>,
)
    requires
        alike_env(env1, env2),
        env1.len() >= 1,
        out1.len() == out2.len(),
    ensures
        alike_evaluated(eval_spec(fm1, ast, env1, out1), eval_spec(fm2, ast, env2, out2)),
        eval_spec(fm1, ast, env1, out1).env.len() == env1.len(),
    decreases ast, 0int,
{
    match ast {
        AstView::Symbol(s) => {
            lemma_lookup_alike(env1, env2, s);
        },
        AstView::Children(items) => {
            if items.len() > 0 {
                match items[0] {
                    AstView::Symbol(head) => {
                        if head == "define"@ {
                            if is_definition(items) {
                                lemma_bind_alike(
                                    env1,
                                    env2,
                                    items[1]->Symbol_0,
                                    crate::eval::quoted(fm1, items[2])->0,
                                    crate::eval::quoted(fm2, items[2])->0,
                                );
                            }
                        } else {
                            lemma_lookup_alike(env1, env2, head);
                            match lookup(env1, head) {
                                Some(DataView::Proc(f)) => {
                                    lemma_eval_args_alike(
                                        fm1,
                                        fm2,
                                        items,
                                        1,
                                        Seq::empty(),
                                        Seq::empty(),
                                        env1,
                                        env2,
                                        out1,
                                        out2,
                                    );
                                    let g1 = eval_args(fm1, items, 1, Seq::empty(), env1, out1);
                                    let g2 = eval_args(fm2, items, 1, Seq::empty(), env2, out2);
                                    lemma_apply_alike(
                                        fm1,
                                        fm2,
                                        f,
                                        g1.args,
                                        g2.args,
                                        g1.output,
                                        g2.output,
                                    );
                                },
                                _ => {},
                            }
                        }
                    },
                    _ => {},
                }
            }
        },
        _ => {},
    }
}

/// Gathering the arguments of a call from alike states ends in alike states,
/// whatever the floating-point models are, and keeps the number of scopes.
pub proof fn lemma_eval_args_alike(
    fm1: FloatModel,
    fm2: FloatModel,
    items: Seq<AstView>,
    i: int,
    args1: Seq<DataView>,
    args2: Seq<DataView>,
    env1: Seq<Scope>,
    env2: Seq<Scope>,
    out1: Seq<Seq<char>>,
    out2: Seq<Seq<char>>,
)
    requires
        all_alike(args1, args2),
        alike_env(env1, env2),
        env1.len() >= 1,
        out1.len() == out2.len(),
    ensures
        alike_gathered(
            eval_args(fm1, items, i, args1, env1, out1),
            eval_args(fm2, items, i, args2, env2, out2),
        ),
        eval_args(fm1, items, i, args1, env1, out1).env.len() == env1.len(),
    decreases items, items.len() - i,
{
    if 0 <= i < items.len() {
        lemma_eval_alike(fm1, fm2, items[i], env1, env2, out1, out2);
        let e1 = eval_spec(fm1, items[i], env1, out1);
        let e2 = eval_spec(fm2, items[i], env2, out2);
        let next1 = match e1.result {
            Ok(Some(value)) => args1.push(value),
            _ => args1,
        };
        let next2 = match e2.result {
            Ok(Some(value)) => args2.push(value),
            _ => args2,
        };
        assert(all_alike(next1, next2)) by {
            assert forall|k: int| 0 <= k < next1.len() implies alike(
                #[trigger] next1[k],
                next2[k],
            ) by {
                if k < args1.len() {
                    assert(alike(args1[k], args2[k]));
                }
            }
        }
        lemma_eval_args_alike(
            fm1,
            fm2,
            items,
            i + 1,
            next1,
            next2,
            e1.env,
            e2.env,
            e1.output,
            e2.output,
        );
    }
}

/// Likeness of gatherings is transitive.
pub proof fn lemma_alike_gathered_transitive(a: Gathered, b: Gathered, c: Gathered)
    requires
        alike_gathered(a, b),
        alike_gathered(b, c),
    ensures
        alike_gathered(a, c),
{
    lemma_all_alike_transitive(a.args, b.args, c.args);
    lemma_alike_env_transitive(a.env, b.env, c.env);
}

} // verus!
