//! The evaluator: from a syntax tree and an environment to a value or a
//! failure.
//!
//! A failing argument does not fail the call that it stands in. An argument
//! whose evaluation fails, or gives no value, is left out of the argument
//! list, and the procedure is applied to the arguments that remain. What
//! such an argument did to the environment and to the output before it
//! failed stays done.

use vstd::prelude::*;
use crate::alike::{
    alike, alike_env, alike_evaluated, alike_gathered, all_alike, lemma_alike_env_reflexive,
    lemma_alike_gathered_transitive, lemma_alike_reflexive, lemma_alike_result_transitive,
    lemma_all_alike_reflexive, lemma_apply_alike, lemma_bind_alike, lemma_eval_args_alike,
};
use crate::ast::{ast_views, lemma_children_view, AstView, AST};
use crate::builtins::{apply, result_view};
use crate::env::{bind, lookup, Env, Scope};
use crate::error::SchemeError;
use crate::float::{prints, serves, FloatModel, FloatOp};
use crate::text::same_text;
use crate::value::{data_views, DataType, DataView, Number};

verus! {

/// What an evaluation ends in: its result, and the environment and the
/// output after it.
pub struct Evaluated {
    pub result: Result<Option<DataView>, SchemeError>,
    pub env: Seq<Scope>,
    pub output: Seq<Seq<char>>,
}

/// The arguments gathered for a call, and the environment and the output
/// after they were evaluated.
pub struct Gathered {
    pub args: Seq<DataView>,
    pub env: Seq<Scope>,
    pub output: Seq<Seq<char>>,
}

/// The value that `define` binds for a value form: the number of a literal,
/// and for a symbol that symbol itself, unevaluated. A list has none.
pub open spec fn quoted(fm: FloatModel, form: AstView) -> Option<DataView> {
    match form {
        AstView::Integer(i) => Some(DataView::Number(Number::Integer(i))),
        AstView::Float(text) => Some(DataView::Number(Number::Float(fm.parse(text)))),
        AstView::Symbol(s) => Some(DataView::Symbol(s)),
        AstView::Children(_) => None,
    }
}

/// The form is `(define <symbol> <literal-or-symbol>)`: three items, of which
/// the second is a symbol and the third is no list. The first is not looked
/// at here.
pub open spec fn is_definition(items: Seq<AstView>) -> bool {
    &&& items.len() == 3
    &&& items[1] is Symbol
    &&& !(items[2] is Children)
}

/// The outcome of evaluating `ast` in `env` where the output so far is
/// `output`.
///
/// * An integer literal is its number, a float literal the float that it
///   denotes; a symbol is what the nearest scope binds it to, and fails where
///   none binds it.
/// * The empty list fails, and so does a list whose head is no symbol.
/// * A list whose head is the symbol `define` binds a name in the innermost
///   scope and gives no value; it fails where it is no definition.
/// * Any other list is a call. Its head must be bound to a procedure. Its
///   other items are evaluated from left to right, each in the environment
///   and with the output that the one before left; those that give a value
///   are the arguments to which the procedure is applied.
pub open spec fn eval_spec(
    fm: FloatModel,
    ast: AstView,
    env: Seq<Scope>,
    output: Seq<Seq<char>>,
) -> Evaluated
    decreases ast, 0int,
{
    match ast {
        AstView::Integer(i) => Evaluated {
            result: Ok(Some(DataView::Number(Number::Integer(i)))),
            env,
            output,
        },
        AstView::Float(text) => Evaluated {
            result: Ok(Some(DataView::Number(Number::Float(fm.parse(text))))),
            env,
            output,
        },
        AstView::Symbol(s) => match lookup(env, s) {
            Some(value) => Evaluated { result: Ok(Some(value)), env, output },
            None => Evaluated { result: Err(SchemeError::UndefinedSymbol), env, output },
        },
        AstView::Children(items) => if items.len() == 0 {
            Evaluated { result: Err(SchemeError::EmptyForm), env, output }
        } else {
            match items[0] {
                AstView::Symbol(head) => if head == "define"@ {
                    if is_definition(items) {
                        Evaluated {
                            result: Ok(None),
                            env: bind(env, items[1]->Symbol_0, quoted(fm, items[2])->0),
                            output,
                        }
                    } else {
                        Evaluated { result: Err(SchemeError::MalformedDefine), env, output }
                    }
                } else {
                    match lookup(env, head) {
                        Some(DataView::Proc(f)) => {
                            let gathered = eval_args(fm, items, 1, Seq::empty(), env, output);
                            let applied = apply(fm, f, gathered.args, gathered.output);
                            Evaluated {
                                result: applied.result,
                                env: gathered.env,
                                output: applied.output,
                            }
                        },
                        _ => Evaluated { result: Err(SchemeError::NotAProcedure), env, output },
                    }
                },
                _ => Evaluated { result: Err(SchemeError::HeadNotSymbol), env, output },
            }
        },
    }
}

/// Evaluates the items of a call from index `i` on, from left to right.
/// `args` are the arguments gathered from the items before `i`. An item that
/// gives a value adds it to the arguments; one that fails or gives no value
/// adds nothing. Each item is evaluated in the environment and with the
/// output that the one before left.
pub open spec fn eval_args(
    fm: FloatModel,
    items: Seq<AstView>,
    i: int,
    args: Seq<DataView>,
    env: Seq<Scope>,
    output: Seq<Seq<char>>,
) -> Gathered
    decreases items, items.len() - i,
{
    if i < 0 || i >= items.len() {
        Gathered { args, env, output }
    } else {
        let item = eval_spec(fm, items[i], env, output);
        eval_args(
            fm,
            items,
            i + 1,
            match item.result {
                Ok(Some(value)) => args.push(value),
                _ => args,
            },
            item.env,
            item.output,
        )
    }
}

/// The form is a call: a list whose head is a symbol other than `define` that
/// is bound to a procedure.
pub open spec fn is_call(ast: AstView, env: Seq<Scope>) -> bool {
    &&& ast matches AstView::Children(items)
    &&& items.len() > 0
    &&& items[0] matches AstView::Symbol(head)
    &&& head != "define"@
    &&& lookup(env, head) matches Some(DataView::Proc(_))
}

/// Evaluating the form may need the floating-point unit: the form is a float
/// literal, a list of three items that ends in one, or a call.
pub open spec fn may_need_floats(ast: AstView, env: Seq<Scope>) -> bool {
    ||| ast is Float
    ||| (ast matches AstView::Children(items) && items.len() == 3 && items[2] is Float)
    ||| is_call(ast, env)
}

/// `r`, `env` and `out` as one outcome.
pub open spec fn outcome(
    r: Result<Option<DataType>, SchemeError>,
    env: Env,
    out: Vec<String>,
) -> Evaluated {
    Evaluated { result: result_view(r), env: env@, output: out.deep_view() }
}

/// Binds the name of a definition to the value of its value form.
fn define<A: Fn(FloatOp) -> u64>(items: &Vec<AST>, env: &mut Env, arith: &A) -> (r: Result<
    Option<DataType>,
    SchemeError,
>)
    requires
        serves(arith),
    ensures
        !is_definition(ast_views(items@)) ==> r == Err::<Option<DataType>, SchemeError>(
            SchemeError::MalformedDefine,
        ) && final(env)@ == old(env)@,
        is_definition(ast_views(items@)) ==> r == Ok::<Option<DataType>, SchemeError>(None),
        forall|fm: FloatModel|
            is_definition(ast_views(items@)) ==> alike_env(
                final(env)@,
                bind(
                    old(env)@,
                    ast_views(items@)[1]->Symbol_0,
                    (#[trigger] quoted(fm, ast_views(items@)[2]))->0,
                ),
            ),
        forall|fm: FloatModel|
            is_definition(ast_views(items@)) && (fm.computed_by(arith) || !(ast_views(
                items@,
            )[2] is Float)) ==> final(env)@ == bind(
                old(env)@,
                ast_views(items@)[1]->Symbol_0,
                (#[trigger] quoted(fm, ast_views(items@)[2]))->0,
            ),
{
    if items.len() != 3 {
        return Err(SchemeError::MalformedDefine);
    }
    match &items[1] {
        AST::Symbol(name) => {
            let value = match &items[2] {
                AST::Integer(i) => DataType::Number(Number::Integer(*i)),
                AST::Float(text) => DataType::Number(
                    Number::Float(arith(FloatOp::Parse(text.clone()))),
                ),
                AST::Symbol(s) => DataType::Symbol(s.clone()),
                AST::Children(_) => {
                    return Err(SchemeError::MalformedDefine);
                },
            };
            proof {
                env.lemma_has_scope();
                lemma_alike_env_reflexive(env@);
                assert forall|fm: FloatModel|
                    alike_env(
                        bind(env@, name@, value@),
                        bind(env@, name@, (#[trigger] quoted(fm, ast_views(items@)[2]))->0),
                    ) by {
                    lemma_alike_reflexive(value@);
                    lemma_bind_alike(
                        env@,
                        env@,
                        name@,
                        value@,
                        quoted(fm, ast_views(items@)[2])->0,
                    );
                }
            }
            env.define(name.clone(), value);
            Ok(None)
        },
        _ => Err(SchemeError::MalformedDefine),
    }
}

/// Evaluates a form in an environment. Lines that `print` writes are added
/// to `out`; a definition changes the innermost scope of `env`.
///
/// Whatever `arith` and `show` do, the outcome is like the one that
/// `eval_spec` gives, for every floating-point model: it is the same failure
/// or a value that is the same but for the bits of its floats, the
/// environment is the same but for the bits of its floats, and the output
/// has as many lines. For every model that `arith` and `show` compute, the
/// outcome is the one that `eval_spec` gives; and so it is for every model
/// where the form cannot need the floating-point unit.
pub fn eval<A: Fn(FloatOp) -> u64, S: Fn(u64) -> String>(
    ast: &AST,
    env: &mut Env,
    out: &mut Vec<String>,
    arith: &A,
    show: &S,
) -> (r: Result<Option<DataType>, SchemeError>)
    requires
        serves(arith),
        prints(show),
    ensures
        forall|fm: FloatModel|
            alike_evaluated(
                outcome(r, *final(env), *final(out)),
                #[trigger] eval_spec(fm, ast@, old(env)@, old(out).deep_view()),
            ),
        forall|fm: FloatModel|
            fm.describes(arith, show) || !may_need_floats(ast@, old(env)@) ==> outcome(
                r,
                *final(env),
                *final(out),
            ) == #[trigger] eval_spec(fm, ast@, old(env)@, old(out).deep_view()),
    decreases ast, 1int,
{
    proof {
        env.lemma_has_scope();
        lemma_alike_env_reflexive(env@);
    }
    match ast {
        AST::Integer(i) => Ok(Some(DataType::Number(Number::Integer(*i)))),
        AST::Float(text) => {
            let bits = arith(FloatOp::Parse(text.clone()));
            Ok(Some(DataType::Number(Number::Float(bits))))
        },
        AST::Symbol(s) => {
            match env.get(s.as_str()) {
                Some(value) => {
                    proof {
                        lemma_alike_reflexive(value@);
                    }
                    Ok(Some(value))
                },
                None => Err(SchemeError::UndefinedSymbol),
            }
        },
        AST::Children(items) => {
            proof {
                lemma_children_view(*items);
            }
            if items.len() == 0 {
                return Err(SchemeError::EmptyForm);
            }
            match &items[0] {
                AST::Symbol(head) => {
                    if same_text(head.as_str(), "define") {
                        let r = define(items, env, arith);
                        proof {
                            assert forall|fm: FloatModel|
                                fm.describes(arith, show) || !may_need_floats(
                                    ast@,
                                    old(env)@,
                                ) implies outcome(r, *env, *out) == #[trigger] eval_spec(
                                fm,
                                ast@,
                                old(env)@,
                                old(out).deep_view(),
                            ) by {
                                if is_definition(ast_views(items@)) {
                                    let value = quoted(fm, ast_views(items@)[2]);
                                    assert(env@ == bind(
                                        old(env)@,
                                        ast_views(items@)[1]->Symbol_0,
                                        value->0,
                                    ));
                                }
                            }
                        }
                        r
                    } else {
                        match env.get(head.as_str()) {
                            Some(DataType::Proc(f)) => {
                                let args = gather(ast, items, env, out, arith, show);
                                let ghost before = out.deep_view();
                                let ghost views = ast_views(items@);
                                let r = f.call(args, out, arith, show);
                                proof {
                                    assert forall|fm: FloatModel|
                                        fm.describes(arith, show) implies outcome(r, *env, *out)
                                        == #[trigger] eval_spec(
                                        fm,
                                        ast@,
                                        old(env)@,
                                        old(out).deep_view(),
                                    ) by {}
                                    assert forall|fm: FloatModel|
                                        alike_evaluated(
                                            outcome(r, *env, *out),
                                            #[trigger] eval_spec(
                                                fm,
                                                ast@,
                                                old(env)@,
                                                old(out).deep_view(),
                                            ),
                                        ) by {
                                        let gathered = eval_args(
                                            fm,
                                            views,
                                            1,
                                            Seq::empty(),
                                            old(env)@,
                                            old(out).deep_view(),
                                        );
                                        let here = apply(fm, f, data_views(args@), before);
                                        let there = apply(fm, f, gathered.args, gathered.output);
                                        lemma_apply_alike(
                                            fm,
                                            fm,
                                            f,
                                            data_views(args@),
                                            gathered.args,
                                            before,
                                            gathered.output,
                                        );
                                        lemma_alike_result_transitive(
                                            result_view(r),
                                            here.result,
                                            there.result,
                                        );
                                    }
                                }
                                r
                            },
                            _ => Err(SchemeError::NotAProcedure),
                        }
                    }
                },
                _ => Err(SchemeError::HeadNotSymbol),
            }
        },
    }
}

/// `args`, `env` and `out` as one gathering of arguments.
pub open spec fn gathering(args: Vec<DataType>, env: Env, out: Vec<String>) -> Gathered {
    Gathered { args: data_views(args@), env: env@, output: out.deep_view() }
}

/// Evaluates the items of a call after its head, from left to right, and
/// gathers the values that they give.
fn gather<A: Fn(FloatOp) -> u64, S: Fn(u64) -> String>(
    ast: &AST,
    items: &Vec<AST>,
    env: &mut Env,
    out: &mut Vec<String>,
    arith: &A,
    show: &S,
) -> (args: Vec<DataType>)
    requires
        serves(arith),
        prints(show),
        *ast == AST::Children(*items),
        items.len() >= 1,
    ensures
        forall|fm: FloatModel|
            alike_gathered(
                gathering(args, *final(env), *final(out)),
                #[trigger] eval_args(
                    fm,
                    ast_views(items@),
                    1,
                    Seq::empty(),
                    old(env)@,
                    old(out).deep_view(),
                ),
            ),
        forall|fm: FloatModel| #[trigger]
            fm.describes(arith, show) ==> gathering(args, *final(env), *final(out)) == eval_args(
                fm,
                ast_views(items@),
                1,
                Seq::empty(),
                old(env)@,
                old(out).deep_view(),
            ),
    decreases ast, 0int,
{
    let ghost views = ast_views(items@);
    let mut args: Vec<DataType> = Vec::new();
    let mut i: usize = 1;
    proof {
        assert(data_views(args@) =~= Seq::<DataView>::empty());
        env.lemma_has_scope();
        assert forall|fm: FloatModel|
            alike_gathered(
                #[trigger] eval_args(fm, views, 1, data_views(args@), env@, out.deep_view()),
                eval_args(fm, views, 1, Seq::empty(), env@, out.deep_view()),
            ) by {
            lemma_all_alike_reflexive(Seq::<DataView>::empty());
            lemma_alike_env_reflexive(env@);
            lemma_eval_args_alike(
                fm,
                fm,
                views,
                1,
                Seq::empty(),
                Seq::empty(),
                env@,
                env@,
                out.deep_view(),
                out.deep_view(),
            );
        }
    }
    while i < items.len()
        invariant
            serves(arith),
            prints(show),
            *ast == AST::Children(*items),
            views == ast_views(items@),
            1 <= i <= items.len(),
            forall|fm: FloatModel|
                alike_gathered(
                    eval_args(fm, views, i as int, data_views(args@), env@, out.deep_view()),
                    #[trigger] eval_args(
                        fm,
                        views,
                        1,
                        Seq::empty(),
                        old(env)@,
                        old(out).deep_view(),
                    ),
                ),
            forall|fm: FloatModel| #[trigger]
                fm.describes(arith, show) ==> eval_args(
                    fm,
                    views,
                    i as int,
                    data_views(args@),
                    env@,
                    out.deep_view(),
                ) == eval_args(fm, views, 1, Seq::empty(), old(env)@, old(out).deep_view()),
        decreases items.len() - i,
    {
        assert(ast->Children_0 == *items);
        let ghost args0 = data_views(args@);
        let ghost env0 = env@;
        let ghost out0 = out.deep_view();
        let r = eval(&items[i], env, out, arith, show);
        proof {
            env.lemma_has_scope();
        }
        let ghost r_view = result_view(r);
        match r {
            Ok(Some(value)) => {
                args.push(value);
                assert(data_views(args@) =~= args0.push(value@));
            },
            _ => {},
        }
        proof {
            assert forall|fm: FloatModel| #[trigger] fm.describes(arith, show) implies eval_args(
                fm,
                views,
                i + 1,
                data_views(args@),
                env@,
                out.deep_view(),
            ) == eval_args(fm, views, i as int, args0, env0, out0) by {
                let item = eval_spec(fm, views[i as int], env0, out0);
                assert(outcome(r, *env, *out) == item);
            }
            assert forall|fm: FloatModel|
                alike_gathered(
                    eval_args(fm, views, i + 1, data_views(args@), env@, out.deep_view()),
                    #[trigger] eval_args(
                        fm,
                        views,
                        1,
                        Seq::empty(),
                        old(env)@,
                        old(out).deep_view(),
                    ),
                ) by {
                let item = eval_spec(fm, views[i as int], env0, out0);
                let next = match item.result {
                    Ok(Some(value)) => args0.push(value),
                    _ => args0,
                };
                lemma_all_alike_reflexive(args0);
                assert(all_alike(data_views(args@), next)) by {
                    assert forall|k: int| 0 <= k < next.len() implies alike(
                        #[trigger] data_views(args@)[k],
                        next[k],
                    ) by {
                        if k < args0.len() {
                            assert(alike(args0[k], args0[k]));
                        }
                    }
                }
                lemma_eval_args_alike(
                    fm,
                    fm,
                    views,
                    i + 1,
                    data_views(args@),
                    next,
                    env@,
                    item.env,
                    out.deep_view(),
                    item.output,
                );
                lemma_alike_gathered_transitive(
                    eval_args(fm, views, i + 1, data_views(args@), env@, out.deep_view()),
                    eval_args(fm, views, i as int, args0, env0, out0),
                    eval_args(fm, views, 1, Seq::empty(), old(env)@, old(out).deep_view()),
                );
            }
        }
        i += 1;
    }
    args
}

} // verus!
