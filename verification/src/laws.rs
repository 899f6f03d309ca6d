//! What holds of the library as a whole: properties of the specification
//! functions that the contracts of the executable functions speak of.

use vstd::prelude::*;
use crate::alike::{
    alike, alike_evaluated, lemma_alike_env_reflexive, lemma_alike_lists, lemma_eval_alike,
};
use crate::ast::AstView;
use crate::builtins::{all_integers, all_numbers, apply, integer_sum, value_of, Applied};
use crate::env::{bind, lookup, Env, Scope};
use crate::error::{ErrorKind, SchemeError};
use crate::eval::{eval_args, eval_spec, is_call, Evaluated};
use crate::float::{FloatModel, NEG_ONE_BITS};
use crate::literal::{decimal_value, digit_value, digits_end, integer_literal, sign_len};
use crate::numeric::{lemma_wrap_mul, wrap};
use crate::printer::{integer_text, natural_text};
use crate::reader::{close_token, lemma_read_advances, open_token, read_form, read_items};
use crate::text::{is_digit, is_paren, is_space};
use crate::tokenizer::{
    is_word_char, lemma_run_end_bounds, lemma_word_end_bounds, padded, run_end, runs_from,
    tokens_from, tokens_of, word_end,
};
use crate::value::{float_free, float_free_upto, DataView, Function, Number};

verus! {

/// The result of `+`, `*` and `-` on numbers is an integer if and only if
/// every argument is an integer, and a float otherwise; the result of `/` is
/// always a float. None of the four fails on numbers, and each fails where an
/// argument is no number.
pub proof fn law_numeric_tower(
    fm: FloatModel,
    f: Function,
    args: Seq<DataView>,
    output: Seq<Seq<char>>,
)
    requires
        f == Function::Add || f == Function::Multiply || f == Function::Subtract || f
            == Function::Divide,
    ensures
        !all_numbers(args) ==> apply(fm, f, args, output).result == Err::<
            Option<DataView>,
            SchemeError,
        >(SchemeError::NotANumber),
        all_numbers(args) ==> (apply(fm, f, args, output).result matches Ok(
            Some(DataView::Number(n)),
        ) && (n is Integer <==> f != Function::Divide && all_integers(args))),
        apply(fm, f, args, output).output == output,
{
}

/// `-` gives the negation of what `+` gives on the same arguments: it sums
/// first and then changes the sign. On integers the negation wraps as the sum
/// does; on floats it is the product with minus one.
pub proof fn law_minus_negates_sum(fm: FloatModel, args: Seq<DataView>)
    requires
        all_numbers(args),
    ensures
        value_of(fm, Function::Add, args) matches Some(DataView::Number(sum)) && value_of(
            fm,
            Function::Subtract,
            args,
        ) == Some(
            DataView::Number(
                match sum {
                    Number::Integer(i) => Number::Integer(wrap(-(i as int))),
                    Number::Float(bits) => Number::Float(fm.product(bits, NEG_ONE_BITS)),
                },
            ),
        ),
{
    if all_integers(args) {
        let total = integer_sum(args);
        lemma_wrap_mul(total, -1i64);
        assert(total * (-1i64) == -total);
        assert((wrap(total) as int) * (-1i64) == -(wrap(total) as int));
    }
}

/// A list keeps its elements in their order: `car` of the list of some
/// values is the first of them, `cdr` is the list of those after the first.
/// On the list of no values both fail.
pub proof fn law_car_cdr_of_list(fm: FloatModel, elements: Seq<DataView>, output: Seq<Seq<char>>)
    ensures
        value_of(fm, Function::List, elements) == Some(DataView::List(elements)),
        elements.len() > 0 ==> apply(
            fm,
            Function::Car,
            seq![DataView::List(elements)],
            output,
        ) == (Applied { result: Ok(Some(elements[0])), output }),
        elements.len() > 0 ==> apply(
            fm,
            Function::Cdr,
            seq![DataView::List(elements)],
            output,
        ) == (Applied { result: Ok(Some(DataView::List(elements.skip(1)))), output }),
        elements.len() == 0 ==> apply(
            fm,
            Function::Car,
            seq![DataView::List(elements)],
            output,
        ) == (Applied { result: Err(SchemeError::CarEmptyList), output }),
        elements.len() == 0 ==> apply(
            fm,
            Function::Cdr,
            seq![DataView::List(elements)],
            output,
        ) == (Applied { result: Err(SchemeError::CdrEmptyList), output }),
{
}

/// Floating-point arithmetic decides no outcome but for the bits of floats
/// and the text of printed lines: for any two floating-point models an
/// evaluation fails in the same way or gives alike values, leaves alike
/// environments, and writes as many lines.
pub proof fn law_outcomes_are_alike_for_all_models(
    fm1: FloatModel,
    fm2: FloatModel,
    ast: AstView,
    env: Env,
    output: Seq<Seq<char>>,
)
    ensures
        alike_evaluated(eval_spec(fm1, ast, env@, output), eval_spec(fm2, ast, env@, output)),
{
    env.lemma_has_scope();
    lemma_alike_env_reflexive(env@);
    lemma_eval_alike(fm1, fm2, ast, env@, env@, output, output);
}

/// Likeness pins a value that holds no float: what is like it is equal to
/// it.
pub proof fn law_alike_without_floats_is_equal(a: DataView, b: DataView)
    requires
        alike(a, b),
        float_free(a),
    ensures
        a == b,
    decreases a,
{
    match (a, b) {
        (DataView::List(xs), DataView::List(ys)) => {
            lemma_alike_lists(xs, ys);
            assert forall|k: int| 0 <= k < xs.len() implies xs[k] == ys[k] by {
                lemma_float_free_upto(xs, xs.len() as int, k);
                assert(alike(xs[k], ys[k]));
                law_alike_without_floats_is_equal(xs[k], ys[k]);
            }
            assert(xs =~= ys);
        },
        _ => {},
    }
}

proof fn lemma_float_free_upto(xs: Seq<DataView>, k: int, j: int)
    requires
        0 <= j < k <= xs.len(),
        float_free_upto(xs, k),
    ensures
        float_free(xs[j]),
    decreases k,
{
    if j < k - 1 {
        lemma_float_free_upto(xs, k - 1, j);
    }
}

/// Evaluating a symbol that no scope binds fails with a name error and
/// leaves the environment and the output as they were, so that evaluation
/// can go on with the next form.
pub proof fn law_undefined_symbol(
    fm: FloatModel,
    name: Seq<char>,
    env: Seq<Scope>,
    output: Seq<Seq<char>>,
)
    requires
        lookup(env, name) is None,
    ensures
        eval_spec(fm, AstView::Symbol(name), env, output) == (Evaluated {
            result: Err(SchemeError::UndefinedSymbol),
            env,
            output,
        }),
        SchemeError::UndefinedSymbol.spec_kind() == ErrorKind::Name,
{
}

/// A failure never changes the environment or the output, except for what
/// the arguments of a call did before the procedure failed.
pub proof fn law_failure_outside_a_call_changes_nothing(
    fm: FloatModel,
    ast: AstView,
    env: Seq<Scope>,
    output: Seq<Seq<char>>,
)
    requires
        eval_spec(fm, ast, env, output).result is Err,
        !is_call(ast, env),
    ensures
        eval_spec(fm, ast, env, output).env == env,
        eval_spec(fm, ast, env, output).output == output,
{
}

/// Lookup resolves a name to the nearest scope that binds it: where scope
/// `k` binds the name and no scope before it does, the name is what scope
/// `k` binds it to.
pub proof fn law_lookup_nearest(scopes: Seq<Scope>, key: Seq<char>, k: int)
    requires
        0 <= k < scopes.len(),
        scopes[k].contains_key(key),
        forall|j: int| 0 <= j < k ==> !scopes[j].contains_key(key),
    ensures
        lookup(scopes, key) == Some(scopes[k][key]),
    decreases k,
{
    if k > 0 {
        let rest = scopes.skip(1);
        assert forall|j: int| 0 <= j < k - 1 implies !rest[j].contains_key(key) by {
            assert(rest[j] == scopes[j + 1]);
        }
        law_lookup_nearest(rest, key, k - 1);
    }
}

/// Lookup fails exactly where no scope binds the name.
pub proof fn law_lookup_unbound(scopes: Seq<Scope>, key: Seq<char>)
    ensures
        lookup(scopes, key) is None <==> forall|j: int|
            0 <= j < scopes.len() ==> !scopes[j].contains_key(key),
    decreases scopes.len(),
{
    if scopes.len() > 0 {
        let rest = scopes.skip(1);
        law_lookup_unbound(rest, key);
        if !scopes[0].contains_key(key) {
            if lookup(rest, key) is None {
                assert forall|j: int| 0 <= j < scopes.len() implies !scopes[j].contains_key(
                    key,
                ) by {
                    if j > 0 {
                        assert(scopes[j] == rest[j - 1]);
                    }
                }
            } else {
                let j = choose|j: int| 0 <= j < rest.len() && rest[j].contains_key(key);
                assert(scopes[j + 1] == rest[j]);
            }
        }
    }
}

/// A definition writes the innermost scope and no other: afterwards the name
/// is bound to the value, every other name is bound as before, and every
/// enclosing scope is as it was.
pub proof fn law_define_is_local(env: Env, name: Seq<char>, value: DataView, other: Seq<char>)
    requires
        other != name,
    ensures
        lookup(bind(env@, name, value), name) == Some(value),
        lookup(bind(env@, name, value), other) == lookup(env@, other),
        bind(env@, name, value).len() == env@.len(),
        forall|j: int| 1 <= j < env@.len() ==> bind(env@, name, value)[j] == env@[j],
{
    env.lemma_has_scope();
    assert(bind(env@, name, value).skip(1) =~= env@.skip(1));
}

/// An argument whose evaluation fails or gives no value is left out of the
/// argument list, and the arguments after it are evaluated all the same, in
/// the environment and with the output that it left.
pub proof fn law_argument_without_value_is_left_out(
    fm: FloatModel,
    items: Seq<AstView>,
    i: int,
    args: Seq<DataView>,
    env: Seq<Scope>,
    output: Seq<Seq<char>>,
)
    requires
        0 <= i < items.len(),
        !(eval_spec(fm, items[i], env, output).result matches Ok(Some(_))),
    ensures
        eval_args(fm, items, i, args, env, output) == eval_args(
            fm,
            items,
            i + 1,
            args,
            eval_spec(fm, items[i], env, output).env,
            eval_spec(fm, items[i], env, output).output,
        ),
{
}

/// Reading a list goes on after each of its items: where a form is read at an
/// index that holds no `)`, the rest of the list is read from the end of that
/// form, with the form added to the items.
pub proof fn law_list_items_are_read_in_turn(
    tokens: Seq<Seq<char>>,
    pos: int,
    items: Seq<AstView>,
)
    requires
        0 <= pos < tokens.len(),
        tokens[pos] != close_token(),
    ensures
        read_items(tokens, pos, items) == match read_form(tokens, pos) {
            Err(e) => Err(e),
            Ok((item, next)) => read_items(tokens, next, items.push(item)),
        },
{
    lemma_read_advances(tokens, pos);
}

/// A list that is never closed cannot be read: where the first token is `(`
/// and no token is `)`, reading fails because the tokens run out.
pub proof fn law_unclosed_list_is_unterminated(tokens: Seq<Seq<char>>)
    requires
        tokens.len() > 0,
        tokens[0] == open_token(),
        forall|i: int| 0 <= i < tokens.len() ==> tokens[i] != close_token(),
    ensures
        read_form(tokens, 0) == Err::<(AstView, int), SchemeError>(SchemeError::UnterminatedList),
{
    lemma_no_close_no_list(tokens, 1);
    assert(read_items(tokens, 1, Seq::empty()) is Err);
}

/// Without a `)` the rest of a list cannot be read.
proof fn lemma_no_close_no_list(tokens: Seq<Seq<char>>, pos: int)
    requires
        0 <= pos,
        forall|i: int| 0 <= i < tokens.len() ==> tokens[i] != close_token(),
    ensures
        forall|items: Seq<AstView>| #[trigger]
            read_items(tokens, pos, items) == Err::<(AstView, int), SchemeError>(
                SchemeError::UnterminatedList,
            ),
    decreases tokens.len() - pos,
{
    if pos < tokens.len() {
        if tokens[pos] == open_token() {
            lemma_no_close_no_list(tokens, pos + 1);
            assert(read_items(tokens, pos + 1, Seq::empty()) is Err);
        }
        assert forall|items: Seq<AstView>| #[trigger]
            read_items(tokens, pos, items) == Err::<(AstView, int), SchemeError>(
                SchemeError::UnterminatedList,
            ) by {
            match read_form(tokens, pos) {
                Err(e) => {},
                Ok((item, next)) => {
                    if pos < next <= tokens.len() {
                        lemma_no_close_no_list(tokens, next);
                        assert(read_items(tokens, next, items.push(item)) is Err);
                    }
                },
            }
        }
    }
}

/// What is printed for an integer reads back as that integer: the decimal
/// text of a 64-bit integer is an integer literal of it.
pub proof fn law_integer_text_reads_back(i: i64)
    ensures
        integer_literal(integer_text(i as int)) == Some(i),
{
    let text = integer_text(i as int);
    let magnitude: nat = if i < 0 {
        (-i) as nat
    } else {
        i as nat
    };
    let digits = natural_text(magnitude);
    lemma_natural_text(magnitude);
    assert(is_digit(digits[0]));
    if i < 0 {
        assert(text == seq!['-'] + digits);
        assert(text[0] == '-');
        assert(text.subrange(1, text.len() as int) =~= digits);
        lemma_digits_to_the_end(text, 1);
    } else {
        assert(sign_len(text) == 0);
        assert(text.subrange(0, text.len() as int) =~= digits);
        lemma_digits_to_the_end(text, 0);
    }
}

/// The decimal text of a natural number is made of digits, of at least one,
/// and denotes that number.
proof fn lemma_natural_text(n: nat)
    ensures
        natural_text(n).len() >= 1,
        forall|k: int| 0 <= k < natural_text(n).len() ==> is_digit(#[trigger] natural_text(n)[k]),
        decimal_value(natural_text(n)) == n,
    decreases n,
{
    let text = natural_text(n);
    if n < 10 {
        assert(text.drop_last() =~= Seq::<char>::empty());
        assert(decimal_value(text) == 10 * decimal_value(text.drop_last()) + digit_value(
            text.last(),
        ));
    } else {
        lemma_natural_text(n / 10);
        assert(text.drop_last() =~= natural_text(n / 10));
    }
}

/// Where every character from an index on is a digit, the run of digits from
/// that index ends with the text.
proof fn lemma_digits_to_the_end(s: Seq<char>, i: int)
    requires
        0 <= i <= s.len(),
        forall|k: int| i <= k < s.len() ==> is_digit(#[trigger] s[k]),
    ensures
        digits_end(s, i) == s.len(),
    decreases s.len() - i,
{
    if i < s.len() {
        lemma_digits_to_the_end(s, i + 1);
    }
}

/// The shape of a token: it is not empty and holds no white space, and it is
/// either a parenthesis alone or holds no parenthesis.
pub open spec fn is_token(t: Seq<char>) -> bool {
    &&& t.len() > 0
    &&& forall|i: int| 0 <= i < t.len() ==> !is_space(#[trigger] t[i])
    &&& t.len() == 1 || forall|i: int| 0 <= i < t.len() ==> !is_paren(#[trigger] t[i])
}

/// Every token that the tokenizer gives has the shape of a token.
pub proof fn law_tokens_are_tokens(s: Seq<char>, k: int)
    requires
        0 <= k < tokens_of(s).len(),
    ensures
        is_token(tokens_of(s)[k]),
{
    lemma_tokens_from_are_tokens(s, 0, k);
}

proof fn lemma_word_chars(s: Seq<char>, i: int, j: int)
    requires
        0 <= i <= j < word_end(s, i),
    ensures
        j < s.len(),
        is_word_char(s[j]),
    decreases s.len() - i,
{
    if i < s.len() && is_word_char(s[i]) {
        if i < j {
            lemma_word_chars(s, i + 1, j);
        }
    }
}

proof fn lemma_tokens_from_are_tokens(s: Seq<char>, i: int, k: int)
    requires
        0 <= i,
        0 <= k < tokens_from(s, i).len(),
    ensures
        is_token(tokens_from(s, i)[k]),
    decreases s.len() - i,
{
    if i < s.len() {
        if is_space(s[i]) {
            lemma_tokens_from_are_tokens(s, i + 1, k);
        } else if is_paren(s[i]) {
            if k > 0 {
                lemma_tokens_from_are_tokens(s, i + 1, k - 1);
            }
        } else {
            let end = word_end(s, i);
            lemma_word_end_bounds(s, i + 1);
            if k > 0 {
                lemma_tokens_from_are_tokens(s, end, k - 1);
            } else {
                let word = s.subrange(i, end);
                assert forall|j: int| 0 <= j < word.len() implies is_word_char(
                    #[trigger] word[j],
                ) by {
                    lemma_word_chars(s, i, i + j);
                }
            }
        }
    }
}

/// Tokenizing is putting a space on both sides of every parenthesis and then
/// splitting the text at white space.
pub proof fn law_tokens_are_runs_of_padded_text(s: Seq<char>)
    ensures
        tokens_of(s) == runs_from(padded(s), 0),
{
    lemma_tokens_from_are_runs(s, 0);
    assert(s.skip(0) =~= s);
}

/// The runs from an index on are the runs of the text from that index on.
proof fn lemma_runs_of_suffix(t: Seq<char>, i: int)
    requires
        0 <= i <= t.len(),
    ensures
        runs_from(t, i) == runs_from(t.skip(i), 0),
    decreases t.len() - i,
{
    let tail = t.skip(i);
    if i < t.len() {
        if is_space(t[i]) {
            lemma_runs_of_suffix(t, i + 1);
            lemma_runs_of_suffix(tail, 1);
            assert(tail.skip(1) =~= t.skip(i + 1));
        } else {
            let end = run_end(t, i);
            lemma_run_end_bounds(t, i + 1);
            lemma_run_end_of_suffix(t, i, i);
            lemma_runs_of_suffix(t, end);
            lemma_run_end_bounds(tail, 1);
            lemma_runs_of_suffix(tail, end - i);
            assert(tail.skip(end - i) =~= t.skip(end));
            assert(tail.subrange(0, end - i) =~= t.subrange(i, end));
        }
    }
}

/// Where a run ends does not depend on what stands before it.
proof fn lemma_run_end_of_suffix(t: Seq<char>, i: int, j: int)
    requires
        0 <= i <= j <= t.len(),
    ensures
        run_end(t, j) == i + run_end(t.skip(i), j - i),
    decreases t.len() - j,
{
    if j < t.len() && !is_space(t[j]) {
        lemma_run_end_of_suffix(t, i, j + 1);
    }
}

/// A run that starts with characters that are no white space, followed by
/// nothing or by white space, ends where those characters end.
proof fn lemma_run_end_of_word(word: Seq<char>, rest: Seq<char>, j: int)
    requires
        0 <= j <= word.len(),
        forall|k: int| 0 <= k < word.len() ==> !is_space(#[trigger] word[k]),
        rest.len() == 0 || is_space(rest[0]),
    ensures
        run_end(word + rest, j) == word.len(),
    decreases word.len() - j,
{
    let t = word + rest;
    if j < word.len() {
        assert(t[j] == word[j]);
        lemma_run_end_of_word(word, rest, j + 1);
    } else if rest.len() > 0 {
        assert(t[j] == rest[0]);
    }
}

/// Padding leaves a run of word characters as it is, and what follows it in
/// the padded text is nothing or white space.
proof fn lemma_padded_word(s: Seq<char>, i: int)
    requires
        0 <= i <= s.len(),
    ensures
        padded(s.skip(i)) == s.subrange(i, word_end(s, i)) + padded(s.skip(word_end(s, i))),
        padded(s.skip(word_end(s, i))).len() == 0 || is_space(padded(s.skip(word_end(s, i)))[0]),
    decreases s.len() - i,
{
    let end = word_end(s, i);
    let tail = s.skip(i);
    if i < s.len() && is_word_char(s[i]) {
        lemma_padded_word(s, i + 1);
        lemma_word_end_bounds(s, i + 1);
        assert(tail.skip(1) =~= s.skip(i + 1));
        assert(seq![s[i]] + s.subrange(i + 1, end) =~= s.subrange(i, end));
        assert(seq![s[i]] + (s.subrange(i + 1, end) + padded(s.skip(end))) =~= (seq![s[i]]
            + s.subrange(i + 1, end)) + padded(s.skip(end)));
    } else {
        assert(s.subrange(i, i) + padded(tail) =~= padded(tail));
        if i < s.len() {
            assert(tail[0] == s[i]);
        }
    }
}

proof fn lemma_tokens_from_are_runs(s: Seq<char>, i: int)
    requires
        0 <= i <= s.len(),
    ensures
        tokens_from(s, i) == runs_from(padded(s.skip(i)), 0),
    decreases s.len() - i,
{
    let tail = s.skip(i);
    let text = padded(tail);
    if i < s.len() {
        assert(tail[0] == s[i]);
        assert(tail.skip(1) =~= s.skip(i + 1));
        let rest = padded(s.skip(i + 1));
        if is_space(s[i]) {
            lemma_tokens_from_are_runs(s, i + 1);
            assert(text == seq![s[i]] + rest);
            lemma_runs_of_suffix(text, 1);
            assert(text.skip(1) =~= rest);
        } else if is_paren(s[i]) {
            lemma_tokens_from_are_runs(s, i + 1);
            assert(text == seq![' ', s[i], ' '] + rest);
            assert(is_space(' '));
            assert(run_end(text, 2) == 2);
            assert(run_end(text, 1) == 2);
            assert(text.subrange(1, 2) =~= seq![s[i]]);
            lemma_runs_of_suffix(text, 3);
            assert(text.skip(3) =~= rest);
            assert(runs_from(text, 2) == runs_from(text, 3));
            assert(runs_from(text, 0) == runs_from(text, 1));
        } else {
            let end = word_end(s, i);
            let word = s.subrange(i, end);
            let after = padded(s.skip(end));
            lemma_word_end_bounds(s, i + 1);
            lemma_padded_word(s, i);
            lemma_tokens_from_are_runs(s, end);
            assert forall|k: int| 0 <= k < word.len() implies !is_space(#[trigger] word[k]) by {
                lemma_word_chars(s, i, i + k);
            }
            lemma_run_end_of_word(word, after, 0);
            assert(text[0] == word[0]);
            assert(text.subrange(0, word.len() as int) =~= word);
            lemma_runs_of_suffix(text, word.len() as int);
            assert(text.skip(word.len() as int) =~= after);
        }
    } else {
        assert(tail =~= Seq::<char>::empty());
    }
}

/// Tokenizing loses nothing but white space: the tokens, put one after
/// another, are the text without its white space.
pub proof fn law_tokens_keep_all_but_space(s: Seq<char>)
    ensures
        tokens_of(s).flatten() == s.filter(|c: char| !is_space(c)),
{
    lemma_tokens_from_flatten(s, 0);
    assert(s.skip(0) =~= s);
}

proof fn lemma_tokens_from_flatten(s: Seq<char>, i: int)
    requires
        0 <= i <= s.len(),
    ensures
        tokens_from(s, i).flatten() == s.skip(i).filter(|c: char| !is_space(c)),
    decreases s.len() - i,
{
    let keep = |c: char| !is_space(c);
    if i >= s.len() {
        assert(s.skip(i) =~= Seq::<char>::empty());
        assert(tokens_from(s, i) =~= Seq::<Seq<char>>::empty());
        assert(Seq::<char>::empty().filter(keep) =~= Seq::<char>::empty());
        assert(Seq::<Seq<char>>::empty().flatten() =~= Seq::<char>::empty());
    } else if is_space(s[i]) {
        lemma_tokens_from_flatten(s, i + 1);
        assert(s.skip(i) =~= seq![s[i]] + s.skip(i + 1));
        lemma_filter_one(s[i], s.skip(i + 1));
    } else if is_paren(s[i]) {
        lemma_tokens_from_flatten(s, i + 1);
        assert(s.skip(i) =~= seq![s[i]] + s.skip(i + 1));
        lemma_filter_one(s[i], s.skip(i + 1));
        lemma_flatten_first(seq![s[i]], tokens_from(s, i + 1));
    } else {
        let end = word_end(s, i);
        lemma_word_end_bounds(s, i + 1);
        lemma_tokens_from_flatten(s, end);
        let word = s.subrange(i, end);
        assert(s.skip(i) =~= word + s.skip(end));
        assert forall|j: int| 0 <= j < word.len() implies keep(#[trigger] word[j]) by {
            lemma_word_chars(s, i, i + j);
        }
        lemma_filter_kept(word, s.skip(end));
        lemma_flatten_first(word, tokens_from(s, end));
    }
}

proof fn lemma_flatten_first(first: Seq<char>, rest: Seq<Seq<char>>)
    ensures
        (seq![first] + rest).flatten() == first + rest.flatten(),
{
    let all = seq![first] + rest;
    assert(all.first() == first);
    assert(all.drop_first() =~= rest);
}

proof fn lemma_filter_one(c: char, rest: Seq<char>)
    ensures
        (seq![c] + rest).filter(|c: char| !is_space(c)) == if is_space(c) {
            rest.filter(|c: char| !is_space(c))
        } else {
            seq![c] + rest.filter(|c: char| !is_space(c))
        },
{
    let keep = |c: char| !is_space(c);
    Seq::filter_distributes_over_add(seq![c], rest, keep);
    reveal_with_fuel(Seq::filter, 2);
    assert(seq![c].drop_last() =~= Seq::<char>::empty());
    assert(seq![c].filter(keep) =~= if is_space(c) {
        Seq::<char>::empty()
    } else {
        seq![c]
    });
}

proof fn lemma_filter_kept(word: Seq<char>, rest: Seq<char>)
    requires
        forall|j: int| 0 <= j < word.len() ==> !is_space(#[trigger] word[j]),
    ensures
        (word + rest).filter(|c: char| !is_space(c)) == word + rest.filter(|c: char| !is_space(c)),
    decreases word.len(),
{
    let keep = |c: char| !is_space(c);
    if word.len() == 0 {
        assert(word + rest =~= rest);
        assert(word + rest.filter(keep) =~= rest.filter(keep));
    } else {
        let tail = word.drop_first();
        lemma_filter_kept(tail, rest);
        assert(word + rest =~= seq![word[0]] + (tail + rest));
        lemma_filter_one(word[0], tail + rest);
        assert(seq![word[0]] + (tail + rest.filter(keep)) =~= word + rest.filter(keep));
    }
}

} // verus!
