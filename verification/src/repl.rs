//! One turn of a read-eval-print loop: from a line of program text to what
//! is to be printed. Reading the line and printing are left to the host.

use vstd::prelude::*;
use crate::builtins::result_view;
use crate::env::{Env, Scope};
use crate::error::SchemeError;
use crate::alike::{alike_evaluated, lemma_alike_env_reflexive};
use crate::eval::{eval, eval_spec, outcome, Evaluated};
use crate::float::{prints, serves, FloatModel, FloatOp};
use crate::printer::{datatype2str, external_text};
use crate::reader::{parse, read_first};
use crate::tokenizer::tokens_of;
use crate::value::{float_free, DataType, DataView};

verus! {

/// The outcome of reading the first form of a program text and evaluating
/// it. A text that cannot be read fails as the reader does and changes
/// nothing. Tokens after the first form are not looked at.
pub open spec fn interpret_spec(
    fm: FloatModel,
    program: Seq<char>,
    env: Seq<Scope>,
    output: Seq<Seq<char>>,
) -> Evaluated {
    match read_first(tokens_of(program)) {
        Err(e) => Evaluated { result: Err(e), env, output },
        Ok((tree, _)) => eval_spec(fm, tree, env, output),
    }
}

/// Reads the first form of a program text and evaluates it.
pub fn interpret<A: Fn(FloatOp) -> u64, S: Fn(u64) -> String>(
    program: &str,
    env: &mut Env,
    out: &mut Vec<String>,
    arith: &A,
    show: &S,
) -> (r: Result<Option<DataType>, SchemeError>)
    requires
        serves(arith),
        prints(show),
    ensures
        forall|fm: FloatModel|
            alike_evaluated(
                outcome(r, *final(env), *final(out)),
                #[trigger] interpret_spec(fm, program@, old(env)@, old(out).deep_view()),
            ),
        forall|fm: FloatModel| #[trigger]
            fm.describes(arith, show) ==> outcome(r, *final(env), *final(out)) == interpret_spec(
                fm,
                program@,
                old(env)@,
                old(out).deep_view(),
            ),
{
    proof {
        lemma_alike_env_reflexive(env@);
    }
    match parse(program) {
        Err(e) => Err(e),
        Ok(read) => eval(&read.result, env, out, arith, show),
    }
}

/// The line that reports a result: the external representation of a value,
/// nothing where there is no value, and for a failure its message after
/// `error: `.
pub open spec fn echo_text(fm: FloatModel, result: Result<Option<DataView>, SchemeError>) -> Option<
    Seq<char>,
> {
    match result {
        Ok(Some(value)) => Some(external_text(fm, value)),
        Ok(None) => None,
        Err(e) => Some("error: "@ + e.message_text()),
    }
}

/// Reporting the result takes the printer: the result is a value that holds
/// a float.
pub open spec fn needs_printer(result: Result<Option<DataView>, SchemeError>) -> bool {
    result matches Ok(Some(value)) && !float_free(value)
}

/// The mathematical value of an optional line.
pub open spec fn line_view(line: Option<String>) -> Option<Seq<char>> {
    match line {
        Some(text) => Some(text@),
        None => None,
    }
}

/// The line, if any, that reports a result to the user.
pub fn echo<S: Fn(u64) -> String>(
    result: &Result<Option<DataType>, SchemeError>,
    show: &S,
) -> (line: Option<String>)
    requires
        prints(show),
    ensures
        forall|fm: FloatModel|
            fm.rendered_by(show) || !needs_printer(result_view(*result)) ==> line_view(line)
                == #[trigger] echo_text(fm, result_view(*result)),
{
    match result {
        Ok(Some(value)) => Some(datatype2str(value, show)),
        Ok(None) => None,
        Err(e) => {
            let mut text = String::from_str("error: ");
            text.append(e.message());
            Some(text)
        },
    }
}

} // verus!
