//! Splitting program text into tokens.

use vstd::prelude::*;
use crate::text::{is_paren, is_space, is_whitespace};

verus! {

/// A character that belongs to a word: neither white space nor a parenthesis.
pub open spec fn is_word_char(c: char) -> bool {
    !is_space(c) && !is_paren(c)
}

/// The end of the run of word characters of `s` that starts at `i`: the first
/// index from `i` on that holds no word character, or the length of `s`.
pub open spec fn word_end(s: Seq<char>, i: int) -> int
    decreases s.len() - i,
{
    if 0 <= i < s.len() && is_word_char(s[i]) {
        word_end(s, i + 1)
    } else {
        i
    }
}

/// The tokens of `s` from index `i` on. White space separates tokens and
/// belongs to none; each parenthesis is a token by itself; every maximal run
/// of other characters is one token.
pub open spec fn tokens_from(s: Seq<char>, i: int) -> Seq<Seq<char>>
    decreases s.len() - i,
    via tokens_from_decreases
{
    if i < 0 || i >= s.len() {
        Seq::empty()
    } else if is_space(s[i]) {
        tokens_from(s, i + 1)
    } else if is_paren(s[i]) {
        seq![seq![s[i]]] + tokens_from(s, i + 1)
    } else {
        seq![s.subrange(i, word_end(s, i))] + tokens_from(s, word_end(s, i))
    }
}

#[via_fn]
proof fn tokens_from_decreases(s: Seq<char>, i: int) {
    if 0 <= i < s.len() && is_word_char(s[i]) {
        lemma_word_end_bounds(s, i + 1);
    }
}

/// The tokens of a program text.
pub open spec fn tokens_of(s: Seq<char>) -> Seq<Seq<char>> {
    tokens_from(s, 0)
}

/// The text with a space put before and after every parenthesis.
pub open spec fn padded(s: Seq<char>) -> Seq<char>
    decreases s.len(),
{
    if s.len() == 0 {
        s
    } else if is_paren(s[0]) {
        seq![' ', s[0], ' '] + padded(s.skip(1))
    } else {
        seq![s[0]] + padded(s.skip(1))
    }
}

/// The end of the run of characters other than white space that starts at
/// `i`: the first index from `i` on that holds white space, or the length of
/// `s`.
pub open spec fn run_end(s: Seq<char>, i: int) -> int
    decreases s.len() - i,
{
    if 0 <= i < s.len() && !is_space(s[i]) {
        run_end(s, i + 1)
    } else {
        i
    }
}

/// The maximal runs of characters other than white space, from index `i` on.
pub open spec fn runs_from(s: Seq<char>, i: int) -> Seq<Seq<char>>
    decreases s.len() - i,
    via runs_from_decreases
{
    if i < 0 || i >= s.len() {
        Seq::empty()
    } else if is_space(s[i]) {
        runs_from(s, i + 1)
    } else {
        seq![s.subrange(i, run_end(s, i))] + runs_from(s, run_end(s, i))
    }
}

#[via_fn]
proof fn runs_from_decreases(s: Seq<char>, i: int) {
    if 0 <= i < s.len() && !is_space(s[i]) {
        lemma_run_end_bounds(s, i + 1);
    }
}

/// A run of characters other than white space ends at or after its start and
/// within the text.
pub proof fn lemma_run_end_bounds(s: Seq<char>, i: int)
    requires
        0 <= i <= s.len(),
    ensures
        i <= run_end(s, i) <= s.len(),
    decreases s.len() - i,
{
    if i < s.len() && !is_space(s[i]) {
        lemma_run_end_bounds(s, i + 1);
    }
}

/// A run of word characters ends at or after its start and within the text.
pub proof fn lemma_word_end_bounds(s: Seq<char>, i: int)
    requires
        0 <= i <= s.len(),
    ensures
        i <= word_end(s, i) <= s.len(),
    decreases s.len() - i,
{
    if i < s.len() && is_word_char(s[i]) {
        lemma_word_end_bounds(s, i + 1);
    }
}

/// Whether `c` is a parenthesis.
fn is_parenthesis(c: char) -> (r: bool)
    ensures
        r == is_paren(c),
{
    c == '(' || c == ')'
}

/// Splits a program text into its tokens, in the order in which they occur.
/// The empty text, and a text of white space alone, has no tokens.
pub fn tokenize(program: &str) -> (tokens: Vec<String>)
    ensures
        tokens.deep_view() == tokens_of(program@),
{
    let n = program.unicode_len();
    let mut tokens: Vec<String> = Vec::new();
    let mut i: usize = 0;
    assert(tokens.deep_view() =~= Seq::<Seq<char>>::empty());
    while i < n
        invariant
            n == program@.len(),
            i <= n,
            tokens_of(program@) == tokens.deep_view() + tokens_from(program@, i as int),
        decreases n - i,
    {
        let ghost before = tokens.deep_view();
        let c = program.get_char(i);
        if is_whitespace(c) {
            i += 1;
        } else if is_parenthesis(c) {
            tokens.push(program.substring_char(i, i + 1).to_string());
            proof {
                assert(program@.subrange(i as int, i + 1) =~= seq![program@[i as int]]);
                assert(tokens.deep_view() =~= before.push(seq![program@[i as int]]));
                assert(before + (seq![seq![program@[i as int]]] + tokens_from(program@, i + 1))
                    =~= before.push(seq![program@[i as int]]) + tokens_from(program@, i + 1));
            }
            i += 1;
        } else {
            let start = i;
            i += 1;
            while i < n && !is_whitespace(program.get_char(i)) && !is_parenthesis(
                program.get_char(i),
            )
                invariant
                    n == program@.len(),
                    start < i <= n,
                    word_end(program@, start as int) == word_end(program@, i as int),
                decreases n - i,
            {
                i += 1;
            }
            tokens.push(program.substring_char(start, i).to_string());
            proof {
                let word = program@.subrange(start as int, i as int);
                assert(word_end(program@, i as int) == i);
                assert(tokens.deep_view() =~= before.push(word));
                assert(before + (seq![word] + tokens_from(program@, i as int)) =~= before.push(
                    word,
                ) + tokens_from(program@, i as int));
            }
        }
    }
    assert(tokens_from(program@, n as int) =~= Seq::<Seq<char>>::empty());
    tokens
}

} // verus!
