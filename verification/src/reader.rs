//! Reading a token sequence into a syntax tree.
//!
//! ```text
//! form ::= atom | list
//! list ::= "(" form* ")"
//! atom ::= integer | float | symbol
//! ```

use vstd::prelude::*;
use crate::ast::{ast_views, lemma_children_view, AstView, AST};
use crate::error::SchemeError;
use crate::literal::{integer_literal, is_float_literal, is_float_text, parse_integer};
use crate::tokenizer::{tokenize, tokens_of};

verus! {

/// The token `(`.
pub open spec fn open_token() -> Seq<char> {
    seq!['(']
}

/// The token `)`.
pub open spec fn close_token() -> Seq<char> {
    seq![')']
}

/// The atom that a token denotes: an integer where the token is an integer
/// literal, else a float where it has the form of a float literal, else the
/// symbol that the token spells.
pub open spec fn atom_of(token: Seq<char>) -> AstView {
    match integer_literal(token) {
        Some(i) => AstView::Integer(i),
        None => if is_float_text(token) {
            AstView::Float(token)
        } else {
            AstView::Symbol(token)
        },
    }
}

/// Reads one form that starts at index `pos`: the tree, and the index of the
/// first token after it.
pub open spec fn read_form(tokens: Seq<Seq<char>>, pos: int) -> Result<(AstView, int), SchemeError>
    decreases tokens.len() - pos, 0int,
{
    if pos < 0 || pos >= tokens.len() {
        Err(SchemeError::UnexpectedEof)
    } else if tokens[pos] == open_token() {
        read_items(tokens, pos + 1, Seq::empty())
    } else if tokens[pos] == close_token() {
        Err(SchemeError::UnexpectedCloseParen)
    } else {
        Ok((atom_of(tokens[pos]), pos + 1))
    }
}

/// Reads the rest of a list whose items so far are `items`: forms from index
/// `pos` up to the `)` that closes the list. Gives the list and the index of
/// the first token after that `)`.
pub open spec fn read_items(tokens: Seq<Seq<char>>, pos: int, items: Seq<AstView>) -> Result<
    (AstView, int),
    SchemeError,
>
    decreases tokens.len() - pos, 1int,
{
    if pos < 0 || pos >= tokens.len() {
        Err(SchemeError::UnterminatedList)
    } else if tokens[pos] == close_token() {
        Ok((AstView::Children(items), pos + 1))
    } else {
        match read_form(tokens, pos) {
            Err(e) => Err(e),
            Ok((item, next)) => if pos < next <= tokens.len() {
                read_items(tokens, next, items.push(item))
            } else {
                // A form that was read takes at least one token and ends
                // within the sequence: see `lemma_read_advances`.
                Err(SchemeError::UnterminatedList)
            },
        }
    }
}

/// What reading the first form of a token sequence gives: the tree and the
/// tokens that follow it.
pub open spec fn read_first(tokens: Seq<Seq<char>>) -> Result<
    (AstView, Seq<Seq<char>>),
    SchemeError,
> {
    match read_form(tokens, 0) {
        Err(e) => Err(e),
        Ok((tree, next)) => Ok((tree, tokens.skip(next))),
    }
}

/// A reading that succeeded ended after `pos` and within `len` tokens.
pub open spec fn advances(r: Result<(AstView, int), SchemeError>, pos: int, len: nat) -> bool {
    match r {
        Ok((_, next)) => pos < next <= len,
        Err(_) => true,
    }
}

/// A form that was read takes at least one token and ends within the
/// sequence; so does the rest of a list.
pub proof fn lemma_read_advances(tokens: Seq<Seq<char>>, pos: int)
    requires
        0 <= pos,
    ensures
        advances(read_form(tokens, pos), pos, tokens.len()),
        forall|items: Seq<AstView>| #[trigger]
            advances(read_items(tokens, pos, items), pos, tokens.len()),
    decreases tokens.len() - pos,
{
    if pos < tokens.len() {
        if tokens[pos] == open_token() {
            lemma_read_advances(tokens, pos + 1);
            assert(advances(read_items(tokens, pos + 1, Seq::empty()), pos + 1, tokens.len()));
        }
        assert(advances(read_form(tokens, pos), pos, tokens.len()));
        assert forall|items: Seq<AstView>| #[trigger]
            advances(read_items(tokens, pos, items), pos, tokens.len()) by {
            if tokens[pos] != close_token() {
                match read_form(tokens, pos) {
                    Err(e) => {},
                    Ok((item, next)) => {
                        lemma_read_advances(tokens, next);
                        assert(advances(
                            read_items(tokens, next, items.push(item)),
                            next,
                            tokens.len(),
                        ));
                    },
                }
            }
        }
    }
}

/// The outcome of reading a token sequence: the tree of its first form and
/// the tokens that were not consumed.
#[derive(Debug, PartialEq)]
pub struct ReadFromTokenResult {
    /// The tokens after the form that was read.
    pub remain: Vec<String>,
    /// The form that was read.
    pub result: AST,
}

/// Whether the token is `(`.
fn is_open(token: &str) -> (r: bool)
    ensures
        r == (token@ == open_token()),
{
    if token.unicode_len() == 1 {
        let c = token.get_char(0);
        assert(c == '(' ==> token@ =~= open_token());
        c == '('
    } else {
        false
    }
}

/// Whether the token is `)`.
fn is_close(token: &str) -> (r: bool)
    ensures
        r == (token@ == close_token()),
{
    if token.unicode_len() == 1 {
        let c = token.get_char(0);
        assert(c == ')' ==> token@ =~= close_token());
        c == ')'
    } else {
        false
    }
}

/// Resolves a token that is no parenthesis: to an integer if it is an integer
/// literal, else to a float literal if it has the form of one, else to the
/// symbol that it spells.
pub fn atom(token: &str) -> (node: AST)
    ensures
        node@ == atom_of(token@),
{
    match parse_integer(token) {
        Some(i) => AST::Integer(i),
        None => {
            if is_float_literal(token) {
                AST::Float(token.to_string())
            } else {
                AST::Symbol(token.to_string())
            }
        },
    }
}

/// `r` is the outcome `expected` of reading a form, as executable values.
pub open spec fn is_reading(r: Result<(AST, usize), SchemeError>, expected: Result<
    (AstView, int),
    SchemeError,
>) -> bool {
    match expected {
        Err(e) => r == Err::<(AST, usize), SchemeError>(e),
        Ok((tree, next)) => r matches Ok((node, end)) && node@ == tree && end == next,
    }
}

/// Reads the form that starts at index `pos`.
fn read_form_at(tokens: &Vec<String>, pos: usize) -> (r: Result<(AST, usize), SchemeError>)
    ensures
        r matches Ok((_, end)) ==> pos < end <= tokens.len(),
        is_reading(r, read_form(tokens.deep_view(), pos as int)),
    decreases tokens.len() - pos,
{
    if pos >= tokens.len() {
        return Err(SchemeError::UnexpectedEof);
    }
    let token = tokens[pos].as_str();
    if is_open(token) {
        let mut items: Vec<AST> = Vec::new();
        let mut i = pos + 1;
        assert(ast_views(items@) =~= Seq::<AstView>::empty());
        loop
            invariant
                pos < i <= tokens.len(),
                read_form(tokens.deep_view(), pos as int) == read_items(
                    tokens.deep_view(),
                    i as int,
                    ast_views(items@),
                ),
            decreases tokens.len() - i,
        {
            if i >= tokens.len() {
                return Err(SchemeError::UnterminatedList);
            }
            if is_close(tokens[i].as_str()) {
                proof {
                    lemma_children_view(items);
                }
                return Ok((AST::Children(items), i + 1));
            }
            let ghost before = ast_views(items@);
            match read_form_at(tokens, i) {
                Err(e) => {
                    return Err(e);
                },
                Ok((item, end)) => {
                    items.push(item);
                    assert(ast_views(items@) =~= before.push(item@));
                    i = end;
                },
            }
        }
    } else if is_close(token) {
        Err(SchemeError::UnexpectedCloseParen)
    } else {
        Ok((atom(token), pos + 1))
    }
}

/// `r` is the outcome `expected` of reading the first form of a token
/// sequence, as executable values.
pub open spec fn is_read(r: Result<ReadFromTokenResult, SchemeError>, expected: Result<
    (AstView, Seq<Seq<char>>),
    SchemeError,
>) -> bool {
    match expected {
        Err(e) => r == Err::<ReadFromTokenResult, SchemeError>(e),
        Ok((tree, rest)) => r matches Ok(read) && read.result@ == tree && read.remain.deep_view()
            == rest,
    }
}

/// Reads the first form of a token sequence. Gives its tree together with the
/// tokens that follow it, so that a sequence of several forms can be read one
/// form after another.
///
/// Fails with `UnexpectedEof` on the empty sequence, with
/// `UnexpectedCloseParen` where a `)` stands in place of a form, and with
/// `UnterminatedList` where the tokens end inside a list.
pub fn read_from_tokens(tokens: Vec<String>) -> (r: Result<ReadFromTokenResult, SchemeError>)
    ensures
        is_read(r, read_first(tokens.deep_view())),
{
    let ghost all = tokens.deep_view();
    let mut tokens = tokens;
    match read_form_at(&tokens, 0) {
        Err(e) => Err(e),
        Ok((result, end)) => {
            let remain = tokens.split_off(end);
            assert(remain.deep_view() =~= all.skip(end as int));
            Ok(ReadFromTokenResult { remain, result })
        },
    }
}

/// Reads the first form of a program text.
pub fn parse(program: &str) -> (r: Result<ReadFromTokenResult, SchemeError>)
    ensures
        is_read(r, read_first(tokens_of(program@))),
{
    read_from_tokens(tokenize(program))
}

} // verus!
