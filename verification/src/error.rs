//! The failures that reading and evaluating can end in.

use vstd::prelude::*;

verus! {

/// The four families that every failure belongs to.
#[derive(Clone, Copy, Debug, PartialEq, Eq, Structural)]
pub enum ErrorKind {
    /// Malformed list, premature end of input, stray `)`, malformed `define`.
    Syntax,
    /// A symbol that no scope binds, or a call head that is no procedure.
    Name,
    /// An argument of the wrong data type.
    Type,
    /// The wrong number of arguments.
    Arity,
}

/// A failure of the reader or of the evaluator. Each is final for the form
/// that caused it; none is retried.
#[derive(Clone, Copy, Debug, PartialEq, Eq, Structural)]
pub enum SchemeError {
    /// The token sequence was empty where a form was expected.
    UnexpectedEof,
    /// The tokens ran out before the `)` that closes a list.
    UnterminatedList,
    /// A `)` stood where a form was expected.
    UnexpectedCloseParen,
    /// An empty list `()` was evaluated.
    EmptyForm,
    /// The first element of a call form is not a symbol.
    HeadNotSymbol,
    /// A `define` form that is not `(define <symbol> <literal-or-symbol>)`.
    MalformedDefine,
    /// A bare symbol that no scope binds.
    UndefinedSymbol,
    /// A call head that is unbound or bound to something that is no procedure.
    NotAProcedure,
    /// An arithmetic procedure was given something that is no number.
    NotANumber,
    /// `print` was not given exactly one argument.
    PrintArity,
    /// `car` was not given exactly one argument.
    CarArity,
    /// The argument of `car` is no list.
    CarNotList,
    /// The argument of `car` is the empty list.
    CarEmptyList,
    /// `cdr` was not given exactly one argument.
    CdrArity,
    /// The argument of `cdr` is no list.
    CdrNotList,
    /// The argument of `cdr` is the empty list.
    CdrEmptyList,
}

impl SchemeError {
    /// The family of this failure.
    pub open spec fn spec_kind(self) -> ErrorKind {
        match self {
            SchemeError::UnexpectedEof => ErrorKind::Syntax,
            SchemeError::UnterminatedList => ErrorKind::Syntax,
            SchemeError::UnexpectedCloseParen => ErrorKind::Syntax,
            SchemeError::EmptyForm => ErrorKind::Syntax,
            SchemeError::HeadNotSymbol => ErrorKind::Syntax,
            SchemeError::MalformedDefine => ErrorKind::Syntax,
            SchemeError::UndefinedSymbol => ErrorKind::Name,
            SchemeError::NotAProcedure => ErrorKind::Name,
            SchemeError::NotANumber => ErrorKind::Type,
            SchemeError::PrintArity => ErrorKind::Arity,
            SchemeError::CarArity => ErrorKind::Arity,
            SchemeError::CarNotList => ErrorKind::Type,
            SchemeError::CarEmptyList => ErrorKind::Type,
            SchemeError::CdrArity => ErrorKind::Arity,
            SchemeError::CdrNotList => ErrorKind::Type,
            SchemeError::CdrEmptyList => ErrorKind::Type,
        }
    }

    /// The human-readable message of this failure.
    pub open spec fn message_text(self) -> Seq<char> {
        match self {
            SchemeError::UnexpectedEof => "unexpected EOF while reading"@,
            SchemeError::UnterminatedList => "syntax error"@,
            SchemeError::UnexpectedCloseParen => "unexpected )"@,
            SchemeError::EmptyForm => "syntax error"@,
            SchemeError::HeadNotSymbol => "syntax error"@,
            SchemeError::MalformedDefine => "wrong syntax for define expression"@,
            SchemeError::UndefinedSymbol => "symbol is not defined."@,
            SchemeError::NotAProcedure => "Symbol is not defined."@,
            SchemeError::NotANumber => "wrong argument datatype"@,
            SchemeError::PrintArity => "print function requires one argument only"@,
            SchemeError::CarArity => "car function requires one argument only"@,
            SchemeError::CarNotList => "car function requires an argument of type 'list'"@,
            SchemeError::CarEmptyList => "car function requires a non-empty list"@,
            SchemeError::CdrArity => "cdr function requires one argument only"@,
            SchemeError::CdrNotList => "cdr function requires an argument of type 'list'"@,
            SchemeError::CdrEmptyList => "cdr function requires a non-empty list"@,
        }
    }

    /// The family of this failure.
    #[verifier::when_used_as_spec(spec_kind)]
    pub fn kind(self) -> (k: ErrorKind)
        ensures
            k == self.spec_kind(),
    {
        match self {
            SchemeError::UnexpectedEof => ErrorKind::Syntax,
            SchemeError::UnterminatedList => ErrorKind::Syntax,
            SchemeError::UnexpectedCloseParen => ErrorKind::Syntax,
            SchemeError::EmptyForm => ErrorKind::Syntax,
            SchemeError::HeadNotSymbol => ErrorKind::Syntax,
            SchemeError::MalformedDefine => ErrorKind::Syntax,
            SchemeError::UndefinedSymbol => ErrorKind::Name,
            SchemeError::NotAProcedure => ErrorKind::Name,
            SchemeError::NotANumber => ErrorKind::Type,
            SchemeError::PrintArity => ErrorKind::Arity,
            SchemeError::CarArity => ErrorKind::Arity,
            SchemeError::CarNotList => ErrorKind::Type,
            SchemeError::CarEmptyList => ErrorKind::Type,
            SchemeError::CdrArity => ErrorKind::Arity,
            SchemeError::CdrNotList => ErrorKind::Type,
            SchemeError::CdrEmptyList => ErrorKind::Type,
        }
    }

    /// The human-readable message of this failure.
    pub fn message(self) -> (m: &'static str)
        ensures
            m@ == self.message_text(),
    {
        match self {
            SchemeError::UnexpectedEof => "unexpected EOF while reading",
            SchemeError::UnterminatedList => "syntax error",
            SchemeError::UnexpectedCloseParen => "unexpected )",
            SchemeError::EmptyForm => "syntax error",
            SchemeError::HeadNotSymbol => "syntax error",
            SchemeError::MalformedDefine => "wrong syntax for define expression",
            SchemeError::UndefinedSymbol => "symbol is not defined.",
            SchemeError::NotAProcedure => "Symbol is not defined.",
            SchemeError::NotANumber => "wrong argument datatype",
            SchemeError::PrintArity => "print function requires one argument only",
            SchemeError::CarArity => "car function requires one argument only",
            SchemeError::CarNotList => "car function requires an argument of type 'list'",
            SchemeError::CarEmptyList => "car function requires a non-empty list",
            SchemeError::CdrArity => "cdr function requires one argument only",
            SchemeError::CdrNotList => "cdr function requires an argument of type 'list'",
            SchemeError::CdrEmptyList => "cdr function requires a non-empty list",
        }
    }
}

} // verus!
