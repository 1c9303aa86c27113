//! The error kinds the interpreter can stop with.  No error is caught and
//! resumed by the language; each aborts the program.

use vstd::prelude::*;
use vstd::string::StringExecFns;

verus! {

/// A terminal interpreter error.
#[derive(Debug)]
pub enum Error {
    /// The source text does not match the grammar; carries a position.
    ParseError(usize),
    /// An identifier was read that is not bound in the current frame.
    VariableNotFound(String),
    /// A call to a name that is neither a built-in nor a user function.
    UndefinedFunction(String),
    /// A definition for a name already taken by a function or a built-in.
    FunctionRedefinition(String),
    /// A call to a built-in that is not in the enabled set.
    FeatureDisabled(String),
    /// A user call with the wrong number of arguments.
    ArityMismatch(usize, usize),
    /// A value of the wrong kind for an operation or argument.
    TypeError(String),
    /// An array index outside the array.
    IndexOutOfBounds,
    /// An operation applied outside its domain, such as a negative factorial.
    DomainError(String),
    /// Division by zero.
    DivisionByZero,
    /// A decimal result beyond the representable range.
    NumericOverflow,
    /// An `inputf` line that does not match its format string.
    InputFormatError(String),
    /// The call depth limit was exhausted.
    RecursionLimit,
}

/// Model of an interpreter error.
pub enum ErrV {
    ParseError(nat),
    VariableNotFound(Seq<char>),
    UndefinedFunction(Seq<char>),
    FunctionRedefinition(Seq<char>),
    FeatureDisabled(Seq<char>),
    ArityMismatch(nat, nat),
    TypeError(Seq<char>),
    IndexOutOfBounds,
    DomainError(Seq<char>),
    DivisionByZero,
    NumericOverflow,
    InputFormatError(Seq<char>),
    RecursionLimit,
}

impl View for Error {
    type V = ErrV;

    open spec fn view(&self) -> ErrV {
        match self {
            Error::ParseError(p) => ErrV::ParseError(*p as nat),
            Error::VariableNotFound(s) => ErrV::VariableNotFound(s@),
            Error::UndefinedFunction(s) => ErrV::UndefinedFunction(s@),
            Error::FunctionRedefinition(s) => ErrV::FunctionRedefinition(s@),
            Error::FeatureDisabled(s) => ErrV::FeatureDisabled(s@),
            Error::ArityMismatch(a, b) => ErrV::ArityMismatch(*a as nat, *b as nat),
            Error::TypeError(s) => ErrV::TypeError(s@),
            Error::IndexOutOfBounds => ErrV::IndexOutOfBounds,
            Error::DomainError(s) => ErrV::DomainError(s@),
            Error::DivisionByZero => ErrV::DivisionByZero,
            Error::NumericOverflow => ErrV::NumericOverflow,
            Error::InputFormatError(s) => ErrV::InputFormatError(s@),
            Error::RecursionLimit => ErrV::RecursionLimit,
        }
    }
}

impl Error {
    /// A type error carrying the given context text.
    pub fn type_err(context: &str) -> (r: Error)
        ensures
            r@ == ErrV::TypeError(context@),
    {
        Error::TypeError(String::from_str(context))
    }

    /// A domain error carrying the given context text.
    pub fn domain_err(context: &str) -> (r: Error)
        ensures
            r@ == ErrV::DomainError(context@),
    {
        Error::DomainError(String::from_str(context))
    }

    /// A short tag describing the error kind, usable in diagnostics.
    pub fn kind(&self) -> (r: &'static str)
    {
        match self {
            Error::ParseError(_) => "parse error",
            Error::VariableNotFound(_) => "variable not found",
            Error::UndefinedFunction(_) => "undefined function",
            Error::FunctionRedefinition(_) => "function redefinition",
            Error::FeatureDisabled(_) => "feature disabled",
            Error::ArityMismatch(_, _) => "arity mismatch",
            Error::TypeError(_) => "type error",
            Error::IndexOutOfBounds => "index out of bounds",
            Error::DomainError(_) => "domain error",
            Error::DivisionByZero => "division by zero",
            Error::NumericOverflow => "numeric overflow",
            Error::InputFormatError(_) => "input format error",
            Error::RecursionLimit => "recursion limit",
        }
    }
}

} // verus!
