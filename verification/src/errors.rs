//! Structured errors for the three stages of interpretation.
//!
//! Every error identifies its stage, what went wrong, and a source character
//! offset where one is available. Rendering a human-readable message is left
//! to the caller.

use vstd::prelude::*;

use crate::ast::ValueKind;
use crate::token::TokenType;

verus! {

/// An error raised while lexing. Any lexing error is fatal for the whole
/// input: no partial token sequence is produced.
#[derive(Copy, Clone, PartialEq, Eq, Structural, Debug)]
pub enum LexError {
    /// A character no lexing rule accepts, at the given offset.
    InvalidCharacter { character: char, position: usize },
    /// A string literal still open at end of input; the offset is that of the
    /// first character after the opening quote.
    UnterminatedString { position: usize },
    /// A run of symbol characters matching no operator; the offset is that of
    /// the run's first character.
    InvalidSymbol { position: usize },
}

/// An error raised while parsing.
#[derive(Copy, Clone, PartialEq, Eq, Structural, Debug)]
pub enum ParseError {
    /// The cursor held `found` where the grammar demands `expected`.
    UnexpectedToken { expected: TokenType, found: TokenType, position: usize },
    /// Two binary operators in a row: the grammar has no unary operators.
    InvalidOperatorPlacement { position: usize },
    /// An expression was demanded but no operand was found.
    ExpectedExpression { position: usize },
    /// An expression's operands did not fold into a single tree.
    UnresolvedExpression { position: usize },
    /// The postfix fold met a binary operator with fewer than two operands on
    /// its stack (for instance after a trailing operator). Raised as an
    /// invariant-violation condition, distinct from the plain syntax errors.
    OperandUnderflow { position: usize },
    /// The parser's cursor or progress invariant was broken: a defect signal,
    /// never returned for any token stream the lexer can produce.
    ParserDefect,
}

/// An error raised while evaluating. Any evaluation error aborts the whole
/// program: later statements do not run.
#[derive(Clone, Debug)]
pub enum EvalError {
    /// A variable was read that no visible scope binds.
    UnsetIdentifier { name: String, position: usize },
    /// A function was called that no visible scope binds.
    UnsetFunction { name: String, position: usize },
    /// A construct carried the wrong number of children for its kind.
    InvalidChildCount { position: usize },
    /// A call supplied a different number of arguments than the function
    /// declares parameters.
    ArityMismatch { expected: usize, given: usize, position: usize },
    /// A binary operation over an unsupported pairing of runtime types, or an
    /// operator the matched pairing does not support.
    TypeMismatch { left: ValueKind, right: ValueKind, position: usize },
    /// An `if` or `while` condition evaluated to a non-boolean value.
    ConditionNotBoolean { found: ValueKind, position: usize },
    /// Integer division with a zero divisor.
    DivisionByZero { position: usize },
    /// An integer operation whose result does not fit in 32 bits.
    IntegerOverflow { position: usize },
    /// A numeric literal that does not denote a 32-bit signed integer.
    NumericParse { position: usize },
    /// A node whose token kind has no evaluation rule.
    UnevaluableNode { kind: TokenType, position: usize },
    /// The step budget given to the evaluator ran out before the program
    /// finished.
    OutOfSteps,
}

/// Mathematical model of an evaluation error.
pub enum EvalErrorV {
    UnsetIdentifier { name: Seq<char>, position: usize },
    UnsetFunction { name: Seq<char>, position: usize },
    InvalidChildCount { position: usize },
    ArityMismatch { expected: usize, given: usize, position: usize },
    TypeMismatch { left: ValueKind, right: ValueKind, position: usize },
    ConditionNotBoolean { found: ValueKind, position: usize },
    DivisionByZero { position: usize },
    IntegerOverflow { position: usize },
    NumericParse { position: usize },
    UnevaluableNode { kind: TokenType, position: usize },
    OutOfSteps,
}

impl View for EvalError {
    type V = EvalErrorV;

    open spec fn view(&self) -> EvalErrorV {
        match self {
            EvalError::UnsetIdentifier { name, position } => EvalErrorV::UnsetIdentifier {
                name: name@,
                position: *position,
            },
            EvalError::UnsetFunction { name, position } => EvalErrorV::UnsetFunction {
                name: name@,
                position: *position,
            },
            EvalError::InvalidChildCount { position } => EvalErrorV::InvalidChildCount {
                position: *position,
            },
            EvalError::ArityMismatch { expected, given, position } => EvalErrorV::ArityMismatch {
                expected: *expected,
                given: *given,
                position: *position,
            },
            EvalError::TypeMismatch { left, right, position } => EvalErrorV::TypeMismatch {
                left: *left,
                right: *right,
                position: *position,
            },
            EvalError::ConditionNotBoolean { found, position } => EvalErrorV::ConditionNotBoolean {
                found: *found,
                position: *position,
            },
            EvalError::DivisionByZero { position } => EvalErrorV::DivisionByZero {
                position: *position,
            },
            EvalError::IntegerOverflow { position } => EvalErrorV::IntegerOverflow {
                position: *position,
            },
            EvalError::NumericParse { position } => EvalErrorV::NumericParse {
                position: *position,
            },
            EvalError::UnevaluableNode { kind, position } => EvalErrorV::UnevaluableNode {
                kind: *kind,
                position: *position,
            },
            EvalError::OutOfSteps => EvalErrorV::OutOfSteps,
        }
    }
}

/// An interpretation error, tagged with the stage that raised it.
#[derive(Clone, Debug)]
pub enum InterpError {
    /// Lexing failed.
    Lex(LexError),
    /// Parsing failed.
    Parse(ParseError),
    /// Evaluation failed.
    Eval(EvalError),
}

/// Mathematical model of an interpretation error.
pub enum InterpErrorV {
    Lex(LexError),
    Parse(ParseError),
    Eval(EvalErrorV),
}

impl View for InterpError {
    type V = InterpErrorV;

    open spec fn view(&self) -> InterpErrorV {
        match self {
            InterpError::Lex(e) => InterpErrorV::Lex(*e),
            InterpError::Parse(e) => InterpErrorV::Parse(*e),
            InterpError::Eval(e) => InterpErrorV::Eval(e@),
        }
    }
}

} // verus!
