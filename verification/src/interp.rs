//! The whole pipeline: source text to final value.
//!
//! `interpret` lexes the source, parses the token stream into one root block,
//! and evaluates that block against a fresh context holding one empty global
//! scope. The result is the value of the program's last top-level statement
//! (NULL for an empty program), or the first error of whichever stage failed,
//! tagged with that stage.

use vstd::prelude::*;

use crate::ast::{spec_eval, RuntimeValue, ValueV};
use crate::context::{empty_scope, Context};
use crate::errors::{InterpError, InterpErrorV};
use crate::lexer::{lemma_spec_tokenize_wf, spec_tokenize, Lexer};
use crate::parser::{sp_parse, Parser};

verus! {

/// The value a source text evaluates to with the given step budget, or the
/// first error of whichever stage fails.
pub open spec fn spec_interpret(src: Seq<char>, fuel: nat) -> Result<ValueV, InterpErrorV> {
    match spec_tokenize(src) {
        Err(e) => Err(InterpErrorV::Lex(e)),
        Ok(toks) => match sp_parse(toks, 0) {
            Err(e) => Err(InterpErrorV::Parse(e)),
            Ok(root) => match spec_eval(root, seq![empty_scope()], fuel) {
                Ok((v, _c)) => Ok(v),
                Err(e) => Err(InterpErrorV::Eval(e)),
            },
        },
    }
}

/// Interprets `code`: lexes, parses, and evaluates it with the given step
/// budget, exactly as `spec_interpret` prescribes.
pub fn interpret(code: &str, fuel: u64) -> (r: Result<RuntimeValue, InterpError>)
    ensures
        match r {
            Ok(v) => spec_interpret(code@, fuel as nat) == Ok::<ValueV, InterpErrorV>(v@),
            Err(e) => spec_interpret(code@, fuel as nat) == Err::<ValueV, InterpErrorV>(e@),
        },
{
    let mut lexer = Lexer::new();
    let mut parser = Parser::new();
    let mut context = Context::new();

    lexer.set_input(code.to_owned());
    let tokens = match lexer.tokenize() {
        Ok(toks) => toks,
        Err(e) => {
            return Err(InterpError::Lex(e));
        },
    };
    proof {
        lemma_spec_tokenize_wf(code@);
    }

    parser.set_tokens(tokens);
    let tree = match parser.parse() {
        Ok(tree) => tree,
        Err(e) => {
            return Err(InterpError::Parse(e));
        },
    };

    match tree.eval(&mut context, fuel) {
        Ok(value) => Ok(value),
        Err(e) => Err(InterpError::Eval(e)),
    }
}

} // verus!
