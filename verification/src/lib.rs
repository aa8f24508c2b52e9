//! Dice notation: tokenize, parse to a flat stack program, and evaluate it
//! against a tagged value model with a recorded roll trace.

pub mod context;
pub mod dice;
pub mod error;
pub mod expr;
pub mod parser;
pub mod random;
pub mod text;
pub mod tokenizer;
pub mod tracker;

use crate::context::{Context, ContextView};
use crate::dice::Value;
use crate::error::Error;
use crate::expr::{fails, yields};
use crate::parser::{parse, parse_expr};
use crate::tracker::Tracker;
use vstd::prelude::*;

verus! {

/// Parses `source` and runs it in `ct`.
///
/// A source that does not parse leaves the context as it was. Otherwise the
/// program runs to its end or its first failure, and the context is left as
/// the run left it.
pub fn evaluate_in(source: &str, ct: &mut Context) -> (r: Result<Value, Error>)
    ensures
        match parse(source@) {
            Err(e) => r == Err::<Value, Error>(e) && final(ct)@ == old(ct)@,
            Ok(ops) => match r {
                Ok(v) => yields(ops, old(ct)@, final(ct)@, v@),
                Err(e) => fails(ops, old(ct)@, final(ct)@, e),
            },
        },
{
    match parse_expr(source) {
        Err(e) => Err(e),
        Ok(program) => program.resolve(ct),
    }
}

/// Evaluates `source` in a fresh context with a random source of its own,
/// and gives the result with the trace of the evaluation.
pub fn evaluate(source: &str) -> (r: Result<(Value, Tracker), Error>)
    ensures
        match parse(source@) {
            Err(e) => r == Err::<(Value, Tracker), Error>(e),
            Ok(ops) => match r {
                Ok((v, trace)) => exists|after: ContextView| #[trigger]
                    yields(ops, ContextView::empty(), after, v@) && trace@.stack == after.stack
                        && trace@.rolls == after.rolls && trace@.labels == after.labels,
                Err(e) => exists|after: ContextView| #[trigger]
                    fails(ops, ContextView::empty(), after, e),
            },
        },
{
    let mut ct = Context::new();
    match evaluate_in(source, &mut ct) {
        Ok(v) => {
            let ghost after = ct@;
            let trace = ct.into_tracker();
            assert(yields(parse(source@)->Ok_0, ContextView::empty(), after, v@));
            Ok((v, trace))
        },
        Err(e) => {
            let ghost after = ct@;
            assert(parse(source@) is Ok ==> fails(
                parse(source@)->Ok_0,
                ContextView::empty(),
                after,
                e,
            ));
            Err(e)
        },
    }
}

} // verus!
