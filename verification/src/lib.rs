//! A front end for the Laser expression language: source text is matched
//! against the grammar, and the resulting parse tree is rebuilt as a typed
//! syntax tree in which every node carries its byte range in the source.
//!
//! - [`ast`]: the syntax tree, with its ranges.
//! - [`pair`]: the parse tree, a tree of nodes that are tagged with the rule
//!   that matched.
//! - [`transform`]: from the parse tree to the syntax tree.
//! - [`bytes`], [`grammar`]: from the text to the parse tree.
//! - [`derivation`]: which trees are trees of a text, and the proof that the
//!   grammar finds the one tree of a text that has one, and no other.
//! - [`laws`]: what holds of the syntax tree of every text.
//! - [`engine`]: parse trees that come from the `pest` engine.
//!
//! [`parse`] goes all the way from the text to the syntax tree.

pub mod ast;
pub mod bytes;
pub mod derivation;
pub mod engine;
pub mod grammar;
pub mod laws;
pub mod pair;
pub mod transform;

use vstd::prelude::*;
use vstd::string::*;
use crate::ast::{Expression, ExpressionView};
use crate::derivation::{derives_rule, derives_text};
use crate::grammar::{parse_rule, LaserParser, SyntaxError};
use crate::laws::{faithful, lemma_text_faithful, tight};
use crate::pair::{PairView, Rule};
use crate::transform::{expression, expression_of};

verus! {

/// The expression that a text stands for, or the offset at which the text
/// stops matching the grammar.
pub open spec fn parse_text(s: Seq<u8>) -> Result<ExpressionView, int> {
    match parse_rule(s, Rule::expression) {
        Ok(tree) => Ok(expression_of(tree)),
        Err(o) => Err(o),
    }
}

/// Parses a text into its syntax tree.
///
/// The text is parsed exactly where it has a parse tree, and the result is
/// then the expression built from that tree, which is the only one. Every
/// range in the result is a range of bytes of `input`, and the result says
/// what the text says. A text without a parse tree gives the offset at which
/// it stops matching the grammar.
pub fn parse(input: &str) -> (r: Result<Box<Expression>, SyntaxError>)
    ensures
        match parse_text(input.spec_bytes()) {
            Ok(e) => r is Ok && r->Ok_0@ == e,
            Err(o) => r is Err && r->Err_0.offset == o,
        },
        r is Ok <==> exists|tree: PairView| derives_text(input.spec_bytes(), tree),
        forall|tree: PairView| #[trigger]
            derives_text(input.spec_bytes(), tree) ==> r is Ok && r->Ok_0@ == expression_of(tree),
        r is Ok ==> r->Ok_0@.wf(),
        r is Ok ==> faithful(input.spec_bytes(), r->Ok_0@),
        r is Ok ==> tight(input.spec_bytes(), r->Ok_0@),
        r is Err ==> r->Err_0.offset <= input.spec_bytes().len(),
{
    let ghost s = input.spec_bytes();
    proof {
        assert forall|tree: PairView| #[trigger]
            derives_text(s, tree) == derives_rule(s, Rule::expression, tree) by {}
    }
    match LaserParser::parse(Rule::expression, input) {
        Ok(tree) => {
            proof {
                lemma_text_faithful(s, tree@);
            }
            Ok(expression(tree))
        },
        Err(error) => Err(error),
    }
}

/// The greeting of the library.
pub fn test() -> (greeting: String)
    ensures
        greeting@ == "hilo"@,
{
    "hilo".to_owned()
}

} // verus!
