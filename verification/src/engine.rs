//! Trees of the `pest` engine.
//!
//! A grammar that is run by `pest` and tags its pairs with the rules of this
//! library yields trees that the transform can read, once they are rebuilt
//! as nodes of this library.

use vstd::prelude::*;
use pest::iterators::Pair;
use crate::ast::Expression;
use crate::pair::{LaserPair, PairView, Rule};
use crate::transform::{expression_of, is_transformable, transformable};

verus! {

/// `pest::iterators::Pair`, a matching pair of tokens of the engine with
/// all that was matched between them. Nothing inside it is seen here.
#[verifier::external_type_specification]
#[verifier::external_body]
#[verifier::reject_recursive_types(R)]
pub struct ExPair<'i, R>(Pair<'i, R>);

/// What a pair holds: the rule it was matched by, the range and the text
/// that it matched, and what the pairs inside it hold, in their order.
pub uninterp spec fn pair_tree(pair: Pair<'static, Rule>) -> PairView;

/// `Pair::as_rule`, which gives the rule that the pair was matched by.
/// Trusted: the result is the rule that the pair holds.
#[verifier::external_body]
fn pair_rule(pair: &Pair<'_, Rule>) -> (rule: Rule)
    ensures
        rule == pair_tree(*pair).rule,
{
    pair.as_rule()
}

/// `Pair::as_span`, which gives the range that the pair matched, as the
/// offsets of its first byte and of the byte behind its last. Trusted: the
/// result is the range that the pair holds.
#[verifier::external_body]
fn pair_span(pair: &Pair<'_, Rule>) -> (span: (usize, usize))
    ensures
        span.0 == pair_tree(*pair).start,
        span.1 == pair_tree(*pair).end,
{
    let span = pair.as_span();
    (span.start(), span.end())
}

/// `Pair::as_str`, which gives the text that the pair matched. Trusted: the
/// result is the text that the pair holds.
#[verifier::external_body]
fn pair_string(pair: &Pair<'_, Rule>) -> (string: String)
    ensures
        string@ == pair_tree(*pair).string,
{
    pair.as_str().to_string()
}

/// `Pair::into_inner`, which gives the pairs that were matched inside the
/// pair, from the first to the last. Trusted: the results are as many as the
/// pair holds, and each holds what the pair holds at its place.
#[verifier::external_body]
fn pair_children<'i>(pair: Pair<'i, Rule>) -> (children: Vec<Pair<'i, Rule>>)
    ensures
        children@.len() == pair_tree(pair).children.len(),
        forall|i: int|
            0 <= i < children@.len() ==> pair_tree(#[trigger] children@[i]) == pair_tree(
                pair,
            ).children[i],
{
    pair.into_inner().collect()
}

/// Rebuilds a pair of the engine, with all the pairs inside it, as a node of
/// this library.
pub fn create_laser_pair(pair: Pair<'_, Rule>) -> (node: LaserPair)
    ensures
        node@ == pair_tree(pair),
    decreases pair_tree(pair),
{
    let ghost tree = pair_tree(pair);
    let rule = pair_rule(&pair);
    let (start, end) = pair_span(&pair);
    let string = pair_string(&pair);
    let mut inner = pair_children(pair);
    let mut children: Vec<LaserPair> = Vec::new();
    while inner.len() > 0
        invariant
            tree == pair_tree(pair),
            inner@.len() + children@.len() == tree.children.len(),
            forall|i: int| 0 <= i < inner@.len() ==> pair_tree(#[trigger] inner@[i]) == tree.children[i],
            forall|i: int|
                0 <= i < children@.len() ==> (#[trigger] children@[i])@ == tree.children[inner@.len() + i],
        decreases inner@.len(),
    {
        let last = inner.pop().unwrap();
        assert(pair_tree(last) == tree.children[inner@.len() as int]);
        let node = create_laser_pair(last);
        children.insert(0, node);
    }
    let node = LaserPair { rule, children, start, end, string };
    assert(node@.children =~= tree.children);
    node
}

/// Builds the expression for a tree of the engine, where the tree has the
/// shape that the transform reads, and nothing where it has not.
pub fn expression(pair: Pair<'_, Rule>) -> (e: Option<Box<Expression>>)
    ensures
        e is Some <==> transformable(pair_tree(pair)),
        e is Some ==> e->Some_0@ == expression_of(pair_tree(pair)) && e->Some_0@.wf(),
{
    let node = create_laser_pair(pair);
    if is_transformable(&node) {
        Some(crate::transform::expression(node))
    } else {
        None
    }
}

} // verus!
