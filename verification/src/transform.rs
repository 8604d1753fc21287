//! From the parse tree to the typed syntax tree.
//!
//! The transform reads nothing but the rule tags, the ranges and the texts of
//! the nodes. Which tokens group into which operation was decided when the
//! tree was built; here every binary operation is one node with three
//! children, whatever tier it belongs to.

use vstd::prelude::*;
use vstd::string::*;
use vstd::utf8::encode_utf8;
use crate::ast::{symbol_kind, Expression, ExpressionView, LiteralKind, Location, Operator, OperatorView};
use crate::pair::{LaserPair, PairView, Rule};

verus! {

/// The rules that tag a literal token.
pub open spec fn is_literal_rule(rule: Rule) -> bool {
    rule == Rule::integer || rule == Rule::float || rule == Rule::true_ || rule == Rule::false_
        || rule == Rule::atom || rule == Rule::variable
}

/// The rules that tag a binary operation.
pub open spec fn is_binary_rule(rule: Rule) -> bool {
    rule == Rule::level_1_bin_op || rule == Rule::level_2_bin_op
}

/// The text of an atom token begins with the sigil.
pub open spec fn has_sigil(text: Seq<char>) -> bool {
    text.len() > 0 && text[0] == ':'
}

/// The text of the keyword `true`.
pub open spec fn true_text() -> Seq<char> {
    seq!['t', 'r', 'u', 'e']
}

/// The text of the keyword `false`.
pub open spec fn false_text() -> Seq<char> {
    seq!['f', 'a', 'l', 's', 'e']
}

/// The range of a node.
pub open spec fn span_of(p: PairView) -> Location {
    Location { start: p.start, end: p.end }
}

/// The literal that a token stands for. Numbers and variables keep their
/// text; a boolean reads as its keyword; an atom loses its sigil, in the text
/// and in the range.
pub open spec fn literal_of(p: PairView) -> ExpressionView {
    match p.rule {
        Rule::integer => ExpressionView::Literal {
            kind: LiteralKind::Integer,
            location: span_of(p),
            value: p.string,
        },
        Rule::float => ExpressionView::Literal {
            kind: LiteralKind::Float,
            location: span_of(p),
            value: p.string,
        },
        Rule::true_ => ExpressionView::Literal {
            kind: LiteralKind::Boolean,
            location: span_of(p),
            value: true_text(),
        },
        Rule::false_ => ExpressionView::Literal {
            kind: LiteralKind::Boolean,
            location: span_of(p),
            value: false_text(),
        },
        Rule::atom => if has_sigil(p.string) {
            ExpressionView::Literal {
                kind: LiteralKind::Atom,
                location: Location { start: (p.start + 1) as usize, end: p.end },
                value: p.string.drop_first(),
            }
        } else {
            ExpressionView::Literal {
                kind: LiteralKind::Atom,
                location: span_of(p),
                value: p.string,
            }
        },
        _ => ExpressionView::Literal {
            kind: LiteralKind::Variable,
            location: span_of(p),
            value: p.string,
        },
    }
}

/// The operator that a token stands for: its tag is decided by its text
/// alone.
pub open spec fn operator_of(p: PairView) -> OperatorView {
    OperatorView { kind: symbol_kind(p.string), location: span_of(p), value: p.string }
}

/// The tree has the shape that the transform reads: a wrapper holds one
/// node, a literal holds one literal token, a binary operation holds an
/// operand, an operator token and an operand, and nothing else occurs.
pub open spec fn transformable(p: PairView) -> bool
    decreases p,
{
    match p.rule {
        Rule::expression => p.children.len() == 1 && transformable(p.children[0]),
        Rule::literal => {
            &&& p.children.len() == 1
            &&& is_literal_rule(p.children[0].rule)
            &&& p.children[0].wf()
        },
        Rule::level_1_bin_op | Rule::level_2_bin_op => {
            &&& p.children.len() == 3
            &&& p.start <= p.end
            &&& transformable(p.children[0])
            &&& p.children[1].rule == Rule::operator
            &&& p.children[1].start <= p.children[1].end
            &&& transformable(p.children[2])
        },
        _ => false,
    }
}

/// The expression that a parse tree stands for.
pub open spec fn expression_of(p: PairView) -> ExpressionView
    decreases p,
{
    match p.rule {
        Rule::expression => if p.children.len() == 1 {
            expression_of(p.children[0])
        } else {
            arbitrary()
        },
        Rule::literal => literal_of(p.children[0]),
        _ => if p.children.len() == 3 {
            ExpressionView::BinaryOperation {
                location: span_of(p),
                operator: operator_of(p.children[1]),
                left: Box::new(expression_of(p.children[0])),
                right: Box::new(expression_of(p.children[2])),
            }
        } else {
            arbitrary()
        },
    }
}

/// A text that is not empty takes at least one byte.
pub proof fn lemma_encoding_not_empty(text: Seq<char>)
    requires
        text.len() > 0,
    ensures
        encode_utf8(text).len() > 0,
{
    reveal_with_fuel(encode_utf8, 2);
}

/// Tells whether the node's range is as long as its text.
fn is_consistent(pair: &LaserPair) -> (ok: bool)
    ensures
        ok == pair@.wf(),
{
    pair.start <= pair.end && pair.string.as_str().as_bytes().len() == pair.end - pair.start
}

/// Tells whether the rule tags a literal token.
fn tags_literal(rule: Rule) -> (ok: bool)
    ensures
        ok == is_literal_rule(rule),
{
    match rule {
        Rule::integer | Rule::float | Rule::true_ | Rule::false_ | Rule::atom | Rule::variable => true,
        _ => false,
    }
}

/// Tells whether the tree has the shape that the transform reads. A tree
/// that has not is no input for [`expression`]: the grammar that made it
/// and the transform are at odds.
pub fn is_transformable(pair: &LaserPair) -> (ok: bool)
    ensures
        ok == transformable(pair@),
    decreases pair,
{
    proof {
        assert(pair@.children.len() == pair.children@.len());
        assert forall|i: int| 0 <= i < pair.children@.len() implies pair@.children[i]
            == pair.children@[i]@ by {}
    }
    match pair.rule {
        Rule::expression => pair.children.len() == 1 && is_transformable(&pair.children[0]),
        Rule::literal => pair.children.len() == 1 && tags_literal(pair.children[0].rule)
            && is_consistent(&pair.children[0]),
        Rule::level_1_bin_op | Rule::level_2_bin_op => pair.children.len() == 3 && pair.start
            <= pair.end && is_transformable(&pair.children[0]) && pair.children[1].rule
            == Rule::operator && pair.children[1].start <= pair.children[1].end
            && is_transformable(&pair.children[2]),
        _ => false,
    }
}

/// Builds the literal for a token.
pub fn literal(pair: LaserPair) -> (e: Expression)
    requires
        is_literal_rule(pair@.rule),
        pair@.wf(),
    ensures
        e@ == literal_of(pair@),
        e@.wf(),
{
    let location = Location::new(pair.start, pair.end);
    match pair.rule {
        Rule::integer => Expression::Integer { location, value: pair.string },
        Rule::float => Expression::Float { location, value: pair.string },
        Rule::true_ => {
            let value = "true".to_owned();
            proof {
                reveal_strlit("true");
                assert(value@ =~= true_text());
            }
            Expression::Boolean { location, value }
        },
        Rule::false_ => {
            let value = "false".to_owned();
            proof {
                reveal_strlit("false");
                assert(value@ =~= false_text());
            }
            Expression::Boolean { location, value }
        },
        Rule::atom => {
            let text = pair.string.as_str();
            let n = text.unicode_len();
            if n > 0 && text.get_char(0) == ':' {
                proof {
                    lemma_encoding_not_empty(pair@.string);
                }
                let value = text.substring_char(1, n).to_owned();
                assert(value@ =~= pair@.string.drop_first());
                Expression::Atom { location: Location::new(pair.start + 1, pair.end), value }
            } else {
                Expression::Atom { location, value: pair.string }
            }
        },
        _ => Expression::Variable { location, value: pair.string },
    }
}

/// Classifies an operator token.
pub fn operator(pair: LaserPair) -> (op: Operator)
    requires
        pair@.start <= pair@.end,
    ensures
        op@ == operator_of(pair@),
        op@.wf(),
{
    let location = Location::new(pair.start, pair.end);
    let text = pair.string.as_str();
    let n = text.unicode_len();
    if n == 1 {
        let c = text.get_char(0);
        assert(pair@.string =~= seq![c]);
        if c == '+' {
            Operator::Add { location, value: pair.string }
        } else if c == '-' {
            Operator::Sub { location, value: pair.string }
        } else if c == '*' {
            Operator::Mul { location, value: pair.string }
        } else if c == '/' {
            Operator::Div { location, value: pair.string }
        } else if c == '%' {
            Operator::Mod { location, value: pair.string }
        } else {
            Operator::Custom { location, value: pair.string }
        }
    } else if n == 2 && text.get_char(0) == '*' && text.get_char(1) == '*' {
        assert(pair@.string =~= seq!['*', '*']);
        Operator::Pow { location, value: pair.string }
    } else {
        Operator::Custom { location, value: pair.string }
    }
}

/// Builds the operation for a node with an operand, an operator token and an
/// operand. The operation's range is the node's own.
pub fn binary_operation(pair: LaserPair) -> (e: Box<Expression>)
    requires
        is_binary_rule(pair@.rule),
        transformable(pair@),
    ensures
        e@ == expression_of(pair@),
        e@.wf(),
    decreases pair, 0nat,
{
    let location = Location::new(pair.start, pair.end);
    let mut children = pair.children;
    let rhs = children.pop().unwrap();
    let op = children.pop().unwrap();
    let lhs = children.pop().unwrap();
    let left = expression(lhs);
    let operator = self::operator(op);
    let right = expression(rhs);
    Box::new(Expression::BinaryOperation { location, operator, left, right })
}

/// Builds the expression for a parse tree. A wrapper stands for what it
/// wraps, so its own range is dropped.
pub fn expression(pair: LaserPair) -> (e: Box<Expression>)
    requires
        transformable(pair@),
    ensures
        e@ == expression_of(pair@),
        e@.wf(),
    decreases pair, 1nat,
{
    match pair.rule {
        Rule::expression => {
            let mut children = pair.children;
            let inner = children.pop().unwrap();
            expression(inner)
        },
        Rule::literal => {
            let mut children = pair.children;
            let token = children.pop().unwrap();
            Box::new(literal(token))
        },
        _ => binary_operation(pair),
    }
}

} // verus!
