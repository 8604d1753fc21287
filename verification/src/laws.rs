//! What holds of every syntax tree that is built from a tree of a text.

use vstd::prelude::*;
use crate::ast::{symbol_kind, ExpressionView, LiteralKind, Location};
use crate::bytes::{
    is_space, lemma_run_end, lemma_text_encoding, run_end, text_of, ByteClass, CLOSE, COLON, OPEN,
};
use crate::derivation::{
    derives, derives_rule, derives_text, is_token, is_tree_rule, lemma_lexeme_ascii,
    lemma_parse_derives, lexeme, rule_tier,
};
use crate::grammar::{
    false_word, level_at, literal_at, node_at, parse_rule, rest_at, rule_at, token_at, true_word,
    Match,
};
use crate::pair::{PairView, Rule};
use crate::parse_text;
use crate::transform::{
    expression_of, false_text, has_sigil, is_literal_rule, literal_of, operator_of, span_of,
    transformable, true_text,
};

verus! {

/// A byte that belongs to no token's text: a blank, a parenthesis or the
/// sigil of an atom.
pub open spec fn is_padding(b: u8) -> bool {
    is_space(b) || b == OPEN || b == CLOSE || b == COLON
}

/// Nothing but padding stands from `from` to `to`.
pub open spec fn padding(s: Seq<u8>, from: int, to: int) -> bool {
    from <= to && forall|j: int| from <= j < to ==> is_padding(#[trigger] s[j])
}

/// A literal of `kind` at `location` stands on a token of its kind. The
/// token of an atom begins one byte earlier, with the sigil.
pub open spec fn on_token(s: Seq<u8>, kind: LiteralKind, location: Location) -> bool {
    match kind {
        LiteralKind::Integer => lexeme(s, Rule::integer, location.start as int, location.end as int),
        LiteralKind::Float => lexeme(s, Rule::float, location.start as int, location.end as int),
        LiteralKind::Boolean => lexeme(s, Rule::true_, location.start as int, location.end as int)
            || lexeme(s, Rule::false_, location.start as int, location.end as int),
        LiteralKind::Atom => lexeme(s, Rule::atom, location.start - 1, location.end as int),
        LiteralKind::Variable => lexeme(
            s,
            Rule::variable,
            location.start as int,
            location.end as int,
        ),
    }
}

/// The syntax tree says what the text `s` says.
///
/// - A literal's text is the text of its range, and the range is that of a
///   token of the literal's kind.
/// - An operator's text is the text of its range, the range is that of an
///   operator token, and the operator's tag is the one its text decides.
/// - Within an operation's range stand, in this order, the left operand, the
///   operator and the right operand, and nothing but padding beside them.
pub open spec fn faithful(s: Seq<u8>, e: ExpressionView) -> bool
    decreases e,
{
    match e {
        ExpressionView::Literal { kind, location, value } => {
            &&& location.start <= location.end <= s.len()
            &&& value == text_of(s.subrange(location.start as int, location.end as int))
            &&& on_token(s, kind, location)
        },
        ExpressionView::BinaryOperation { location, operator, left, right } => {
            &&& location.end <= s.len()
            &&& operator.value == text_of(
                s.subrange(operator.location.start as int, operator.location.end as int),
            )
            &&& lexeme(s, Rule::operator, operator.location.start as int, operator.location.end as int)
            &&& operator.kind == symbol_kind(operator.value)
            &&& padding(s, location.start as int, left.location().start as int)
            &&& left.location().start <= left.location().end
            &&& padding(s, left.location().end as int, operator.location.start as int)
            &&& padding(s, operator.location.end as int, right.location().start as int)
            &&& right.location().start <= right.location().end
            &&& padding(s, right.location().end as int, location.end as int)
            &&& faithful(s, *left)
            &&& faithful(s, *right)
        },
    }
}

/// Every operation begins where its left operand begins, unless its range
/// begins with a parenthesis or a sigil, and ends where its right operand
/// ends, unless its range ends with a parenthesis.
pub open spec fn tight(s: Seq<u8>, e: ExpressionView) -> bool
    decreases e,
{
    match e {
        ExpressionView::Literal { .. } => true,
        ExpressionView::BinaryOperation { location, operator, left, right } => {
            &&& location.start < location.end <= s.len()
            &&& s[location.start as int] != OPEN && s[location.start as int] != COLON
                ==> location.start == left.location().start
            &&& s[location.end - 1] != CLOSE ==> location.end == right.location().end
            &&& tight(s, *left)
            &&& tight(s, *right)
        },
    }
}

/// `part` is `e` or one of the expressions inside `e`.
pub open spec fn occurs(e: ExpressionView, part: ExpressionView) -> bool
    decreases e,
{
    e == part || match e {
        ExpressionView::Literal { .. } => false,
        ExpressionView::BinaryOperation { left, right, .. } => occurs(*left, part) || occurs(
            *right,
            part,
        ),
    }
}

/// The literal of a token says what the token says.
pub proof fn lemma_literal_faithful(s: Seq<u8>, p: PairView)
    requires
        is_token(s, p),
        is_literal_rule(p.rule),
    ensures
        p.wf(),
        faithful(s, literal_of(p)),
        literal_of(p).wf(),
        literal_of(p).location().end == p.end,
        literal_of(p).location().start == p.start || (s[p.start as int] == COLON && literal_of(
            p,
        ).location().start == p.start + 1),
{
    let bytes = s.subrange(p.start as int, p.end as int);
    lemma_lexeme_ascii(s, p.rule, p.start as int, p.end as int);
    lemma_text_encoding(bytes);
    match p.rule {
        Rule::true_ => {
            assert(bytes == true_word());
            assert(text_of(bytes) =~= true_text());
        },
        Rule::false_ => {
            assert(bytes == false_word());
            assert(text_of(bytes) =~= false_text());
        },
        Rule::atom => {
            assert(bytes[0] == COLON);
            assert(has_sigil(p.string));
            assert(p.string.drop_first() =~= text_of(s.subrange(p.start + 1, p.end as int)));
        },
        _ => {},
    }
}

/// How the range of an expression lies in the range of the node that it was
/// built from: within it, with nothing but padding beside it, and up to the
/// node's edges unless a parenthesis or a sigil stands there.
pub open spec fn edges(s: Seq<u8>, p: PairView, l: Location) -> bool {
    &&& p.start <= l.start <= l.end <= p.end
    &&& padding(s, p.start as int, l.start as int)
    &&& padding(s, l.end as int, p.end as int)
    &&& l.start == p.start || s[p.start as int] == OPEN || s[p.start as int] == COLON
    &&& l.end == p.end || s[p.end - 1] == CLOSE
}

/// A tree of a text has the shape that the transform reads, and the
/// expression built from it says what the text says.
pub proof fn lemma_transform_faithful(s: Seq<u8>, p: PairView, tier: nat)
    requires
        derives(s, p, tier),
    ensures
        transformable(p),
        expression_of(p).wf(),
        faithful(s, expression_of(p)),
        tight(s, expression_of(p)),
        edges(s, p, expression_of(p).location()),
    decreases p,
{
    match p.rule {
        Rule::literal => {
            lemma_literal_faithful(s, p.children[0]);
        },
        Rule::expression => {
            lemma_transform_faithful(s, p.children[0], 2);
        },
        _ => {
            let l = p.children[0];
            let o = p.children[1];
            let r = p.children[2];
            lemma_transform_faithful(s, l, rule_tier(p.rule));
            lemma_transform_faithful(s, r, (rule_tier(p.rule) - 1) as nat);
            let e = expression_of(p);
            assert(e == ExpressionView::BinaryOperation {
                location: span_of(p),
                operator: operator_of(o),
                left: Box::new(expression_of(l)),
                right: Box::new(expression_of(r)),
            });
            assert(padding(s, expression_of(l).location().end as int, o.start as int));
            assert(padding(s, o.end as int, expression_of(r).location().start as int));
        },
    }
}

/// The expression built from the tree of a whole text says what the text
/// says.
pub proof fn lemma_text_faithful(s: Seq<u8>, p: PairView)
    requires
        derives_text(s, p),
    ensures
        transformable(p),
        expression_of(p).wf(),
        faithful(s, expression_of(p)),
        tight(s, expression_of(p)),
{
    lemma_transform_faithful(s, p.children[0], 2);
}

/// The tree of a text under a rule that names trees has the shape that the
/// transform reads.
pub proof fn lemma_rule_transformable(s: Seq<u8>, rule: Rule, p: PairView)
    requires
        derives_rule(s, rule, p),
        is_tree_rule(rule),
    ensures
        transformable(p),
{
    if rule == Rule::expression {
        lemma_text_faithful(s, p);
    } else {
        lemma_transform_faithful(s, p, 2);
    }
}

/// What holds of an expression holds of every expression inside it.
pub proof fn lemma_part_faithful(s: Seq<u8>, e: ExpressionView, part: ExpressionView)
    requires
        faithful(s, e),
        occurs(e, part),
    ensures
        faithful(s, part),
    decreases e,
{
    if e != part {
        match e {
            ExpressionView::Literal { .. } => {},
            ExpressionView::BinaryOperation { left, right, .. } => {
                if occurs(*left, part) {
                    lemma_part_faithful(s, *left, part);
                } else {
                    lemma_part_faithful(s, *right, part);
                }
            },
        }
    }
}

/// The expression that a text stands for says what the text says: every
/// text in it is the text of its range, every literal stands on a token of
/// its kind, and every operation holds its operands and its operator in
/// order, with nothing but padding beside them.
pub proof fn parse_is_faithful(s: Seq<u8>)
    requires
        s.len() <= usize::MAX,
    ensures
        match parse_text(s) {
            Ok(e) => e.wf() && faithful(s, e) && tight(s, e),
            Err(o) => 0 <= o <= s.len(),
        },
{
    lemma_parse_derives(s);
    match parse_rule(s, Rule::expression) {
        Ok(p) => {
            lemma_text_faithful(s, p);
        },
        Err(_) => {},
    }
}

/// Within a range, a run ends where it ends in the whole text, or where the
/// range ends.
pub proof fn lemma_run_in_range(s: Seq<u8>, class: ByteClass, from: int, to: int, a: int)
    requires
        0 <= from <= a <= to <= s.len(),
    ensures
        run_end(s.subrange(from, to), class, a - from) == if run_end(s, class, a) <= to {
            run_end(s, class, a) - from
        } else {
            to - from
        },
    decreases to - a,
{
    let part = s.subrange(from, to);
    lemma_run_end(s, class, a);
    if a < to && class.holds(s[a]) {
        assert(part[a - from] == s[a]);
        lemma_run_in_range(s, class, from, to, a + 1);
    }
}

/// A token taken alone is a token still.
pub proof fn lemma_lexeme_alone(s: Seq<u8>, rule: Rule, start: int, end: int)
    requires
        lexeme(s, rule, start, end),
    ensures
        lexeme(s.subrange(start, end), rule, 0, end - start),
{
    let part = s.subrange(start, end);
    assert(part[0] == s[start]);
    match rule {
        Rule::integer => {
            lemma_run_in_range(s, ByteClass::Digit, start, end, start);
        },
        Rule::float => {
            let dot = run_end(s, ByteClass::Digit, start);
            lemma_run_end(s, ByteClass::Digit, start);
            lemma_run_end(s, ByteClass::Digit, dot + 1);
            lemma_run_in_range(s, ByteClass::Digit, start, end, start);
            lemma_run_in_range(s, ByteClass::Digit, start, end, dot + 1);
            assert(part[dot - start] == s[dot]);
        },
        Rule::atom => {
            lemma_run_end(s, ByteClass::Word, start + 1);
            lemma_run_in_range(s, ByteClass::Word, start, end, start + 1);
            assert(part[1] == s[start + 1]);
        },
        Rule::operator => {
            lemma_run_in_range(s, ByteClass::Symbol, start, end, start);
        },
        _ => {
            lemma_run_in_range(s, ByteClass::Word, start, end, start);
            assert(part.subrange(0, end - start) =~= part);
        },
    }
}

/// A text that is one literal token stands for that literal.
pub proof fn lemma_token_parses(b: Seq<u8>, rule: Rule)
    requires
        b.len() <= usize::MAX,
        is_literal_rule(rule),
        lexeme(b, rule, 0, b.len() as int),
    ensures
        parse_text(b) == Ok::<ExpressionView, int>(
            literal_of(node_at(b, rule, seq![], 0, b.len() as int)),
        ),
{
    let n = b.len() as int;
    let token = node_at(b, rule, seq![], 0, n);
    let literal = node_at(b, Rule::literal, seq![token], 0, n);
    let whole = node_at(b, Rule::expression, seq![literal], 0, n);
    lemma_run_end(b, ByteClass::Digit, 0);
    lemma_run_end(b, ByteClass::Word, 0);
    assert(b.subrange(0, n) =~= b);
    assert(token_at(b, 0) == Ok::<Match, int>(Match { node: token, next: n }));
    assert(literal_at(b, 0) == Ok::<Match, int>(Match { node: literal, next: n }));
    assert(level_at(b, 0, 0) == literal_at(b, 0));
    assert(run_end(b, ByteClass::Space, n) == n);
    assert(run_end(b, ByteClass::Symbol, n) == n);
    assert(rest_at(b, 1, literal, n) == Ok::<Match, int>(Match { node: literal, next: n }));
    assert(level_at(b, 1, 0) == Ok::<Match, int>(Match { node: literal, next: n }));
    assert(rest_at(b, 2, literal, n) == Ok::<Match, int>(Match { node: literal, next: n }));
    assert(level_at(b, 2, 0) == Ok::<Match, int>(Match { node: literal, next: n }));
    assert(run_end(b, ByteClass::Space, 0) == 0);
    assert(rule_at(b, Rule::expression, 0) == Ok::<Match, int>(Match { node: whole, next: n }));
    assert(parse_rule(b, Rule::expression) == Ok::<PairView, int>(whole));
    assert(whole.children[0] == literal);
    assert(literal.children[0] == token);
    assert(expression_of(literal) == literal_of(token));
    assert(expression_of(whole) == expression_of(literal));
}

/// The rule of the token that a literal stands on. An atom's token begins
/// one byte before the atom, so an atom has none here.
pub open spec fn token_rule(s: Seq<u8>, kind: LiteralKind, location: Location) -> Rule {
    match kind {
        LiteralKind::Integer => Rule::integer,
        LiteralKind::Float => Rule::float,
        LiteralKind::Boolean => if lexeme(
            s,
            Rule::true_,
            location.start as int,
            location.end as int,
        ) {
            Rule::true_
        } else {
            Rule::false_
        },
        _ => Rule::variable,
    }
}

/// Parsing the range of a literal again gives the same literal at offset
/// zero. This holds of every literal inside the expression that a text
/// stands for, but for atoms: the range of an atom leaves the sigil out, so
/// what it holds reads as a variable or a keyword.
pub proof fn literal_parses_again(s: Seq<u8>, e: ExpressionView, part: ExpressionView)
    requires
        s.len() <= usize::MAX,
        parse_text(s) == Ok::<ExpressionView, int>(e),
        occurs(e, part),
        part is Literal,
        part->kind != LiteralKind::Atom,
    ensures
        parse_text(s.subrange(part.location().start as int, part.location().end as int)) == Ok::<
            ExpressionView,
            int,
        >(
            ExpressionView::Literal {
                kind: part->kind,
                location: Location { start: 0, end: (part.location().end - part.location().start) as usize },
                value: part->value,
            },
        ),
{
    parse_is_faithful(s);
    lemma_part_faithful(s, e, part);
    let location = part.location();
    let bytes = s.subrange(location.start as int, location.end as int);
    let rule = token_rule(s, part->kind, location);
    lemma_lexeme_alone(s, rule, location.start as int, location.end as int);
    lemma_token_parses(bytes, rule);
    assert(bytes.subrange(0, bytes.len() as int) =~= bytes);
    if rule == Rule::true_ {
        assert(bytes == true_word());
        assert(text_of(bytes) =~= true_text());
    }
    if rule == Rule::false_ {
        assert(bytes == false_word());
        assert(text_of(bytes) =~= false_text());
    }
}

} // verus!
