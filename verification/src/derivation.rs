//! What it means for a parse tree to be a tree of a text, said without
//! reference to how the tree is found, and the proof that the grammar yields
//! such trees only.

use vstd::prelude::*;
use crate::bytes::{
    ascii_until, is_digit, is_space, is_word_start, lemma_run_ascii, lemma_run_end,
    lemma_run_end_is, run_end, text_of, ByteClass, CLOSE, COLON, DOT, OPEN,
};
use crate::grammar::{
    lemma_level_settled, lemma_operator_settled, lemma_token_settled, level_at, literal_at,
    node_at, operator_at, parse_rule, rest_at, rule_at, tier_of, tier_rule, token_at, word_rule,
    Match,
};
use crate::pair::{PairView, Rule};
use crate::transform::is_literal_rule;

verus! {

/// Only blanks stand from `from` to `to`.
pub open spec fn blank(s: Seq<u8>, from: int, to: int) -> bool {
    from <= to && forall|j: int| from <= j < to ==> is_space(#[trigger] s[j])
}

/// The bytes from `start` to `end` are one token of `rule`, and the token
/// does not go on behind `end`.
pub open spec fn lexeme(s: Seq<u8>, rule: Rule, start: int, end: int) -> bool {
    &&& 0 <= start < end <= s.len()
    &&& match rule {
        Rule::integer => {
            &&& is_digit(s[start])
            &&& end == run_end(s, ByteClass::Digit, start)
            &&& !(end < s.len() && s[end] == DOT)
        },
        Rule::float => {
            let dot = run_end(s, ByteClass::Digit, start);
            &&& is_digit(s[start])
            &&& dot < s.len()
            &&& s[dot] == DOT
            &&& end == run_end(s, ByteClass::Digit, dot + 1)
        },
        Rule::atom => {
            &&& s[start] == COLON
            &&& start + 1 < s.len()
            &&& is_word_start(s[start + 1])
            &&& end == run_end(s, ByteClass::Word, start + 1)
        },
        Rule::true_ | Rule::false_ | Rule::variable => {
            &&& is_word_start(s[start])
            &&& end == run_end(s, ByteClass::Word, start)
            &&& rule == word_rule(s.subrange(start, end))
        },
        Rule::operator => end == run_end(s, ByteClass::Symbol, start),
        _ => false,
    }
}

/// A token is made of ASCII bytes.
pub proof fn lemma_lexeme_ascii(s: Seq<u8>, rule: Rule, start: int, end: int)
    requires
        lexeme(s, rule, start, end),
    ensures
        ascii_until(s.subrange(start, end), end - start),
{
    let bytes = s.subrange(start, end);
    lemma_run_end(s, ByteClass::Digit, start);
    lemma_run_end(s, ByteClass::Word, start);
    lemma_run_end(s, ByteClass::Symbol, start);
    match rule {
        Rule::float => {
            let dot = run_end(s, ByteClass::Digit, start);
            lemma_run_end(s, ByteClass::Digit, dot + 1);
            assert forall|j: int| 0 <= j < end - start implies #[trigger] bytes[j] < 0x80 by {
                if start + j < dot {
                    assert(ByteClass::Digit.holds(s[start + j]));
                } else if start + j > dot {
                    assert(ByteClass::Digit.holds(s[start + j]));
                }
            }
        },
        Rule::atom => {
            lemma_run_end(s, ByteClass::Word, start + 1);
            assert forall|j: int| 0 <= j < end - start implies #[trigger] bytes[j] < 0x80 by {
                if j > 0 {
                    assert(ByteClass::Word.holds(s[start + j]));
                }
            }
        },
        Rule::integer => {
            assert forall|j: int| 0 <= j < end - start implies #[trigger] bytes[j] < 0x80 by {
                assert(ByteClass::Digit.holds(s[start + j]));
            }
        },
        Rule::operator => {
            assert forall|j: int| 0 <= j < end - start implies #[trigger] bytes[j] < 0x80 by {
                assert(ByteClass::Symbol.holds(s[start + j]));
            }
        },
        _ => {
            assert forall|j: int| 0 <= j < end - start implies #[trigger] bytes[j] < 0x80 by {
                assert(ByteClass::Word.holds(s[start + j]));
            }
        },
    }
}

/// The node's range lies in the text, and the node's text is the text of
/// its range.
pub open spec fn reads(s: Seq<u8>, p: PairView) -> bool {
    &&& p.start <= p.end <= s.len()
    &&& p.string == text_of(s.subrange(p.start as int, p.end as int))
}

/// The node is one token of its rule.
pub open spec fn is_token(s: Seq<u8>, p: PairView) -> bool {
    &&& reads(s, p)
    &&& p.children.len() == 0
    &&& lexeme(s, p.rule, p.start as int, p.end as int)
}

/// The tier of the operations that a rule tags.
pub open spec fn rule_tier(rule: Rule) -> nat {
    if rule == Rule::level_1_bin_op {
        1
    } else {
        2
    }
}

/// The tree is a tree of the text `s`, for an operand of an operation of
/// the tier above `tier`.
///
/// - A literal is a node around one literal token, with the token's range.
/// - An expression in parentheses is a node around the expression, from the
///   opening parenthesis to the closing one, with nothing but blanks
///   between the parentheses and the expression.
/// - An operation is a node around a left operand, an operator token of the
///   operation's tier and a right operand, from where the left operand
///   begins to where the right one ends, with nothing but blanks between the
///   three. Its left operand may be an operation of the same tier, its right
///   operand only one of a tighter tier, and it is itself of a tier no
///   looser than `tier`.
pub open spec fn derives(s: Seq<u8>, p: PairView, tier: nat) -> bool
    decreases p,
{
    &&& reads(s, p)
    &&& match p.rule {
        Rule::literal => {
            &&& p.children.len() == 1
            &&& is_literal_rule(p.children[0].rule)
            &&& is_token(s, p.children[0])
            &&& p.children[0].start == p.start
            &&& p.children[0].end == p.end
        },
        Rule::expression => {
            &&& p.children.len() == 1
            &&& derives(s, p.children[0], 2)
            &&& p.start < p.end
            &&& s[p.start as int] == OPEN
            &&& s[p.end - 1] == CLOSE
            &&& blank(s, p.start + 1, p.children[0].start as int)
            &&& blank(s, p.children[0].end as int, p.end - 1)
        },
        Rule::level_1_bin_op | Rule::level_2_bin_op => {
            &&& rule_tier(p.rule) <= tier
            &&& p.children.len() == 3
            &&& derives(s, p.children[0], rule_tier(p.rule))
            &&& derives(s, p.children[2], (rule_tier(p.rule) - 1) as nat)
            &&& p.children[1].rule == Rule::operator
            &&& is_token(s, p.children[1])
            &&& tier_of(s[p.children[1].start as int]) == rule_tier(p.rule)
            &&& p.children[0].start == p.start
            &&& p.children[2].end == p.end
            &&& blank(s, p.children[0].end as int, p.children[1].start as int)
            &&& blank(s, p.children[1].end as int, p.children[2].start as int)
        },
        _ => false,
    }
}

/// The tree is the tree of the whole text `s`: a node around an expression,
/// with the expression's range, and nothing but blanks before and behind
/// it.
pub open spec fn derives_text(s: Seq<u8>, p: PairView) -> bool {
    &&& p.rule == Rule::expression
    &&& reads(s, p)
    &&& p.children.len() == 1
    &&& derives(s, p.children[0], 2)
    &&& p.children[0].start == p.start
    &&& p.children[0].end == p.end
    &&& blank(s, 0, p.start as int)
    &&& blank(s, p.end as int, s.len() as int)
}

/// The rules that name trees which the transform reads: all but the rules
/// of single tokens.
pub open spec fn is_tree_rule(rule: Rule) -> bool {
    rule == Rule::expression || rule == Rule::literal || rule == Rule::level_1_bin_op || rule
        == Rule::level_2_bin_op
}

/// The tree is the tree of the whole text `s` under `rule`: a tree that is
/// tagged with the rule and is what the rule names, with nothing but blanks
/// before and behind it.
pub open spec fn derives_rule(s: Seq<u8>, rule: Rule, p: PairView) -> bool {
    &&& p.rule == rule
    &&& blank(s, 0, p.start as int)
    &&& blank(s, p.end as int, s.len() as int)
    &&& match rule {
        Rule::expression => derives_text(s, p),
        Rule::literal => derives(s, p, 0),
        Rule::level_1_bin_op => derives(s, p, 1),
        Rule::level_2_bin_op => derives(s, p, 2),
        _ => is_token(s, p),
    }
}

/// An operand of a tier is an operand of every looser tier.
pub proof fn lemma_derives_looser(s: Seq<u8>, p: PairView, tier: nat, looser: nat)
    requires
        derives(s, p, tier),
        tier <= looser,
    ensures
        derives(s, p, looser),
{
}

/// The token that the grammar finds is a token.
pub proof fn lemma_token_derives(s: Seq<u8>, i: int)
    requires
        0 <= i <= s.len() <= usize::MAX,
        ascii_until(s, i),
    ensures
        match token_at(s, i) {
            Ok(m) => is_token(s, m.node) && is_literal_rule(m.node.rule),
            Err(_) => true,
        },
        match literal_at(s, i) {
            Ok(m) => derives(s, m.node, 0),
            Err(_) => true,
        },
{
    lemma_token_settled(s, i);
    match token_at(s, i) {
        Ok(m) => {
            let p = node_at(s, Rule::literal, seq![m.node], i, m.next);
            assert(p.children[0] == m.node);
        },
        Err(_) => {},
    }
}

/// The chain that the grammar finds is a tree of the text.
pub proof fn lemma_level_derives(s: Seq<u8>, tier: nat, i: int)
    requires
        0 <= i <= s.len() <= usize::MAX,
        tier <= 2,
        ascii_until(s, i),
    ensures
        match level_at(s, tier, i) {
            Ok(m) => derives(s, m.node, tier),
            Err(_) => true,
        },
    decreases s.len() - i, tier, 1nat,
{
    lemma_level_settled(s, tier, i);
    if tier == 0 {
        if i < s.len() && s[i] == OPEN {
            let j = run_end(s, ByteClass::Space, i + 1);
            assert(ascii_until(s, i + 1));
            lemma_run_end(s, ByteClass::Space, i + 1);
            lemma_run_ascii(s, ByteClass::Space, i + 1);
            lemma_level_settled(s, 2, j);
            lemma_level_derives(s, 2, j);
            match level_at(s, 2, j) {
                Ok(m) => {
                    let k = run_end(s, ByteClass::Space, m.next);
                    lemma_run_end(s, ByteClass::Space, m.next);
                    if k < s.len() && s[k] == CLOSE {
                        let p = node_at(s, Rule::expression, seq![m.node], i, k + 1);
                        assert(p.children[0] == m.node);
                        assert(blank(s, p.start + 1, p.children[0].start as int));
                        assert(blank(s, p.children[0].end as int, p.end - 1));
                    }
                },
                Err(_) => {},
            }
        } else {
            lemma_token_derives(s, i);
        }
    } else {
        lemma_level_settled(s, (tier - 1) as nat, i);
        lemma_level_derives(s, (tier - 1) as nat, i);
        match level_at(s, (tier - 1) as nat, i) {
            Ok(m) => {
                lemma_derives_looser(s, m.node, (tier - 1) as nat, tier);
                lemma_rest_derives(s, tier, m.node, m.next, i);
            },
            Err(_) => {},
        }
    }
}

/// The chain that the grammar makes longer stays a tree of the text.
pub proof fn lemma_rest_derives(s: Seq<u8>, tier: nat, left: PairView, pos: int, i: int)
    requires
        0 <= i < pos <= s.len() <= usize::MAX,
        1 <= tier <= 2,
        ascii_until(s, pos),
        left.start == i,
        left.end == pos,
        derives(s, left, tier),
    ensures
        match rest_at(s, tier, left, pos) {
            Ok(m) => derives(s, m.node, tier),
            Err(_) => true,
        },
    decreases s.len() - pos, tier, 0nat,
{
    let j = run_end(s, ByteClass::Space, pos);
    let e = run_end(s, ByteClass::Symbol, j);
    lemma_run_end(s, ByteClass::Space, pos);
    lemma_run_ascii(s, ByteClass::Space, pos);
    lemma_run_end(s, ByteClass::Symbol, j);
    lemma_run_ascii(s, ByteClass::Symbol, j);
    if e > j && tier_of(s[j]) == tier {
        let k = run_end(s, ByteClass::Space, e);
        lemma_run_end(s, ByteClass::Space, e);
        lemma_run_ascii(s, ByteClass::Space, e);
        lemma_level_settled(s, (tier - 1) as nat, k);
        lemma_level_derives(s, (tier - 1) as nat, k);
        match level_at(s, (tier - 1) as nat, k) {
            Ok(m) => {
                let op = node_at(s, Rule::operator, seq![], j, e);
                let p = node_at(s, tier_rule(tier), seq![left, op, m.node], left.start as int, m.next);
                assert(p.children[0] == left);
                assert(p.children[1] == op);
                assert(p.children[2] == m.node);
                assert(is_token(s, op));
                assert(blank(s, left.end as int, op.start as int));
                assert(blank(s, op.end as int, m.node.start as int));
                assert(rule_tier(p.rule) == tier);
                assert(derives(s, p, tier));
                lemma_rest_derives(s, tier, p, m.next, i);
            },
            Err(_) => {},
        }
    }
}

/// The tree that the grammar finds for a whole text under a rule is the
/// tree of that text under that rule.
pub proof fn lemma_rule_derives(s: Seq<u8>, rule: Rule)
    requires
        s.len() <= usize::MAX,
    ensures
        match parse_rule(s, rule) {
            Ok(p) => derives_rule(s, rule, p),
            Err(o) => 0 <= o <= s.len(),
        },
{
    let i = run_end(s, ByteClass::Space, 0);
    lemma_run_end(s, ByteClass::Space, 0);
    lemma_run_ascii(s, ByteClass::Space, 0);
    lemma_token_settled(s, i);
    lemma_token_derives(s, i);
    lemma_operator_settled(s, i);
    lemma_level_settled(s, 1, i);
    lemma_level_derives(s, 1, i);
    lemma_level_settled(s, 2, i);
    lemma_level_derives(s, 2, i);
    match rule_at(s, rule, i) {
        Ok(m) => {
            lemma_run_end(s, ByteClass::Space, m.next);
            if rule == Rule::expression {
                let inner = level_at(s, 2, i)->Ok_0.node;
                assert(m.node.children[0] == inner);
            }
            if rule == Rule::operator {
                assert(m.node.children =~= Seq::<PairView>::empty());
            }
        },
        Err(_) => {},
    }
}

/// The tree that the grammar finds for a whole text is the tree of that
/// text.
pub proof fn lemma_parse_derives(s: Seq<u8>)
    requires
        s.len() <= usize::MAX,
    ensures
        match parse_rule(s, Rule::expression) {
            Ok(p) => derives_text(s, p),
            Err(o) => 0 <= o <= s.len(),
        },
{
    lemma_rule_derives(s, Rule::expression);
}

/// No operator of `tier`, or of a tighter one, follows the blanks at `pos`.
pub open spec fn stops(s: Seq<u8>, pos: int, tier: nat) -> bool {
    let j = run_end(s, ByteClass::Space, pos);
    let e = run_end(s, ByteClass::Symbol, j);
    !(e > j && tier_of(s[j]) <= tier)
}

/// A tree of a text takes at least one byte, and its first byte is no
/// blank.
pub proof fn lemma_derives_begins(s: Seq<u8>, p: PairView, tier: nat)
    requires
        derives(s, p, tier),
    ensures
        p.start < p.end <= s.len(),
        !is_space(s[p.start as int]),
    decreases p,
{
    match p.rule {
        Rule::level_1_bin_op | Rule::level_2_bin_op => {
            lemma_derives_begins(s, p.children[0], rule_tier(p.rule));
            lemma_derives_begins(s, p.children[2], (rule_tier(p.rule) - 1) as nat);
        },
        _ => {},
    }
}

/// Blanks that end at a byte that is no blank, or at the end of the text,
/// are a run of blanks.
pub proof fn lemma_blank_run(s: Seq<u8>, from: int, to: int)
    requires
        0 <= from,
        blank(s, from, to),
        to <= s.len(),
        to < s.len() ==> !is_space(s[to]),
    ensures
        run_end(s, ByteClass::Space, from) == to,
{
    assert forall|j: int| from <= j < to implies ByteClass::Space.holds(#[trigger] s[j]) by {
        assert(is_space(s[j]));
    }
    lemma_run_end_is(s, ByteClass::Space, from, to);
}

/// Where a token stands, the grammar finds it.
pub proof fn lemma_token_found(s: Seq<u8>, p: PairView)
    requires
        s.len() <= usize::MAX,
        is_token(s, p),
        is_literal_rule(p.rule),
    ensures
        token_at(s, p.start as int) == Ok::<Match, int>(Match { node: p, next: p.end as int }),
{
    assert(p.children =~= Seq::<PairView>::empty());
    assert(p == node_at(s, p.rule, seq![], p.start as int, p.end as int));
}

/// A node that is an operand of a tier, and is no operation of that tier,
/// is an operand of the next tighter tier.
pub proof fn lemma_derives_tighter(s: Seq<u8>, p: PairView, tier: nat)
    requires
        derives(s, p, tier),
        tier >= 1,
        !(p.rule == tier_rule(tier)),
        tier <= 2,
    ensures
        derives(s, p, (tier - 1) as nat),
{
}

/// Where a tree of the text stands, and no operator follows that could make
/// its chain longer, the grammar finds exactly that tree.
pub proof fn lemma_found(s: Seq<u8>, p: PairView, tier: nat)
    requires
        s.len() <= usize::MAX,
        tier <= 2,
        derives(s, p, tier),
        stops(s, p.end as int, tier),
    ensures
        level_at(s, tier, p.start as int) == Ok::<Match, int>(Match { node: p, next: p.end as int }),
    decreases p, tier, 1nat,
{
    lemma_derives_begins(s, p, tier);
    if tier == 0 {
        if p.rule == Rule::literal {
            let token = p.children[0];
            lemma_token_found(s, token);
            assert(p.children =~= seq![token]);
            assert(p == node_at(s, Rule::literal, seq![token], p.start as int, p.end as int));
        } else {
            let inner = p.children[0];
            let close = p.end - 1;
            lemma_derives_begins(s, inner, 2);
            lemma_blank_run(s, p.start + 1, inner.start as int);
            lemma_blank_run(s, inner.end as int, close);
            assert(run_end(s, ByteClass::Symbol, close) == close);
            lemma_found(s, inner, 2);
            assert(p.children =~= seq![inner]);
            assert(p == node_at(s, Rule::expression, seq![inner], p.start as int, close + 1));
        }
    } else {
        lemma_through(s, p, tier);
    }
}

/// Where a tree of the text stands, and no operator of a tighter tier
/// follows, the grammar comes by that tree on its way along the chain.
pub proof fn lemma_through(s: Seq<u8>, p: PairView, tier: nat)
    requires
        s.len() <= usize::MAX,
        1 <= tier <= 2,
        derives(s, p, tier),
        stops(s, p.end as int, (tier - 1) as nat),
    ensures
        level_at(s, tier, p.start as int) == rest_at(s, tier, p, p.end as int),
    decreases p, tier, 0nat,
{
    lemma_derives_begins(s, p, tier);
    if p.rule == tier_rule(tier) {
        let l = p.children[0];
        let o = p.children[1];
        let r = p.children[2];
        lemma_derives_begins(s, l, tier);
        lemma_derives_begins(s, r, (tier - 1) as nat);
        lemma_run_end(s, ByteClass::Symbol, o.start as int);
        assert(!is_space(s[o.start as int]));
        lemma_blank_run(s, l.end as int, o.start as int);
        lemma_blank_run(s, o.end as int, r.start as int);
        lemma_through(s, l, tier);
        lemma_found(s, r, (tier - 1) as nat);
        assert(o.children =~= Seq::<PairView>::empty());
        let op = node_at(s, Rule::operator, seq![], o.start as int, o.end as int);
        assert(o == op);
        assert(p.children =~= seq![l, op, r]);
        assert(p == node_at(s, tier_rule(tier), seq![l, op, r], l.start as int, r.end as int));
    } else {
        lemma_derives_tighter(s, p, tier);
        lemma_found(s, p, (tier - 1) as nat);
    }
}

/// A text has at most one tree under a rule, and where it has one, the
/// grammar finds it.
pub proof fn rule_tree_is_found(s: Seq<u8>, rule: Rule, p: PairView)
    requires
        s.len() <= usize::MAX,
        derives_rule(s, rule, p),
    ensures
        parse_rule(s, rule) == Ok::<PairView, int>(p),
{
    lemma_run_end(s, ByteClass::Space, s.len() as int);
    assert(run_end(s, ByteClass::Symbol, s.len() as int) == s.len());
    match rule {
        Rule::expression => {
            let inner = p.children[0];
            lemma_derives_begins(s, inner, 2);
            lemma_blank_run(s, 0, inner.start as int);
            lemma_blank_run(s, inner.end as int, s.len() as int);
            lemma_found(s, inner, 2);
            assert(p.children =~= seq![inner]);
            assert(p == node_at(s, Rule::expression, seq![inner], p.start as int, p.end as int));
        },
        Rule::literal => {
            lemma_derives_begins(s, p, 0);
            lemma_blank_run(s, 0, p.start as int);
            lemma_blank_run(s, p.end as int, s.len() as int);
            lemma_found(s, p, 0);
        },
        Rule::level_1_bin_op => {
            lemma_derives_begins(s, p, 1);
            lemma_blank_run(s, 0, p.start as int);
            lemma_blank_run(s, p.end as int, s.len() as int);
            lemma_found(s, p, 1);
        },
        Rule::level_2_bin_op => {
            lemma_derives_begins(s, p, 2);
            lemma_blank_run(s, 0, p.start as int);
            lemma_blank_run(s, p.end as int, s.len() as int);
            lemma_found(s, p, 2);
        },
        Rule::operator => {
            lemma_run_end(s, ByteClass::Symbol, p.start as int);
            lemma_blank_run(s, 0, p.start as int);
            lemma_blank_run(s, p.end as int, s.len() as int);
            assert(p.children =~= Seq::<PairView>::empty());
            assert(p == node_at(s, Rule::operator, seq![], p.start as int, p.end as int));
        },
        _ => {
            lemma_blank_run(s, 0, p.start as int);
            lemma_blank_run(s, p.end as int, s.len() as int);
            lemma_token_found(s, p);
        },
    }
}

/// A text has at most one tree, and where it has one, the grammar finds it.
pub proof fn tree_is_found(s: Seq<u8>, p: PairView)
    requires
        s.len() <= usize::MAX,
        derives_text(s, p),
    ensures
        parse_rule(s, Rule::expression) == Ok::<PairView, int>(p),
{
    rule_tree_is_found(s, Rule::expression, p);
}

} // verus!
