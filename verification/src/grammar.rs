//! The grammar of the language, as a function from the bytes of the source
//! to the parse tree.
//!
//! ```text
//! expression := chain of tier 2
//! chain of tier n := chain of tier n-1, then any number of
//!                    (operator of tier n, chain of tier n-1)
//! chain of tier 0 := "(" expression ")" | literal
//! literal    := float | integer | "true" | "false" | atom | variable
//! float      := digit+ "." digit*
//! integer    := digit+
//! atom       := ":" word
//! variable   := word
//! word       := (letter | "_") (letter | digit | "_")*
//! operator   := symbol+
//! symbol     := "+" | "-" | "*" | "/" | "%" | "<" | ">" | "=" | "!" | "&" | "|" | "^" | "~"
//! ```
//!
//! A token is the longest run of its bytes. Blanks (space, tab, line feed,
//! carriage return) may stand between tokens. An operator that begins with
//! `*`, `/` or `%` is of tier 1 and binds tighter than every other operator,
//! which is of tier 2; so `+` and `<=>` are of tier 2, `*`, `**` and `**>` of
//! tier 1. Chains group to the left. Letters and digits are those of ASCII.
//!
//! [`level_at`] and its companions say what the grammar finds, position by
//! position, and the parser is proved to find just that. What a tree of a
//! text is, without reference to positions and order of search, is said in
//! [`crate::derivation`], together with the proof that both agree.

use vstd::prelude::*;
use vstd::string::*;
use vstd::utf8::*;
use crate::bytes::{
    ascii_until, begins_word, is_digit, is_word_start, lemma_ascii_boundary, lemma_run_ascii,
    lemma_run_end, lemma_text_encoding, run_end, scan, text_of, ByteClass, CLOSE, COLON, DOT,
    OPEN, PERCENT, SLASH, STAR,
};
use crate::derivation::{derives_rule, is_tree_rule, lemma_rule_derives, rule_tree_is_found};
use crate::laws::lemma_rule_transformable;
use crate::pair::{models, LaserPair, PairView, Rule};
use crate::transform::transformable;

verus! {

/// The place where a text stops matching the grammar.
#[derive(Clone, Copy, Debug, PartialEq, Eq, Structural)]
pub struct SyntaxError {
    /// The offset of the first byte that cannot be matched; the length of
    /// the text where it ends too early.
    pub offset: usize,
}

/// A node that matched, and the position behind it.
pub ghost struct Match {
    pub node: PairView,
    pub next: int,
}

/// The node of `rule` over the bytes from `start` to `end`.
pub open spec fn node_at(
    s: Seq<u8>,
    rule: Rule,
    children: Seq<PairView>,
    start: int,
    end: int,
) -> PairView {
    PairView {
        rule,
        children,
        start: start as usize,
        end: end as usize,
        string: text_of(s.subrange(start, end)),
    }
}

/// The bytes of the keyword `true`.
pub open spec fn true_word() -> Seq<u8> {
    seq![116u8, 114u8, 117u8, 101u8]
}

/// The bytes of the keyword `false`.
pub open spec fn false_word() -> Seq<u8> {
    seq![102u8, 97u8, 108u8, 115u8, 101u8]
}

/// What a word is: one of the two keywords, or else a variable.
pub open spec fn word_rule(word: Seq<u8>) -> Rule {
    if word == true_word() {
        Rule::true_
    } else if word == false_word() {
        Rule::false_
    } else {
        Rule::variable
    }
}

/// The literal token that begins at `i`.
pub open spec fn token_at(s: Seq<u8>, i: int) -> Result<Match, int> {
    if !(0 <= i < s.len()) {
        Err(i)
    } else if is_digit(s[i]) {
        let e = run_end(s, ByteClass::Digit, i);
        if e < s.len() && s[e] == DOT {
            let f = run_end(s, ByteClass::Digit, e + 1);
            Ok(Match { node: node_at(s, Rule::float, seq![], i, f), next: f })
        } else {
            Ok(Match { node: node_at(s, Rule::integer, seq![], i, e), next: e })
        }
    } else if s[i] == COLON {
        if i + 1 < s.len() && is_word_start(s[i + 1]) {
            let e = run_end(s, ByteClass::Word, i + 1);
            Ok(Match { node: node_at(s, Rule::atom, seq![], i, e), next: e })
        } else {
            Err(i + 1)
        }
    } else if is_word_start(s[i]) {
        let e = run_end(s, ByteClass::Word, i);
        Ok(Match { node: node_at(s, word_rule(s.subrange(i, e)), seq![], i, e), next: e })
    } else {
        Err(i)
    }
}

/// The literal that begins at `i`: a node around its one token.
pub open spec fn literal_at(s: Seq<u8>, i: int) -> Result<Match, int> {
    match token_at(s, i) {
        Ok(m) => Ok(Match { node: node_at(s, Rule::literal, seq![m.node], i, m.next), next: m.next }),
        Err(o) => Err(o),
    }
}

/// The operator token that begins at `i`.
pub open spec fn operator_at(s: Seq<u8>, i: int) -> Result<Match, int> {
    let e = run_end(s, ByteClass::Symbol, i);
    if e > i {
        Ok(Match { node: node_at(s, Rule::operator, seq![], i, e), next: e })
    } else {
        Err(i)
    }
}

/// The tier of the operators that begin with `b`: those that begin like a
/// multiplication bind tighter than all others.
pub open spec fn tier_of(b: u8) -> nat {
    if b == STAR || b == SLASH || b == PERCENT {
        1
    } else {
        2
    }
}

/// The rule that tags the operations of a tier.
pub open spec fn tier_rule(tier: nat) -> Rule {
    if tier == 1 {
        Rule::level_1_bin_op
    } else {
        Rule::level_2_bin_op
    }
}

/// The chain of `tier` that begins at `i`. At tier 0 this is a literal or an
/// expression in parentheses; the node of the latter wraps the expression
/// and spans the parentheses. A chain that takes no byte is no match.
pub open spec fn level_at(s: Seq<u8>, tier: nat, i: int) -> Result<Match, int>
    decreases s.len() - i, tier, 1nat,
{
    if !(0 <= i <= s.len()) {
        Err(i)
    } else if tier == 0 {
        if i < s.len() && s[i] == OPEN {
            let j = run_end(s, ByteClass::Space, i + 1);
            proof {
                lemma_run_end(s, ByteClass::Space, i + 1);
            }
            match level_at(s, 2, j) {
                Ok(m) => {
                    let k = run_end(s, ByteClass::Space, m.next);
                    if 0 <= k < s.len() && s[k] == CLOSE {
                        Ok(
                            Match {
                                node: node_at(s, Rule::expression, seq![m.node], i, k + 1),
                                next: k + 1,
                            },
                        )
                    } else {
                        Err(k)
                    }
                },
                Err(o) => Err(o),
            }
        } else {
            literal_at(s, i)
        }
    } else {
        match level_at(s, (tier - 1) as nat, i) {
            Ok(m) => if i < m.next <= s.len() {
                rest_at(s, tier, m.node, m.next)
            } else {
                Err(i)
            },
            Err(o) => Err(o),
        }
    }
}

/// The chain of `tier` whose operands so far make up `left` and end at
/// `pos`: where an operator of this tier follows, the next operand joins
/// `left` in a new node, and the chain goes on behind it.
pub open spec fn rest_at(s: Seq<u8>, tier: nat, left: PairView, pos: int) -> Result<Match, int>
    decreases s.len() - pos, tier, 0nat,
{
    let j = run_end(s, ByteClass::Space, pos);
    let e = run_end(s, ByteClass::Symbol, j);
    if 0 <= pos <= s.len() && tier > 0 && e > j && tier_of(s[j]) == tier {
        let k = run_end(s, ByteClass::Space, e);
        proof {
            lemma_run_end(s, ByteClass::Space, pos);
            lemma_run_end(s, ByteClass::Symbol, j);
            lemma_run_end(s, ByteClass::Space, e);
        }
        match level_at(s, (tier - 1) as nat, k) {
            Ok(m) => if k < m.next <= s.len() {
                rest_at(
                    s,
                    tier,
                    node_at(
                        s,
                        tier_rule(tier),
                        seq![left, node_at(s, Rule::operator, seq![], j, e), m.node],
                        left.start as int,
                        m.next,
                    ),
                    m.next,
                )
            } else {
                Err(k)
            },
            Err(o) => Err(o),
        }
    } else {
        Ok(Match { node: left, next: pos })
    }
}

/// What `rule` matches at `i`. An expression is a node around the chain of
/// the loosest tier; a rule of one tier matches only an operation of that
/// tier; a rule of one token matches only that token.
pub open spec fn rule_at(s: Seq<u8>, rule: Rule, i: int) -> Result<Match, int> {
    match rule {
        Rule::expression => match level_at(s, 2, i) {
            Ok(m) => Ok(
                Match { node: node_at(s, Rule::expression, seq![m.node], i, m.next), next: m.next },
            ),
            Err(o) => Err(o),
        },
        Rule::literal => literal_at(s, i),
        Rule::operator => operator_at(s, i),
        Rule::level_1_bin_op => match level_at(s, 1, i) {
            Ok(m) => if m.node.rule == Rule::level_1_bin_op {
                Ok(m)
            } else {
                Err(m.next)
            },
            Err(o) => Err(o),
        },
        Rule::level_2_bin_op => match level_at(s, 2, i) {
            Ok(m) => if m.node.rule == Rule::level_2_bin_op {
                Ok(m)
            } else {
                Err(m.next)
            },
            Err(o) => Err(o),
        },
        _ => match token_at(s, i) {
            Ok(m) => if m.node.rule == rule {
                Ok(m)
            } else {
                Err(i)
            },
            Err(o) => Err(o),
        },
    }
}

/// The parse tree of a whole text under `rule`: blanks may stand before and
/// behind what the rule matches, and nothing else may.
pub open spec fn parse_rule(s: Seq<u8>, rule: Rule) -> Result<PairView, int> {
    match rule_at(s, rule, run_end(s, ByteClass::Space, 0)) {
        Ok(m) => {
            let k = run_end(s, ByteClass::Space, m.next);
            if k == s.len() {
                Ok(m.node)
            } else {
                Err(k)
            }
        },
        Err(o) => Err(o),
    }
}

/// A result is settled when this holds of it: a match begins where it was
/// looked for, takes at least one byte, ends where its node ends, and takes
/// ASCII bytes only; a failure lies at or behind the place where the match
/// was looked for.
pub open spec fn settled(s: Seq<u8>, i: int, r: Result<Match, int>) -> bool {
    match r {
        Ok(m) => {
            &&& i < m.next <= s.len()
            &&& m.node.start == i
            &&& m.node.end == m.next
            &&& ascii_until(s, m.next)
        },
        Err(o) => i <= o <= s.len(),
    }
}

/// A literal token, and the literal around it, is settled.
pub proof fn lemma_token_settled(s: Seq<u8>, i: int)
    requires
        0 <= i <= s.len() <= usize::MAX,
        ascii_until(s, i),
    ensures
        settled(s, i, token_at(s, i)),
        settled(s, i, literal_at(s, i)),
{
    if i < s.len() {
        if is_digit(s[i]) {
            let e = run_end(s, ByteClass::Digit, i);
            lemma_run_end(s, ByteClass::Digit, i);
            lemma_run_ascii(s, ByteClass::Digit, i);
            if e < s.len() && s[e] == DOT {
                assert(ascii_until(s, e + 1));
                lemma_run_end(s, ByteClass::Digit, e + 1);
                lemma_run_ascii(s, ByteClass::Digit, e + 1);
            }
        } else if s[i] == COLON {
            if i + 1 < s.len() && is_word_start(s[i + 1]) {
                assert(ascii_until(s, i + 1));
                lemma_run_end(s, ByteClass::Word, i + 1);
                lemma_run_ascii(s, ByteClass::Word, i + 1);
            }
        } else if is_word_start(s[i]) {
            lemma_run_end(s, ByteClass::Word, i);
            lemma_run_ascii(s, ByteClass::Word, i);
        }
    }
}

/// An operator token is settled.
pub proof fn lemma_operator_settled(s: Seq<u8>, i: int)
    requires
        0 <= i <= s.len() <= usize::MAX,
        ascii_until(s, i),
    ensures
        settled(s, i, operator_at(s, i)),
{
    lemma_run_end(s, ByteClass::Symbol, i);
    lemma_run_ascii(s, ByteClass::Symbol, i);
}

/// A chain is settled.
pub proof fn lemma_level_settled(s: Seq<u8>, tier: nat, i: int)
    requires
        0 <= i <= s.len() <= usize::MAX,
        tier <= 2,
        ascii_until(s, i),
    ensures
        settled(s, i, level_at(s, tier, i)),
    decreases s.len() - i, tier, 1nat,
{
    if tier == 0 {
        if i < s.len() && s[i] == OPEN {
            let j = run_end(s, ByteClass::Space, i + 1);
            assert(ascii_until(s, i + 1));
            lemma_run_end(s, ByteClass::Space, i + 1);
            lemma_run_ascii(s, ByteClass::Space, i + 1);
            lemma_level_settled(s, 2, j);
            match level_at(s, 2, j) {
                Ok(m) => {
                    let k = run_end(s, ByteClass::Space, m.next);
                    lemma_run_end(s, ByteClass::Space, m.next);
                    lemma_run_ascii(s, ByteClass::Space, m.next);
                    if k < s.len() && s[k] == CLOSE {
                        assert(ascii_until(s, k + 1));
                    }
                },
                Err(o) => {},
            }
        } else {
            lemma_token_settled(s, i);
        }
    } else {
        lemma_level_settled(s, (tier - 1) as nat, i);
        match level_at(s, (tier - 1) as nat, i) {
            Ok(m) => {
                lemma_rest_settled(s, tier, m.node, m.next, i);
            },
            Err(o) => {},
        }
    }
}

/// A chain that is made longer stays settled.
pub proof fn lemma_rest_settled(s: Seq<u8>, tier: nat, left: PairView, pos: int, i: int)
    requires
        0 <= i < pos <= s.len() <= usize::MAX,
        1 <= tier <= 2,
        ascii_until(s, pos),
        left.start == i,
        left.end == pos,
    ensures
        settled(s, i, rest_at(s, tier, left, pos)),
        rest_at(s, tier, left, pos) is Err ==> pos <= rest_at(s, tier, left, pos)->Err_0,
    decreases s.len() - pos, tier, 0nat,
{
    let j = run_end(s, ByteClass::Space, pos);
    let e = run_end(s, ByteClass::Symbol, j);
    lemma_run_end(s, ByteClass::Space, pos);
    lemma_run_ascii(s, ByteClass::Space, pos);
    lemma_run_end(s, ByteClass::Symbol, j);
    lemma_run_ascii(s, ByteClass::Symbol, j);
    if e > j && tier_of(s[j]) == tier {
        let k = run_end(s, ByteClass::Space, e);
        lemma_run_end(s, ByteClass::Space, e);
        lemma_run_ascii(s, ByteClass::Space, e);
        lemma_level_settled(s, (tier - 1) as nat, k);
        match level_at(s, (tier - 1) as nat, k) {
            Ok(m) => {
                let node = node_at(
                    s,
                    tier_rule(tier),
                    seq![left, node_at(s, Rule::operator, seq![], j, e), m.node],
                    left.start as int,
                    m.next,
                );
                lemma_rest_settled(s, tier, node, m.next, i);
            },
            Err(o) => {},
        }
    }
}

/// What was found is what the grammar says.
pub open spec fn agrees(r: Result<(LaserPair, usize), usize>, m: Result<Match, int>) -> bool {
    match (r, m) {
        (Ok(found), Ok(m)) => found.0@ == m.node && found.1 == m.next,
        (Err(o), Err(p)) => o == p,
        _ => false,
    }
}

/// Builds a node over ASCII bytes of the source.
fn node(rule: Rule, children: Vec<LaserPair>, source: &str, start: usize, end: usize) -> (pair:
    LaserPair)
    requires
        start <= end <= source.spec_bytes().len(),
        ascii_until(source.spec_bytes(), end as int),
    ensures
        pair@ == node_at(source.spec_bytes(), rule, models(children@), start as int, end as int),
{
    proof {
        let all = source.spec_bytes();
        encode_utf8_valid_utf8(source@);
        lemma_ascii_boundary(all, start as int);
        lemma_ascii_boundary(all, end as int);
        lemma_text_encoding(all.subrange(start as int, end as int));
    }
    let pair = LaserPair::over(rule, children, source, start, end);
    assert(pair@.children =~= models(children@));
    pair
}

/// Builds a node without nodes inside it.
fn leaf(rule: Rule, source: &str, start: usize, end: usize) -> (pair: LaserPair)
    requires
        start <= end <= source.spec_bytes().len(),
        ascii_until(source.spec_bytes(), end as int),
    ensures
        pair@ == node_at(source.spec_bytes(), rule, seq![], start as int, end as int),
{
    let pair = node(rule, Vec::new(), source, start, end);
    assert(pair@.children =~= Seq::<PairView>::empty());
    pair
}

/// Builds a node around one node.
fn around(rule: Rule, inner: LaserPair, source: &str, start: usize, end: usize) -> (pair:
    LaserPair)
    requires
        start <= end <= source.spec_bytes().len(),
        ascii_until(source.spec_bytes(), end as int),
    ensures
        pair@ == node_at(source.spec_bytes(), rule, seq![inner@], start as int, end as int),
{
    let mut children = Vec::new();
    children.push(inner);
    let pair = node(rule, children, source, start, end);
    assert(pair@.children =~= seq![inner@]);
    pair
}

/// Tells a keyword from a variable.
fn word_rule_of(bytes: &[u8], i: usize, e: usize) -> (rule: Rule)
    requires
        i <= e <= bytes@.len(),
    ensures
        rule == word_rule(bytes@.subrange(i as int, e as int)),
{
    let ghost word = bytes@.subrange(i as int, e as int);
    if e - i == 4 && bytes[i] == 116 && bytes[i + 1] == 114 && bytes[i + 2] == 117 && bytes[i + 3]
        == 101 {
        assert(word =~= true_word());
        Rule::true_
    } else if e - i == 5 && bytes[i] == 102 && bytes[i + 1] == 97 && bytes[i + 2] == 108 && bytes[i
        + 3] == 115 && bytes[i + 4] == 101 {
        assert(word =~= false_word());
        Rule::false_
    } else {
        proof {
            if word == true_word() {
                assert(word.len() == 4);
                assert(word[0] == 116 && word[1] == 114 && word[2] == 117 && word[3] == 101);
            }
            if word == false_word() {
                assert(word.len() == 5);
                assert(word[0] == 102 && word[1] == 97 && word[2] == 108 && word[3] == 115
                    && word[4] == 101);
            }
        }
        Rule::variable
    }
}

/// Matches a literal token at `i`.
fn token(source: &str, i: usize) -> (r: Result<(LaserPair, usize), usize>)
    requires
        i <= source.spec_bytes().len() <= usize::MAX,
        ascii_until(source.spec_bytes(), i as int),
    ensures
        agrees(r, token_at(source.spec_bytes(), i as int)),
{
    let bytes = source.as_bytes();
    proof {
        lemma_token_settled(bytes@, i as int);
    }
    if i >= bytes.len() {
        Err(i)
    } else if ByteClass::Digit.contains(bytes[i]) {
        let e = scan(bytes, ByteClass::Digit, i);
        if e < bytes.len() && bytes[e] == DOT {
            let f = scan(bytes, ByteClass::Digit, e + 1);
            Ok((leaf(Rule::float, source, i, f), f))
        } else {
            Ok((leaf(Rule::integer, source, i, e), e))
        }
    } else if bytes[i] == COLON {
        if i + 1 < bytes.len() && begins_word(bytes[i + 1]) {
            let e = scan(bytes, ByteClass::Word, i + 1);
            Ok((leaf(Rule::atom, source, i, e), e))
        } else {
            Err(i + 1)
        }
    } else if begins_word(bytes[i]) {
        let e = scan(bytes, ByteClass::Word, i);
        let rule = word_rule_of(bytes, i, e);
        Ok((leaf(rule, source, i, e), e))
    } else {
        Err(i)
    }
}

/// Matches a literal at `i`.
fn literal_node(source: &str, i: usize) -> (r: Result<(LaserPair, usize), usize>)
    requires
        i <= source.spec_bytes().len() <= usize::MAX,
        ascii_until(source.spec_bytes(), i as int),
    ensures
        agrees(r, literal_at(source.spec_bytes(), i as int)),
{
    proof {
        lemma_token_settled(source.spec_bytes(), i as int);
    }
    match token(source, i) {
        Ok((inner, next)) => {
            Ok((around(Rule::literal, inner, source, i, next), next))
        },
        Err(o) => Err(o),
    }
}

/// Matches an operator token at `i`.
fn operator_token(source: &str, i: usize) -> (r: Result<(LaserPair, usize), usize>)
    requires
        i <= source.spec_bytes().len() <= usize::MAX,
        ascii_until(source.spec_bytes(), i as int),
    ensures
        agrees(r, operator_at(source.spec_bytes(), i as int)),
{
    let bytes = source.as_bytes();
    proof {
        lemma_operator_settled(bytes@, i as int);
    }
    let e = scan(bytes, ByteClass::Symbol, i);
    if e > i {
        Ok((leaf(Rule::operator, source, i, e), e))
    } else {
        Err(i)
    }
}

/// The tier of the operators that begin with `b`.
fn tier_of_byte(b: u8) -> (tier: u8)
    ensures
        tier == tier_of(b),
{
    if b == STAR || b == SLASH || b == PERCENT {
        1
    } else {
        2
    }
}

/// The rule that tags the operations of a tier.
fn rule_of_tier(tier: u8) -> (rule: Rule)
    ensures
        rule == tier_rule(tier as nat),
{
    if tier == 1 {
        Rule::level_1_bin_op
    } else {
        Rule::level_2_bin_op
    }
}

/// Matches a chain of `tier` at `i`.
fn level(source: &str, tier: u8, i: usize) -> (r: Result<(LaserPair, usize), usize>)
    requires
        tier <= 2,
        i <= source.spec_bytes().len() <= usize::MAX,
        ascii_until(source.spec_bytes(), i as int),
    ensures
        agrees(r, level_at(source.spec_bytes(), tier as nat, i as int)),
    decreases source.spec_bytes().len() - i, tier,
{
    let bytes = source.as_bytes();
    let ghost s = bytes@;
    if tier == 0 {
        if i < bytes.len() && bytes[i] == OPEN {
            let j = scan(bytes, ByteClass::Space, i + 1);
            proof {
                assert(ascii_until(s, i + 1));
                lemma_run_ascii(s, ByteClass::Space, i + 1);
                lemma_level_settled(s, 2, j as int);
            }
            match level(source, 2, j) {
                Ok((inner, next)) => {
                    let k = scan(bytes, ByteClass::Space, next);
                    proof {
                        lemma_run_ascii(s, ByteClass::Space, next as int);
                    }
                    if k < bytes.len() && bytes[k] == CLOSE {
                        assert(ascii_until(s, k + 1));
                        Ok((around(Rule::expression, inner, source, i, k + 1), k + 1))
                    } else {
                        Err(k)
                    }
                },
                Err(o) => Err(o),
            }
        } else {
            literal_node(source, i)
        }
    } else {
        proof {
            lemma_level_settled(s, (tier - 1) as nat, i as int);
        }
        match level(source, tier - 1, i) {
            Ok((first, next)) => {
                let ghost goal = level_at(s, tier as nat, i as int);
                let mut left = first;
                let mut pos = next;
                loop
                    invariant
                        s == source.spec_bytes(),
                        bytes@ == s,
                        1 <= tier <= 2,
                        i < pos <= s.len(),
                        left@.start == i,
                        left@.end == pos,
                        ascii_until(s, pos as int),
                        rest_at(s, tier as nat, left@, pos as int) == goal,
                        goal == level_at(s, tier as nat, i as int),
                    decreases s.len() - pos,
                {
                    let j = scan(bytes, ByteClass::Space, pos);
                    let e = scan(bytes, ByteClass::Symbol, j);
                    if e == j || tier_of_byte(bytes[j]) != tier {
                        return Ok((left, pos));
                    }
                    let k = scan(bytes, ByteClass::Space, e);
                    proof {
                        lemma_run_ascii(s, ByteClass::Space, pos as int);
                        lemma_run_ascii(s, ByteClass::Symbol, j as int);
                        lemma_run_ascii(s, ByteClass::Space, e as int);
                        lemma_level_settled(s, (tier - 1) as nat, k as int);
                    }
                    match level(source, tier - 1, k) {
                        Ok((right, next)) => {
                            let op = leaf(Rule::operator, source, j, e);
                            let ghost views = seq![left@, op@, right@];
                            let start = left.start;
                            let mut children = Vec::new();
                            children.push(left);
                            children.push(op);
                            children.push(right);
                            assert(models(children@) =~= views);
                            left = node(rule_of_tier(tier), children, source, start, next);
                            pos = next;
                        },
                        Err(o) => {
                            return Err(o);
                        },
                    }
                }
            },
            Err(o) => Err(o),
        }
    }
}

/// Matches `rule` at `i`.
fn matched(source: &str, rule: Rule, i: usize) -> (r: Result<(LaserPair, usize), usize>)
    requires
        i <= source.spec_bytes().len() <= usize::MAX,
        ascii_until(source.spec_bytes(), i as int),
    ensures
        agrees(r, rule_at(source.spec_bytes(), rule, i as int)),
{
    let ghost s = source.spec_bytes();
    match rule {
        Rule::expression => {
            proof {
                lemma_level_settled(s, 2, i as int);
            }
            match level(source, 2, i) {
                Ok((inner, next)) => {
                    Ok((around(Rule::expression, inner, source, i, next), next))
                },
                Err(o) => Err(o),
            }
        },
        Rule::literal => literal_node(source, i),
        Rule::operator => operator_token(source, i),
        Rule::level_1_bin_op => {
            proof {
                lemma_level_settled(s, 1, i as int);
            }
            match level(source, 1, i) {
                Ok((pair, next)) => if pair.rule == Rule::level_1_bin_op {
                    Ok((pair, next))
                } else {
                    Err(next)
                },
                Err(o) => Err(o),
            }
        },
        Rule::level_2_bin_op => {
            proof {
                lemma_level_settled(s, 2, i as int);
            }
            match level(source, 2, i) {
                Ok((pair, next)) => if pair.rule == Rule::level_2_bin_op {
                    Ok((pair, next))
                } else {
                    Err(next)
                },
                Err(o) => Err(o),
            }
        },
        _ => match token(source, i) {
            Ok((pair, next)) => if pair.rule == rule {
                Ok((pair, next))
            } else {
                Err(i)
            },
            Err(o) => Err(o),
        },
    }
}

/// The parser of the language.
pub struct LaserParser;

impl LaserParser {
    /// Matches the whole of `input` against `rule` and gives the parse tree,
    /// or the place where the text stops matching.
    ///
    /// The text matches exactly where it has a tree under `rule`; the tree
    /// that is given is that tree, which is the only one. Under a rule that
    /// names trees and not single tokens, it is a tree that the transform
    /// reads.
    pub fn parse(rule: Rule, input: &str) -> (r: Result<LaserPair, SyntaxError>)
        ensures
            match parse_rule(input.spec_bytes(), rule) {
                Ok(tree) => r is Ok && r->Ok_0@ == tree,
                Err(o) => r is Err && r->Err_0.offset == o,
            },
            r is Ok ==> derives_rule(input.spec_bytes(), rule, r->Ok_0@),
            forall|tree: PairView| #[trigger]
                derives_rule(input.spec_bytes(), rule, tree) ==> r is Ok && r->Ok_0@ == tree,
            r is Ok && is_tree_rule(rule) ==> transformable(r->Ok_0@),
            r is Err ==> r->Err_0.offset <= input.spec_bytes().len(),
    {
        let bytes = input.as_bytes();
        let ghost s = bytes@;
        let n = bytes.len();
        let i = scan(bytes, ByteClass::Space, 0);
        proof {
            lemma_run_ascii(s, ByteClass::Space, 0);
            lemma_rule_derives(s, rule);
            assert forall|tree: PairView| #[trigger] derives_rule(s, rule, tree) implies parse_rule(
                s,
                rule,
            ) == Ok::<PairView, int>(tree) by {
                rule_tree_is_found(s, rule, tree);
            }
            if is_tree_rule(rule) && parse_rule(s, rule) is Ok {
                lemma_rule_transformable(s, rule, parse_rule(s, rule)->Ok_0);
            }
        }
        match matched(input, rule, i) {
            Ok((pair, next)) => {
                proof {
                    lemma_rule_settled(s, rule, i as int);
                }
                let k = scan(bytes, ByteClass::Space, next);
                if k == n {
                    Ok(pair)
                } else {
                    Err(SyntaxError { offset: k })
                }
            },
            Err(o) => Err(SyntaxError { offset: o }),
        }
    }
}

/// Matches the whole of `input` against `rule`, as [`LaserParser::parse`]
/// does.
pub fn parse_with_rule(rule: Rule, input: &str) -> (r: Result<LaserPair, SyntaxError>)
    ensures
        match parse_rule(input.spec_bytes(), rule) {
            Ok(tree) => r is Ok && r->Ok_0@ == tree,
            Err(o) => r is Err && r->Err_0.offset == o,
        },
        r is Ok ==> derives_rule(input.spec_bytes(), rule, r->Ok_0@),
        forall|tree: PairView| #[trigger]
            derives_rule(input.spec_bytes(), rule, tree) ==> r is Ok && r->Ok_0@ == tree,
        r is Ok && is_tree_rule(rule) ==> transformable(r->Ok_0@),
        r is Err ==> r->Err_0.offset <= input.spec_bytes().len(),
{
    LaserParser::parse(rule, input)
}

/// What a rule matches is settled.
pub proof fn lemma_rule_settled(s: Seq<u8>, rule: Rule, i: int)
    requires
        0 <= i <= s.len() <= usize::MAX,
        ascii_until(s, i),
    ensures
        settled(s, i, rule_at(s, rule, i)),
{
    lemma_token_settled(s, i);
    lemma_operator_settled(s, i);
    lemma_level_settled(s, 1, i);
    lemma_level_settled(s, 2, i);
}

} // verus!
