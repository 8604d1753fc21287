//! The parse tree that the grammar produces: untyped nodes, each tagged with
//! the rule that matched, the range it matched and the nodes inside it.

use vstd::prelude::*;
use vstd::string::*;
use vstd::utf8::*;

verus! {

/// The rules of the grammar.
#[allow(non_camel_case_types)]
#[derive(Clone, Copy, Debug, PartialEq, Eq, PartialOrd, Ord, Hash, Structural)]
pub enum Rule {
    /// An expression; as a node it wraps the one node that it consists of.
    expression,
    /// A literal; as a node it wraps one token.
    literal,
    /// A token of digits.
    integer,
    /// A token of digits, a point and any number of digits.
    float,
    /// The keyword `true`.
    true_,
    /// The keyword `false`.
    false_,
    /// A token of the sigil `:` and a word.
    atom,
    /// A word that is no keyword.
    variable,
    /// An operator token.
    operator,
    /// A binary operation of the tier that binds tighter.
    level_1_bin_op,
    /// A binary operation of the tier that binds looser.
    level_2_bin_op,
}

/// One node of the parse tree.
#[derive(Debug, PartialEq, Eq)]
pub struct LaserPair {
    /// The rule that matched.
    pub rule: Rule,
    /// The nodes that matched inside this one, in the order of the text.
    pub children: Vec<LaserPair>,
    /// The offset of the first byte that the rule matched.
    pub start: usize,
    /// The offset behind the last byte that the rule matched.
    pub end: usize,
    /// The text that the rule matched.
    pub string: String,
}

/// The model of a [`LaserPair`].
pub ghost struct PairView {
    pub rule: Rule,
    pub children: Seq<PairView>,
    pub start: usize,
    pub end: usize,
    pub string: Seq<char>,
}

impl PairView {
    /// The range is ordered, and it is as long as the text that it matched
    /// is in bytes.
    pub open spec fn wf(&self) -> bool {
        &&& self.start <= self.end
        &&& encode_utf8(self.string).len() == self.end - self.start
    }
}

impl LaserPair {
    /// Builds the node for a rule that matched the bytes of `source` from `start`
    /// to `end`, around the nodes that matched inside that range. The node's text
    /// is the text of the range.
    pub fn over(
        rule: Rule,
        children: Vec<LaserPair>,
        source: &str,
        start: usize,
        end: usize,
    ) -> (pair: LaserPair)
        requires
            start <= end <= source.spec_bytes().len(),
            is_char_boundary(source.spec_bytes(), start as int),
            is_char_boundary(source.spec_bytes(), end as int),
        ensures
            pair.rule == rule,
            pair.children == children,
            pair.start == start,
            pair.end == end,
            pair.string@ == decode_utf8(source.spec_bytes().subrange(start as int, end as int)),
            encode_utf8(pair.string@) == source.spec_bytes().subrange(start as int, end as int),
            pair@.wf(),
    {
        broadcast use group_utf8_lib;

        let ghost all = source.spec_bytes();
        let (head, _) = source.split_at(end);
        proof {
            assert(head.spec_bytes() == all.subrange(0, end as int));
            if start < end {
                is_char_boundary_iff_not_is_continuation_byte(all, start as int);
                is_char_boundary_iff_not_is_continuation_byte(head.spec_bytes(), start as int);
            } else {
                is_char_boundary_start_end_of_seq(head.spec_bytes());
            }
        }
        let (_, text) = head.split_at(start);
        assert(text.spec_bytes() =~= all.subrange(start as int, end as int));
        let string = text.to_owned();
        LaserPair { rule, children, start, end, string }
    }

    /// The model of the tree, node by node.
    pub open spec fn model(&self) -> PairView
        decreases self,
    {
        PairView {
            rule: self.rule,
            children: Seq::new(
                self.children@.len(),
                |i: int|
                    if 0 <= i < self.children@.len() {
                        self.children@[i].model()
                    } else {
                        arbitrary()
                    },
            ),
            start: self.start,
            end: self.end,
            string: self.string@,
        }
    }
}

/// The models of a row of nodes.
pub open spec fn models(pairs: Seq<LaserPair>) -> Seq<PairView> {
    Seq::new(pairs.len(), |i: int| pairs[i]@)
}

impl View for LaserPair {
    type V = PairView;

    open spec fn view(&self) -> PairView {
        self.model()
    }
}

} // verus!
