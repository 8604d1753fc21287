//! The typed syntax tree and its mathematical model.

use vstd::prelude::*;

verus! {

/// A half-open range `[start, end)` of byte offsets into the source text.
#[derive(Clone, Copy, Debug, PartialEq, Eq, Structural)]
pub struct Location {
    pub start: usize,
    pub end: usize,
}

impl Location {
    /// A range is well formed when it does not end before it starts.
    pub open spec fn wf(&self) -> bool {
        self.start <= self.end
    }

    pub fn new(start: usize, end: usize) -> (location: Self)
        requires
            start <= end,
        ensures
            location.start == start,
            location.end == end,
            location.wf(),
    {
        Self { start, end }
    }
}

/// The tag of an operator, without its payload.
#[derive(Clone, Copy, Debug, PartialEq, Eq, Structural)]
pub enum OperatorKind {
    Add,
    Sub,
    Mul,
    Div,
    Mod,
    Pow,
    Custom,
}

/// The tag that a symbol's text alone decides: the six built-in symbols have
/// a tag of their own, every other text is a custom operator.
pub open spec fn symbol_kind(symbol: Seq<char>) -> OperatorKind {
    if symbol == seq!['+'] {
        OperatorKind::Add
    } else if symbol == seq!['-'] {
        OperatorKind::Sub
    } else if symbol == seq!['*'] {
        OperatorKind::Mul
    } else if symbol == seq!['/'] {
        OperatorKind::Div
    } else if symbol == seq!['%'] {
        OperatorKind::Mod
    } else if symbol == seq!['*', '*'] {
        OperatorKind::Pow
    } else {
        OperatorKind::Custom
    }
}

/// An operator token: where it stands and what it reads.
#[derive(Debug, PartialEq, Eq)]
pub enum Operator {
    Add { location: Location, value: String },
    Sub { location: Location, value: String },
    Mul { location: Location, value: String },
    Div { location: Location, value: String },
    Mod { location: Location, value: String },
    Pow { location: Location, value: String },
    Custom { location: Location, value: String },
}

/// The model of an [`Operator`].
pub ghost struct OperatorView {
    pub kind: OperatorKind,
    pub location: Location,
    pub value: Seq<char>,
}

impl OperatorView {
    /// The range is ordered, and the tag is the one that the text decides:
    /// a built-in tag always carries its own symbol, and `Custom` never
    /// carries a built-in one.
    pub open spec fn wf(&self) -> bool {
        &&& self.location.wf()
        &&& self.kind == symbol_kind(self.value)
    }
}

impl Clone for Operator {
    fn clone(&self) -> (copy: Self)
        ensures
            copy == *self,
    {
        match self {
            Operator::Add { location, value } => Operator::Add {
                location: *location,
                value: value.clone(),
            },
            Operator::Sub { location, value } => Operator::Sub {
                location: *location,
                value: value.clone(),
            },
            Operator::Mul { location, value } => Operator::Mul {
                location: *location,
                value: value.clone(),
            },
            Operator::Div { location, value } => Operator::Div {
                location: *location,
                value: value.clone(),
            },
            Operator::Mod { location, value } => Operator::Mod {
                location: *location,
                value: value.clone(),
            },
            Operator::Pow { location, value } => Operator::Pow {
                location: *location,
                value: value.clone(),
            },
            Operator::Custom { location, value } => Operator::Custom {
                location: *location,
                value: value.clone(),
            },
        }
    }
}

impl View for Operator {
    type V = OperatorView;

    open spec fn view(&self) -> OperatorView {
        match self {
            Operator::Add { location, value } => OperatorView {
                kind: OperatorKind::Add,
                location: *location,
                value: value@,
            },
            Operator::Sub { location, value } => OperatorView {
                kind: OperatorKind::Sub,
                location: *location,
                value: value@,
            },
            Operator::Mul { location, value } => OperatorView {
                kind: OperatorKind::Mul,
                location: *location,
                value: value@,
            },
            Operator::Div { location, value } => OperatorView {
                kind: OperatorKind::Div,
                location: *location,
                value: value@,
            },
            Operator::Mod { location, value } => OperatorView {
                kind: OperatorKind::Mod,
                location: *location,
                value: value@,
            },
            Operator::Pow { location, value } => OperatorView {
                kind: OperatorKind::Pow,
                location: *location,
                value: value@,
            },
            Operator::Custom { location, value } => OperatorView {
                kind: OperatorKind::Custom,
                location: *location,
                value: value@,
            },
        }
    }
}

impl Operator {
    /// The operator's text as it stands in the source.
    pub fn value(&self) -> (value: &String)
        ensures
            value@ == self@.value,
    {
        match self {
            Operator::Add { value, .. } => value,
            Operator::Sub { value, .. } => value,
            Operator::Mul { value, .. } => value,
            Operator::Div { value, .. } => value,
            Operator::Mod { value, .. } => value,
            Operator::Pow { value, .. } => value,
            Operator::Custom { value, .. } => value,
        }
    }

    /// The range of the operator's token.
    pub fn location(&self) -> (location: Location)
        ensures
            location == self@.location,
    {
        match self {
            Operator::Add { location, .. } => *location,
            Operator::Sub { location, .. } => *location,
            Operator::Mul { location, .. } => *location,
            Operator::Div { location, .. } => *location,
            Operator::Mod { location, .. } => *location,
            Operator::Pow { location, .. } => *location,
            Operator::Custom { location, .. } => *location,
        }
    }
}

/// The tag of a literal expression.
#[derive(Clone, Copy, Debug, PartialEq, Eq, Structural)]
pub enum LiteralKind {
    Integer,
    Float,
    Boolean,
    Atom,
    Variable,
}

/// An expression. Literals keep the text they were written with; numbers are
/// not interpreted here.
#[derive(Debug, PartialEq, Eq)]
pub enum Expression {
    Integer { location: Location, value: String },
    Float { location: Location, value: String },
    Boolean { location: Location, value: String },
    Atom { location: Location, value: String },
    Variable { location: Location, value: String },
    BinaryOperation { location: Location, operator: Operator, left: Box<Self>, right: Box<Self> },
}

/// The model of an [`Expression`].
pub ghost enum ExpressionView {
    Literal { kind: LiteralKind, location: Location, value: Seq<char> },
    BinaryOperation {
        location: Location,
        operator: OperatorView,
        left: Box<ExpressionView>,
        right: Box<ExpressionView>,
    },
}

impl ExpressionView {
    /// The range of the node itself.
    pub open spec fn location(&self) -> Location {
        match self {
            ExpressionView::Literal { location, .. } => *location,
            ExpressionView::BinaryOperation { location, .. } => *location,
        }
    }

    /// Every range in the tree is ordered, every operator carries the tag
    /// that its text decides, and a boolean reads `true` or `false`.
    pub open spec fn wf(&self) -> bool
        decreases self,
    {
        match self {
            ExpressionView::Literal { kind, location, value } => {
                &&& location.wf()
                &&& *kind == LiteralKind::Boolean ==> *value == seq!['t', 'r', 'u', 'e'] || *value
                    == seq!['f', 'a', 'l', 's', 'e']
            },
            ExpressionView::BinaryOperation { location, operator, left, right } => {
                &&& location.wf()
                &&& operator.wf()
                &&& left.wf()
                &&& right.wf()
            },
        }
    }
}

impl Clone for Expression {
    fn clone(&self) -> (copy: Self)
        ensures
            copy == *self,
        decreases self,
    {
        match self {
            Expression::Integer { location, value } => Expression::Integer {
                location: *location,
                value: value.clone(),
            },
            Expression::Float { location, value } => Expression::Float {
                location: *location,
                value: value.clone(),
            },
            Expression::Boolean { location, value } => Expression::Boolean {
                location: *location,
                value: value.clone(),
            },
            Expression::Atom { location, value } => Expression::Atom {
                location: *location,
                value: value.clone(),
            },
            Expression::Variable { location, value } => Expression::Variable {
                location: *location,
                value: value.clone(),
            },
            Expression::BinaryOperation { location, operator, left, right } => {
                Expression::BinaryOperation {
                    location: *location,
                    operator: operator.clone(),
                    left: Box::new((&**left).clone()),
                    right: Box::new((&**right).clone()),
                }
            },
        }
    }
}

impl View for Expression {
    type V = ExpressionView;

    open spec fn view(&self) -> ExpressionView {
        self.model()
    }
}

impl Expression {
    /// The model of the tree, node by node.
    pub open spec fn model(&self) -> ExpressionView
        decreases self,
    {
        match self {
            Expression::Integer { location, value } => ExpressionView::Literal {
                kind: LiteralKind::Integer,
                location: *location,
                value: value@,
            },
            Expression::Float { location, value } => ExpressionView::Literal {
                kind: LiteralKind::Float,
                location: *location,
                value: value@,
            },
            Expression::Boolean { location, value } => ExpressionView::Literal {
                kind: LiteralKind::Boolean,
                location: *location,
                value: value@,
            },
            Expression::Atom { location, value } => ExpressionView::Literal {
                kind: LiteralKind::Atom,
                location: *location,
                value: value@,
            },
            Expression::Variable { location, value } => ExpressionView::Literal {
                kind: LiteralKind::Variable,
                location: *location,
                value: value@,
            },
            Expression::BinaryOperation { location, operator, left, right } => {
                ExpressionView::BinaryOperation {
                    location: *location,
                    operator: operator@,
                    left: Box::new(left.model()),
                    right: Box::new(right.model()),
                }
            },
        }
    }

    /// The range of the node itself.
    pub fn location(&self) -> (location: Location)
        ensures
            location == self@.location(),
    {
        match self {
            Expression::Integer { location, .. } => *location,
            Expression::Float { location, .. } => *location,
            Expression::Boolean { location, .. } => *location,
            Expression::Atom { location, .. } => *location,
            Expression::Variable { location, .. } => *location,
            Expression::BinaryOperation { location, .. } => *location,
        }
    }
}

} // verus!
