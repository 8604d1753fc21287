use laser_parser::ast::{Expression, Location, Operator};
use laser_parser::grammar::{parse_with_rule, LaserParser, SyntaxError};
use laser_parser::pair::{LaserPair, Rule};
use laser_parser::transform::{binary_operation, expression, is_transformable, literal, operator};

fn first_inner(mut pair: LaserPair) -> LaserPair {
    pair.children.remove(0)
}

fn leaf(rule: Rule, start: usize, end: usize, string: &str) -> LaserPair {
    LaserPair { rule, children: Vec::new(), start, end, string: string.to_string() }
}

fn integer(start: usize, end: usize, value: &str) -> Box<Expression> {
    Box::new(Expression::Integer { location: Location::new(start, end), value: value.to_string() })
}

#[test]
fn transform_literal_integer() {
    assert_eq!(
        literal(parse_with_rule(Rule::integer, "4").unwrap()),
        Expression::Integer { location: Location::new(0, 1), value: "4".to_string() }
    );
}

#[test]
fn transform_literal_float() {
    assert_eq!(
        literal(parse_with_rule(Rule::float, "8.").unwrap()),
        Expression::Float { location: Location::new(0, 2), value: "8.".to_string() }
    );
}

#[test]
fn transform_literal_true() {
    assert_eq!(
        literal(parse_with_rule(Rule::true_, "true").unwrap()),
        Expression::Boolean { location: Location::new(0, 4), value: "true".to_string() }
    );
}

#[test]
fn transform_literal_false() {
    assert_eq!(
        literal(parse_with_rule(Rule::false_, "false").unwrap()),
        Expression::Boolean { location: Location::new(0, 5), value: "false".to_string() }
    );
}

#[test]
fn transform_literal_atom() {
    assert_eq!(
        literal(parse_with_rule(Rule::atom, ":atom").unwrap()),
        Expression::Atom { location: Location::new(1, 5), value: "atom".to_string() }
    );
}

#[test]
fn transform_literal_variable() {
    assert_eq!(
        literal(parse_with_rule(Rule::variable, "variable").unwrap()),
        Expression::Variable { location: Location::new(0, 8), value: "variable".to_string() }
    );
}

#[test]
fn expression_literal() {
    assert_eq!(
        expression(first_inner(parse_with_rule(Rule::expression, "1").unwrap())),
        integer(0, 1, "1")
    );
}

#[test]
fn expression_addition() {
    assert_eq!(
        expression(first_inner(parse_with_rule(Rule::expression, "1 + 2").unwrap())),
        Box::new(Expression::BinaryOperation {
            location: Location::new(0, 5),
            operator: Operator::Add { location: Location::new(2, 3), value: "+".to_string() },
            left: integer(0, 1, "1"),
            right: integer(4, 5, "2"),
        })
    );
}

#[test]
fn expression_compound() {
    assert_eq!(
        expression(first_inner(parse_with_rule(Rule::expression, "(1 - 2) * 15 - 6 % 2").unwrap())),
        Box::new(Expression::BinaryOperation {
            location: Location::new(0, 20),
            operator: Operator::Sub { location: Location::new(13, 14), value: "-".to_string() },
            left: Box::new(Expression::BinaryOperation {
                location: Location::new(0, 12),
                operator: Operator::Mul { location: Location::new(8, 9), value: "*".to_string() },
                left: Box::new(Expression::BinaryOperation {
                    location: Location::new(1, 6),
                    operator: Operator::Sub {
                        location: Location::new(3, 4),
                        value: "-".to_string(),
                    },
                    left: integer(1, 2, "1"),
                    right: integer(5, 6, "2"),
                }),
                right: integer(10, 12, "15"),
            }),
            right: Box::new(Expression::BinaryOperation {
                location: Location::new(15, 20),
                operator: Operator::Mod { location: Location::new(17, 18), value: "%".to_string() },
                left: integer(15, 16, "6"),
                right: integer(19, 20, "2"),
            }),
        })
    );
}

#[test]
fn the_parse_tree_of_an_addition() {
    let tree = LaserParser::parse(Rule::expression, "1 + 2").unwrap();
    let one = LaserPair {
        rule: Rule::literal,
        children: vec![leaf(Rule::integer, 0, 1, "1")],
        start: 0,
        end: 1,
        string: "1".to_string(),
    };
    let two = LaserPair {
        rule: Rule::literal,
        children: vec![leaf(Rule::integer, 4, 5, "2")],
        start: 4,
        end: 5,
        string: "2".to_string(),
    };
    let sum = LaserPair {
        rule: Rule::level_2_bin_op,
        children: vec![one, leaf(Rule::operator, 2, 3, "+"), two],
        start: 0,
        end: 5,
        string: "1 + 2".to_string(),
    };
    assert_eq!(
        tree,
        LaserPair {
            rule: Rule::expression,
            children: vec![sum],
            start: 0,
            end: 5,
            string: "1 + 2".to_string(),
        }
    );
}

#[test]
fn the_parse_tree_keeps_the_parentheses() {
    let tree = LaserParser::parse(Rule::expression, "(true)").unwrap();
    assert_eq!((tree.rule, tree.start, tree.end), (Rule::expression, 0, 6));
    let wrapper = &tree.children[0];
    assert_eq!((wrapper.rule, wrapper.start, wrapper.end), (Rule::expression, 0, 6));
    assert_eq!(wrapper.string, "(true)");
    let inner = &wrapper.children[0];
    assert_eq!((inner.rule, inner.start, inner.end), (Rule::literal, 1, 5));
    assert_eq!(inner.children[0], leaf(Rule::true_, 1, 5, "true"));
}

#[test]
fn the_tier_is_decided_by_the_first_byte_of_the_operator() {
    for (text, rule) in [
        ("1 * 2", Rule::level_1_bin_op),
        ("1 / 2", Rule::level_1_bin_op),
        ("1 % 2", Rule::level_1_bin_op),
        ("1 ** 2", Rule::level_1_bin_op),
        ("1 **> 2", Rule::level_1_bin_op),
        ("1 + 2", Rule::level_2_bin_op),
        ("1 - 2", Rule::level_2_bin_op),
        ("1 <*> 2", Rule::level_2_bin_op),
        ("1 == 2", Rule::level_2_bin_op),
    ] {
        let tree = LaserParser::parse(Rule::expression, text).unwrap();
        assert_eq!(tree.children[0].rule, rule, "{}", text);
        assert_eq!(LaserParser::parse(rule, text).unwrap(), tree.children[0]);
    }
}

#[test]
fn a_rule_matches_only_what_it_names() {
    assert_eq!(parse_with_rule(Rule::integer, "4."), Err(SyntaxError { offset: 0 }));
    assert_eq!(parse_with_rule(Rule::float, "4"), Err(SyntaxError { offset: 0 }));
    assert_eq!(parse_with_rule(Rule::variable, "true"), Err(SyntaxError { offset: 0 }));
    assert_eq!(parse_with_rule(Rule::true_, "false"), Err(SyntaxError { offset: 0 }));
    assert_eq!(parse_with_rule(Rule::atom, "atom"), Err(SyntaxError { offset: 0 }));
    assert_eq!(parse_with_rule(Rule::atom, ":"), Err(SyntaxError { offset: 1 }));
    assert_eq!(parse_with_rule(Rule::operator, "a"), Err(SyntaxError { offset: 0 }));
    assert_eq!(parse_with_rule(Rule::level_1_bin_op, "1 + 2"), Err(SyntaxError { offset: 1 }));
    assert_eq!(parse_with_rule(Rule::level_2_bin_op, "1 * 2"), Err(SyntaxError { offset: 5 }));
    assert_eq!(parse_with_rule(Rule::level_1_bin_op, "7"), Err(SyntaxError { offset: 1 }));
    assert_eq!(parse_with_rule(Rule::literal, "1 + 2"), Err(SyntaxError { offset: 2 }));
    assert_eq!(parse_with_rule(Rule::operator, "<=>").unwrap(), leaf(Rule::operator, 0, 3, "<=>"));
    assert_eq!(
        parse_with_rule(Rule::literal, " x ").unwrap(),
        LaserPair {
            rule: Rule::literal,
            children: vec![leaf(Rule::variable, 1, 2, "x")],
            start: 1,
            end: 2,
            string: "x".to_string(),
        }
    );
}

#[test]
fn a_node_takes_the_text_of_its_range() {
    let pair = LaserPair::over(Rule::variable, Vec::new(), "a + bcd", 4, 7);
    assert_eq!(pair, leaf(Rule::variable, 4, 7, "bcd"));
    let wide = LaserPair::over(Rule::variable, Vec::new(), "\u{e9}t\u{e9}", 0, 5);
    assert_eq!(wide, leaf(Rule::variable, 0, 5, "\u{e9}t\u{e9}"));
    let empty = LaserPair::over(Rule::expression, vec![pair], "a + bcd", 2, 2);
    assert_eq!(empty.string, "");
    assert_eq!(empty.children.len(), 1);
}

#[test]
fn a_literal_built_by_hand() {
    assert_eq!(
        literal(leaf(Rule::integer, 10, 13, "123")),
        Expression::Integer { location: Location::new(10, 13), value: "123".to_string() }
    );
    assert_eq!(
        literal(leaf(Rule::atom, 3, 6, ":ok")),
        Expression::Atom { location: Location::new(4, 6), value: "ok".to_string() }
    );
    // only one sigil is taken off
    assert_eq!(
        literal(leaf(Rule::atom, 0, 3, "::a")),
        Expression::Atom { location: Location::new(1, 3), value: ":a".to_string() }
    );
    assert_eq!(
        literal(leaf(Rule::atom, 0, 2, "ok")),
        Expression::Atom { location: Location::new(0, 2), value: "ok".to_string() }
    );
    assert_eq!(
        literal(leaf(Rule::false_, 7, 12, "false")),
        Expression::Boolean { location: Location::new(7, 12), value: "false".to_string() }
    );
}

#[test]
fn an_operator_built_by_hand() {
    let at = Location::new(5, 6);
    assert_eq!(operator(leaf(Rule::operator, 5, 6, "+")), Operator::Add { location: at, value: "+".to_string() });
    assert_eq!(operator(leaf(Rule::operator, 5, 6, "-")), Operator::Sub { location: at, value: "-".to_string() });
    assert_eq!(operator(leaf(Rule::operator, 5, 6, "*")), Operator::Mul { location: at, value: "*".to_string() });
    assert_eq!(operator(leaf(Rule::operator, 5, 6, "/")), Operator::Div { location: at, value: "/".to_string() });
    assert_eq!(operator(leaf(Rule::operator, 5, 6, "%")), Operator::Mod { location: at, value: "%".to_string() });
    assert_eq!(
        operator(leaf(Rule::operator, 5, 7, "**")),
        Operator::Pow { location: Location::new(5, 7), value: "**".to_string() }
    );
    assert_eq!(
        operator(leaf(Rule::operator, 5, 8, "***")),
        Operator::Custom { location: Location::new(5, 8), value: "***".to_string() }
    );
    assert_eq!(
        operator(leaf(Rule::operator, 5, 5, "")),
        Operator::Custom { location: Location::new(5, 5), value: "".to_string() }
    );
    assert_eq!(operator(leaf(Rule::operator, 5, 8, "<=>")).value(), "<=>");
    assert_eq!(operator(leaf(Rule::operator, 5, 8, "<=>")).location(), Location::new(5, 8));
}

#[test]
fn an_operation_built_by_hand() {
    let wrap = |token: LaserPair| LaserPair {
        rule: Rule::literal,
        start: token.start,
        end: token.end,
        string: token.string.clone(),
        children: vec![token],
    };
    let pair = LaserPair {
        rule: Rule::level_1_bin_op,
        children: vec![
            wrap(leaf(Rule::variable, 0, 1, "a")),
            leaf(Rule::operator, 1, 2, "/"),
            wrap(leaf(Rule::atom, 2, 4, ":b")),
        ],
        start: 0,
        end: 4,
        string: "a/:b".to_string(),
    };
    assert_eq!(
        binary_operation(pair),
        Box::new(Expression::BinaryOperation {
            location: Location::new(0, 4),
            operator: Operator::Div { location: Location::new(1, 2), value: "/".to_string() },
            left: Box::new(Expression::Variable {
                location: Location::new(0, 1),
                value: "a".to_string()
            }),
            right: Box::new(Expression::Atom {
                location: Location::new(3, 4),
                value: "b".to_string()
            }),
        })
    );
}

fn wrapped(token: LaserPair) -> LaserPair {
    LaserPair {
        rule: Rule::literal,
        start: token.start,
        end: token.end,
        string: token.string.clone(),
        children: vec![token],
    }
}

fn operation(rule: Rule, children: Vec<LaserPair>) -> LaserPair {
    LaserPair { rule, children, start: 0, end: 3, string: "a+b".to_string() }
}

#[test]
fn every_tree_of_the_grammar_is_transformable() {
    for text in ["4", "(true)", ":atom", "1 ** 2.", "(1 - 2) * 15 - 6 % 2", "a <=> (b)"] {
        let tree = LaserParser::parse(Rule::expression, text).unwrap();
        assert!(is_transformable(&tree), "{}", text);
    }
}

#[test]
fn a_tree_of_another_shape_is_not_transformable() {
    let a = || wrapped(leaf(Rule::variable, 0, 1, "a"));
    let b = || wrapped(leaf(Rule::variable, 2, 3, "b"));
    let plus = || leaf(Rule::operator, 1, 2, "+");
    assert!(is_transformable(&operation(Rule::level_2_bin_op, vec![a(), plus(), b()])));
    assert!(is_transformable(&operation(Rule::level_1_bin_op, vec![a(), plus(), b()])));
    // a token alone, an operator alone
    assert!(!is_transformable(&leaf(Rule::integer, 0, 1, "1")));
    assert!(!is_transformable(&plus()));
    // two or four nodes in an operation
    assert!(!is_transformable(&operation(Rule::level_2_bin_op, vec![a(), plus()])));
    assert!(!is_transformable(&operation(Rule::level_2_bin_op, vec![a(), plus(), b(), b()])));
    // the operator out of its place
    assert!(!is_transformable(&operation(Rule::level_2_bin_op, vec![plus(), a(), b()])));
    assert!(!is_transformable(&operation(Rule::level_2_bin_op, vec![a(), b(), plus()])));
    // an operand that is a bare token
    assert!(!is_transformable(&operation(
        Rule::level_2_bin_op,
        vec![leaf(Rule::variable, 0, 1, "a"), plus(), b()]
    )));
    // a wrapper around nothing, or around two nodes
    assert!(!is_transformable(&operation(Rule::expression, vec![])));
    assert!(!is_transformable(&operation(Rule::expression, vec![a(), b()])));
    assert!(is_transformable(&operation(Rule::expression, vec![a()])));
    // a literal around something that is no literal token
    assert!(!is_transformable(&operation(Rule::literal, vec![plus()])));
    assert!(!is_transformable(&operation(Rule::literal, vec![a()])));
    // a token whose range is not as long as its text
    assert!(!is_transformable(&wrapped(leaf(Rule::variable, 0, 2, "a"))));
    assert!(!is_transformable(&wrapped(leaf(Rule::variable, 1, 0, "a"))));
    assert!(is_transformable(&wrapped(leaf(Rule::variable, 0, 2, "\u{e9}"))));
    // a range that ends before it begins
    let mut crossed = operation(Rule::level_2_bin_op, vec![a(), plus(), b()]);
    crossed.start = 4;
    assert!(!is_transformable(&crossed));
    let mut crossed = operation(Rule::level_2_bin_op, vec![a(), leaf(Rule::operator, 2, 1, "+"), b()]);
    crossed.end = 3;
    assert!(!is_transformable(&crossed));
}

#[test]
fn a_wrapper_stands_for_what_it_wraps() {
    let inner = wrapped(leaf(Rule::float, 3, 6, "1.5"));
    let outer = LaserPair {
        rule: Rule::expression,
        children: vec![LaserPair {
            rule: Rule::expression,
            children: vec![inner],
            start: 1,
            end: 8,
            string: "( 1.5 )".to_string(),
        }],
        start: 0,
        end: 9,
        string: "(( 1.5 ))".to_string(),
    };
    assert_eq!(
        expression(outer),
        Box::new(Expression::Float { location: Location::new(3, 6), value: "1.5".to_string() })
    );
}

#[test]
fn a_copy_of_an_expression_is_equal_to_it() {
    let e = laser_parser::parse("(a + :b) ** 2. - true").unwrap();
    let copy = e.clone();
    assert_eq!(copy, e);
    if let Expression::BinaryOperation { operator, .. } = &*e {
        assert_eq!(operator.clone(), *operator);
        assert_eq!(operator.value(), "-");
    } else {
        panic!("an operation was expected");
    }
}

#[test]
fn a_location_keeps_its_offsets() {
    let location = Location::new(3, 9);
    assert_eq!((location.start, location.end), (3, 9));
    assert_eq!(Location::new(5, 5), Location { start: 5, end: 5 });
    assert_ne!(Location::new(0, 1), Location::new(0, 2));
}
