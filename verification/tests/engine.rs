use laser_parser::ast::{Expression, Location, Operator};
use laser_parser::engine::{create_laser_pair, expression as engine_expression};
use laser_parser::grammar::LaserParser;
use laser_parser::pair::{LaserPair, Rule};
use laser_parser::transform::expression;
use pest::iterators::Pair;
use pest::{ParseResult, ParserState};

type State<'i> = Box<ParserState<'i, Rule>>;

fn integer<'i>(text: &'static str) -> impl FnOnce(State<'i>) -> ParseResult<State<'i>> {
    move |s| s.rule(Rule::literal, |s| s.rule(Rule::integer, |s| s.match_string(text)))
}

fn atom<'i>(text: &'static str) -> impl FnOnce(State<'i>) -> ParseResult<State<'i>> {
    move |s| s.rule(Rule::literal, |s| s.rule(Rule::atom, |s| s.match_string(text)))
}

fn symbol<'i>(text: &'static str) -> impl FnOnce(State<'i>) -> ParseResult<State<'i>> {
    move |s| s.rule(Rule::operator, |s| s.match_string(text))
}

fn first<'i>(
    input: &'i str,
    f: impl FnOnce(State<'i>) -> ParseResult<State<'i>>,
) -> Pair<'i, Rule> {
    pest::state(input, f).unwrap().next().unwrap()
}

#[test]
fn a_token_of_the_engine_becomes_a_leaf() {
    let pair = first("** 2", symbol("**"));
    assert_eq!(
        create_laser_pair(pair),
        LaserPair {
            rule: Rule::operator,
            children: Vec::new(),
            start: 0,
            end: 2,
            string: "**".to_string(),
        }
    );
}

#[test]
fn a_pair_of_the_engine_keeps_its_range_and_its_text() {
    let pair = first("xy 42", |s| s.match_string("xy ").and_then(integer("42")));
    let node = create_laser_pair(pair);
    assert_eq!((node.rule, node.start, node.end), (Rule::literal, 3, 5));
    assert_eq!(node.string, "42");
    assert_eq!(
        node.children,
        vec![LaserPair {
            rule: Rule::integer,
            children: Vec::new(),
            start: 3,
            end: 5,
            string: "42".to_string(),
        }]
    );
}

#[test]
fn the_pairs_inside_a_pair_keep_their_order() {
    let pair = first("1 + :b", |s| {
        s.rule(Rule::level_2_bin_op, |s| {
            integer("1")(s)
                .and_then(|s| s.match_string(" "))
                .and_then(symbol("+"))
                .and_then(|s| s.match_string(" "))
                .and_then(atom(":b"))
        })
    });
    let node = create_laser_pair(pair);
    let rules: Vec<Rule> = node.children.iter().map(|c| c.rule).collect();
    assert_eq!(rules, vec![Rule::literal, Rule::operator, Rule::literal]);
    let texts: Vec<&str> = node.children.iter().map(|c| c.string.as_str()).collect();
    assert_eq!(texts, vec!["1", "+", ":b"]);
    assert_eq!(node.children[2].children[0].rule, Rule::atom);
    assert_eq!(node.string, "1 + :b");
}

#[test]
fn the_tree_of_the_engine_is_the_tree_of_the_grammar() {
    let text = "(1 - 2) * 15";
    let pair = first(text, |s| {
        s.rule(Rule::expression, |s| {
            s.rule(Rule::level_1_bin_op, |s| {
                s.rule(Rule::expression, |s| {
                    s.match_string("(")
                        .and_then(|s| {
                            s.rule(Rule::level_2_bin_op, |s| {
                                integer("1")(s)
                                    .and_then(|s| s.match_string(" "))
                                    .and_then(symbol("-"))
                                    .and_then(|s| s.match_string(" "))
                                    .and_then(integer("2"))
                            })
                        })
                        .and_then(|s| s.match_string(")"))
                })
                .and_then(|s| s.match_string(" "))
                .and_then(symbol("*"))
                .and_then(|s| s.match_string(" "))
                .and_then(integer("15"))
            })
        })
    });
    let node = create_laser_pair(pair);
    assert_eq!(node, LaserParser::parse(Rule::expression, text).unwrap());
    assert_eq!(expression(node), laser_parser::parse(text).unwrap());
}

#[test]
fn a_tree_of_the_engine_is_transformed() {
    let pair = first("7 **> :k", |s| {
        s.rule(Rule::level_1_bin_op, |s| {
            integer("7")(s)
                .and_then(|s| s.match_string(" "))
                .and_then(symbol("**>"))
                .and_then(|s| s.match_string(" "))
                .and_then(atom(":k"))
        })
    });
    assert_eq!(
        expression(create_laser_pair(pair)),
        Box::new(Expression::BinaryOperation {
            location: Location::new(0, 8),
            operator: Operator::Custom { location: Location::new(2, 5), value: "**>".to_string() },
            left: Box::new(Expression::Integer {
                location: Location::new(0, 1),
                value: "7".to_string()
            }),
            right: Box::new(Expression::Atom {
                location: Location::new(7, 8),
                value: "k".to_string()
            }),
        })
    );
}

#[test]
fn a_tree_of_another_shape_gives_no_expression() {
    // a token alone is no expression
    assert_eq!(engine_expression(first("+", symbol("+"))), None);
    // an operation without its right operand
    let pair = first("1 +", |s| {
        s.rule(Rule::level_2_bin_op, |s| {
            integer("1")(s).and_then(|s| s.match_string(" ")).and_then(symbol("+"))
        })
    });
    assert_eq!(engine_expression(pair), None);
    // a literal is one
    assert_eq!(
        engine_expression(first("15", integer("15"))),
        Some(Box::new(Expression::Integer {
            location: Location::new(0, 2),
            value: "15".to_string()
        }))
    );
}
