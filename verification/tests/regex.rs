use rustlab::regex::grep::line_matches;
use rustlab::regex::regex_parser::{parse_expression, parse_group, parse_repeater, parse_symbol};
use rustlab::regex::syntax_tree::{Expression, Factor, Operator, Repeater, Term};
use rustlab::regex::transformers::expression_parser_factory;

#[test]
fn test_parse_repeater_any() {
    let stream = "*";

    let result = parse_repeater(stream);

    assert_eq!(Ok((Repeater::Any, "")), result);
}

#[test]
fn test_parse_repeater_some() {
    let stream = "+";

    let result = parse_repeater(stream);

    assert_eq!(Ok((Repeater::OneOrMore, "")), result);
}

#[test]
fn test_parse_symbol_does_not_parse_reserved_characters() {
    let stream = "()*|";

    let result = parse_symbol(stream);

    assert_eq!(result.is_err(), true);
}

#[test]
fn test_parse_group_test() {
    let stream = "(abc)";

    let result = parse_group(stream);

    let expression_tree = Expression::Node(
        Box::new(Expression::Node(
            Box::new(Expression::Leaf(Term::Term(Factor::Symbol('a')))),
            Operator::Concat,
            Box::new(Expression::Leaf(Term::Term(Factor::Symbol('b')))),
        )),
        Operator::Concat,
        Box::new(Expression::Leaf(Term::Term(Factor::Symbol('c')))),
    );
    let tree = Factor::Group(Box::new(expression_tree));

    assert_eq!(Ok((tree, "")), result);
}

#[test]
fn test_parse_concat_expression() {
    let stream = "ab";

    let result = parse_expression(stream);

    let expression = Expression::Node(
        Box::new(Expression::Leaf(Term::Term(Factor::Symbol('a')))),
        Operator::Concat,
        Box::new(Expression::Leaf(Term::Term(Factor::Symbol('b')))),
    );
    assert_eq!(Ok((expression, "")), result);
}

fn leaf(c: char) -> Expression {
    Expression::Leaf(Term::Term(Factor::Symbol(c)))
}

#[test]
fn parse_alternation_and_repetition() {
    let expected = Expression::Node(
        Box::new(Expression::Node(
            Box::new(leaf('a')),
            Operator::Alternation,
            Box::new(Expression::Leaf(Term::Repetition(Factor::Symbol('b'), Repeater::Any))),
        )),
        Operator::Concat,
        Box::new(leaf('c')),
    );
    assert_eq!(parse_expression("a|b*c"), Ok((expected, "")));
}

#[test]
fn parse_stops_at_unbalanced_paren() {
    assert_eq!(parse_expression("a)b"), Ok((leaf('a'), ")b")));
    assert!(parse_expression("").is_err());
    assert!(parse_expression(")").is_err());
    assert!(parse_group("(a").is_err());
}

#[test]
fn repeater_errors_with_last_message() {
    assert_eq!(parse_repeater("x"), Err(String::from("Character not found")));
    assert_eq!(parse_repeater(""), Err(String::from("Empty stream")));
}

#[test]
fn matcher_follows_expression() {
    let (tree, _) = parse_expression("ab*c").unwrap();
    let matcher = expression_parser_factory(&tree);
    assert_eq!(matcher("abbbcz"), Ok(((), "z")));
    assert_eq!(matcher("acz"), Ok(((), "z")));
    assert!(matcher("abd").is_err());

    let (tree, _) = parse_expression("a+").unwrap();
    let matcher = expression_parser_factory(&tree);
    assert_eq!(matcher("aab"), Ok(((), "b")));
    assert_eq!(
        matcher("b"),
        Err(String::from("No sucessful parse in `some`: Character not found"))
    );

    let (tree, _) = parse_expression("x|y").unwrap();
    let matcher = expression_parser_factory(&tree);
    assert_eq!(matcher("y1"), Ok(((), "1")));
}

#[test]
fn grep_selects_lines() {
    let (tree, _) = parse_expression("b(c)d").unwrap();
    // a group matches what its expression matches
    assert!(line_matches(&tree, "abcd\n"));
    assert!(!line_matches(&tree, "abzd\n"));
    assert!(!line_matches(&tree, "abd\n"));
    let (tree, _) = parse_expression("q").unwrap();
    assert!(!line_matches(&tree, ""));
    assert!(line_matches(&tree, "zzq"));
}

#[test]
fn readme_example_groups_alternation_and_repetition() {
    let (tree, rest) = parse_expression("a(b|c)*d").unwrap();
    assert_eq!(rest, "");
    assert!(line_matches(&tree, "xxabcbdxx\n"));
    assert!(line_matches(&tree, "ad\n"));
    assert!(line_matches(&tree, "acccd"));
    assert!(!line_matches(&tree, "axd\n"));
    assert!(!line_matches(&tree, "abcb\n"));
    let matcher = expression_parser_factory(&tree);
    assert_eq!(matcher("abcbdz"), Ok(((), "z")));
    assert_eq!(matcher("abx"), Err(String::from("Character not found")));
}

#[test]
fn nested_groups_match_their_expressions() {
    let (tree, _) = parse_expression("((ab)|c)+").unwrap();
    let matcher = expression_parser_factory(&tree);
    assert_eq!(matcher("abcabx"), Ok(((), "x")));
    assert!(matcher("b").is_err());
}

#[test]
fn any_other_character_is_taken_literally() {
    assert_eq!(parse_expression("x"), Ok((leaf('x'), "")));
    assert_eq!(parse_expression("+"), Ok((leaf('+'), "")));
    let (tree, _) = parse_expression("x").unwrap();
    let matcher = expression_parser_factory(&tree);
    assert_eq!(matcher("xy"), Ok(((), "y")));
    assert!(matcher("yx").is_err());
}

#[test]
fn star_repetition_never_fails() {
    let (tree, _) = parse_expression("b*").unwrap();
    let matcher = expression_parser_factory(&tree);
    assert_eq!(matcher(""), Ok(((), "")));
    assert_eq!(matcher("cb"), Ok(((), "cb")));
    assert_eq!(matcher("bbc"), Ok(((), "c")));
}

#[test]
fn wide_characters_past_the_parse_are_left_alone() {
    assert_eq!(parse_expression("a)\u{e9}"), Ok((leaf('a'), ")\u{e9}")));
    let (tree, _) = parse_expression("a").unwrap();
    assert!(line_matches(&tree, "a\u{e9}"));
    let matcher = expression_parser_factory(&tree);
    assert_eq!(matcher("a\u{e9}"), Ok(((), "\u{e9}")));
}

#[test]
fn repetition_stops_where_a_match_consumes_nothing() {
    let (tree, _) = parse_expression("(a*)*").unwrap();
    let matcher = expression_parser_factory(&tree);
    assert_eq!(matcher("aab"), Ok(((), "b")));
    let (tree, _) = parse_expression("(a*)+").unwrap();
    let matcher = expression_parser_factory(&tree);
    assert_eq!(matcher("aab"), Ok(((), "b")));
    assert_eq!(
        matcher("b"),
        Err(String::from("No sucessful parse in `some`: Repetition made no progress"))
    );
    assert!(!line_matches(&tree, "xyz"));
    assert!(line_matches(&tree, "xya"));
}

#[test]
fn wide_characters_are_symbols() {
    assert_eq!(parse_expression("\u{e9}"), Ok((leaf('\u{e9}'), "")));
    let (tree, _) = parse_expression("\u{e9}+").unwrap();
    assert!(line_matches(&tree, "caf\u{e9}\n"));
    assert!(!line_matches(&tree, "cafe\n"));
}
