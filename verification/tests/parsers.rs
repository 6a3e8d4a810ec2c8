use rustlab::parsing::parsers::{a_char, alphabetic, alphanumeric, digit, elem, satisfies};
use rustlab::parsing::operators::{many, some};
use rustlab::parsing::combinators;
use rustlab::parsing::ParserResult;

#[test]
fn test_alphabetic_consumes_letter() {
    let stream = "abc";

    let parser_result = alphabetic(stream);

    assert_eq!(Ok(('a', "bc")), parser_result);
}

#[test]
fn test_alphabetic_does_not_consume_digit() {
    let stream = "1abc";

    let parser_result = alphabetic(stream);

    assert_eq!(parser_result.is_err(), true);
}

#[test]
fn test_alphabetic_on_empty_stram() {
    let stream = "";

    let parser_result = alphabetic(stream);

    assert_eq!(parser_result.is_err(), true);
}

#[test]
fn elem_takes_first_character() {
    assert_eq!(elem("xyz"), Ok(('x', "yz")));
    assert_eq!(elem(""), Err(String::from("Empty stream")));
}

#[test]
fn satisfies_reports_each_error() {
    assert_eq!(satisfies("", |c| c == 'a'), Err(String::from("Empty stream")));
    assert_eq!(satisfies("b", |c| c == 'a'), Err(String::from("Predicate not satisfied")));
    assert_eq!(satisfies("ab", |c| c == 'a'), Ok(('a', "b")));
}

#[test]
fn a_char_matches_the_given_character() {
    assert_eq!(a_char("*x", '*'), Ok(('*', "x")));
    assert_eq!(a_char("cx", 'd'), Err(String::from("Character not found")));
    assert_eq!(a_char("", 'd'), Err(String::from("Empty stream")));
}

#[test]
fn character_classes() {
    assert_eq!(digit("7a"), Ok(('7', "a")));
    assert!(digit("a7").is_err());
    assert_eq!(alphanumeric("Z1"), Ok(('Z', "1")));
    assert_eq!(alphanumeric("9Z"), Ok(('9', "Z")));
    assert!(alphanumeric("-").is_err());
    assert!(alphabetic("[").is_err());
}

fn digit_parser<'a>(s: &'a str) -> ParserResult<'a, char> {
    digit(s)
}

#[test]
fn many_collects_until_failure() {
    assert_eq!(many("12a", &digit_parser), Ok((vec!['1', '2'], "a")));
    assert_eq!(many("a", &digit_parser), Ok((vec![], "a")));
    assert_eq!(many("", &digit_parser), Ok((vec![], "")));
}

#[test]
fn some_needs_one_success() {
    assert_eq!(some("12a", &digit_parser), Ok((vec!['1', '2'], "a")));
    assert_eq!(
        some("a", &digit_parser),
        Err(String::from("No sucessful parse in `some`: Predicate not satisfied"))
    );
}

#[test]
fn combinators_build_parsers() {
    let digits = combinators::many(digit_parser);
    assert_eq!(digits("34x"), Ok((vec!['3', '4'], "x")));

    let at_least_one = combinators::some(digit_parser);
    assert!(at_least_one("x").is_err());

    let either = combinators::alternate(digit_parser, |s| a_char(s, 'x'));
    assert_eq!(either("x1"), Ok(('x', "1")));
    assert_eq!(either("1x"), Ok(('1', "x")));
    assert_eq!(either("y"), Err(String::from("Character not found")));

    let both = combinators::chain(digit_parser, |s| a_char(s, 'x'));
    assert_eq!(both("1xz"), Ok((('1', 'x'), "z")));
    assert_eq!(both("x"), Err(String::from("Predicate not satisfied")));
    assert_eq!(both("11"), Err(String::from("Character not found")));
}

#[test]
fn wide_characters_are_read_whole() {
    assert_eq!(elem("\u{e9}a"), Ok(('\u{e9}', "a")));
    assert_eq!(a_char("\u{e9}a", '\u{e9}'), Ok(('\u{e9}', "a")));
    assert!(alphabetic("\u{e9}").is_err());
}
