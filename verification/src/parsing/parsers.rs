//! Parsers that read one character.
use vstd::prelude::*;
use vstd::string::*;
use super::{ParserResult, outcome};

verus! {

/// What `elem` gives on a stream.
pub open spec fn spec_elem(s: Seq<char>) -> Result<(char, Seq<char>), Seq<char>> {
    if s.len() == 0 {
        Err("Empty stream"@)
    } else {
        Ok((s[0], s.drop_first()))
    }
}

/// What `satisfies` gives on a stream for a predicate that decides
/// like `pred`.
pub open spec fn spec_satisfies(s: Seq<char>, pred: spec_fn(char) -> bool) -> Result<
    (char, Seq<char>),
    Seq<char>,
> {
    if s.len() == 0 {
        Err("Empty stream"@)
    } else if pred(s[0]) {
        Ok((s[0], s.drop_first()))
    } else {
        Err("Predicate not satisfied"@)
    }
}

/// What `a_char` gives on a stream when looking for `c`.
pub open spec fn spec_a_char(s: Seq<char>, c: char) -> Result<(char, Seq<char>), Seq<char>> {
    if s.len() == 0 {
        Err("Empty stream"@)
    } else if s[0] == c {
        Ok((c, s.drop_first()))
    } else {
        Err("Character not found"@)
    }
}

pub open spec fn is_ascii_digit(c: char) -> bool {
    '0' <= c <= '9'
}

pub open spec fn is_ascii_alphabetic(c: char) -> bool {
    ('A' <= c <= 'Z') || ('a' <= c <= 'z')
}

pub open spec fn is_ascii_alphanumeric(c: char) -> bool {
    is_ascii_digit(c) || is_ascii_alphabetic(c)
}

fn ascii_digit(c: char) -> (b: bool)
    ensures
        b == is_ascii_digit(c),
{
    '0' <= c && c <= '9'
}

fn ascii_alphabetic(c: char) -> (b: bool)
    ensures
        b == is_ascii_alphabetic(c),
{
    ('A' <= c && c <= 'Z') || ('a' <= c && c <= 'z')
}

fn ascii_alphanumeric(c: char) -> (b: bool)
    ensures
        b == is_ascii_alphanumeric(c),
{
    ascii_digit(c) || ascii_alphabetic(c)
}

/// Base parser, returns one character from the stream
/// if it's not empty, otherwise return an error
pub fn elem<'a>(stream: &'a str) -> (r: ParserResult<'a, char>)
    ensures
        outcome(r) == spec_elem(stream@),
{
    let n = stream.unicode_len();
    if n == 0 {
        Err(String::from_str("Empty stream"))
    } else {
        let c = stream.get_char(0);
        let tail = stream.substring_char(1, n);
        assert(tail@ =~= stream@.drop_first());
        Ok((c, tail))
    }
}

/// Returns the stream's first character when the predicate holds of it.
pub fn satisfies<'a, F>(stream: &'a str, predicate: F) -> (r: ParserResult<'a, char>) where
    F: Fn(char) -> bool,

    requires
        stream@.len() > 0 ==> call_requires(predicate, (stream@[0],)),
    ensures
        match r {
            Ok((c, tail)) => {
                &&& stream@.len() > 0
                &&& c == stream@[0]
                &&& tail@ == stream@.drop_first()
                &&& call_ensures(predicate, (c,), true)
            },
            Err(msg) => {
                ||| stream@.len() == 0 && msg@ == "Empty stream"@
                ||| stream@.len() > 0 && call_ensures(predicate, (stream@[0],), false) && msg@
                    == "Predicate not satisfied"@
            },
        },
{
    match elem(stream) {
        Err(msg) => Err(msg),
        Ok((c, tail)) => if predicate(c) {
            Ok((c, tail))
        } else {
            Err(String::from_str("Predicate not satisfied"))
        },
    }
}

/// Consumes the stream's first character when it is `c`.
pub fn a_char<'a>(stream: &'a str, c: char) -> (r: ParserResult<'a, char>)
    ensures
        outcome(r) == spec_a_char(stream@, c),
{
    match elem(stream) {
        Err(msg) => Err(msg),
        Ok((first, tail)) => if first == c {
            Ok((c, tail))
        } else {
            Err(String::from_str("Character not found"))
        },
    }
}

pub fn digit<'a>(stream: &'a str) -> (r: ParserResult<'a, char>)
    ensures
        outcome(r) == spec_satisfies(stream@, |c: char| is_ascii_digit(c)),
{
    satisfies(stream, ascii_digit)
}

pub fn alphabetic<'a>(stream: &'a str) -> (r: ParserResult<'a, char>)
    ensures
        outcome(r) == spec_satisfies(stream@, |c: char| is_ascii_alphabetic(c)),
{
    satisfies(stream, ascii_alphabetic)
}

pub fn alphanumeric<'a>(stream: &'a str) -> (r: ParserResult<'a, char>)
    ensures
        outcome(r) == spec_satisfies(stream@, |c: char| is_ascii_alphanumeric(c)),
{
    satisfies(stream, ascii_alphanumeric)
}

/// `elem` gives the first character of any non-empty stream and the rest
/// after it; `a_char` succeeds exactly where the stream starts with the
/// character it looks for, giving that character and the rest.
pub proof fn lemma_first_character(s: Seq<char>, c: char)
    ensures
        s.len() == 0 ==> spec_elem(s) == Err::<(char, Seq<char>), Seq<char>>("Empty stream"@),
        s.len() > 0 ==> spec_elem(s) == Ok::<(char, Seq<char>), Seq<char>>((s[0], s.drop_first())),
        spec_a_char(s, c) is Ok <==> s.len() > 0 && s[0] == c,
        s.len() > 0 && s[0] == c ==> spec_a_char(s, c) == Ok::<(char, Seq<char>), Seq<char>>(
            (c, s.drop_first()),
        ),
        s.len() > 0 && s[0] != c ==> spec_a_char(s, c) == Err::<(char, Seq<char>), Seq<char>>(
            "Character not found"@,
        ),
{
}

/// `digit` accepts exactly '0' to '9', `alphabetic` exactly 'a' to 'z' and
/// 'A' to 'Z', `alphanumeric` exactly the characters of both; an accepted
/// character is returned with the rest of the stream.
pub proof fn lemma_character_classes(s: Seq<char>)
    ensures
        s.len() == 0 ==> spec_satisfies(s, |c: char| is_ascii_digit(c)) == Err::<
            (char, Seq<char>),
            Seq<char>,
        >("Empty stream"@),
        s.len() > 0 ==> spec_satisfies(s, |c: char| is_ascii_digit(c)) == if '0' <= s[0]
            <= '9' {
            Ok::<(char, Seq<char>), Seq<char>>((s[0], s.drop_first()))
        } else {
            Err::<(char, Seq<char>), Seq<char>>("Predicate not satisfied"@)
        },
        s.len() > 0 ==> spec_satisfies(s, |c: char| is_ascii_alphabetic(c)) == if ('a' <= s[0]
            <= 'z') || ('A' <= s[0] <= 'Z') {
            Ok::<(char, Seq<char>), Seq<char>>((s[0], s.drop_first()))
        } else {
            Err::<(char, Seq<char>), Seq<char>>("Predicate not satisfied"@)
        },
        s.len() > 0 ==> spec_satisfies(s, |c: char| is_ascii_alphanumeric(c)) == if ('0' <= s[0]
            <= '9') || ('a' <= s[0] <= 'z') || ('A' <= s[0] <= 'Z') {
            Ok::<(char, Seq<char>), Seq<char>>((s[0], s.drop_first()))
        } else {
            Err::<(char, Seq<char>), Seq<char>>("Predicate not satisfied"@)
        },
{
}

} // verus!
