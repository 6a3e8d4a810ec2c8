//! Regex language:
//! expression = expr term | expr \| term | term
//! term = factor repetition | factor
//! factor = symbol | ( expression )
//! symbols are any valid ascii character except for ()*|.
use vstd::prelude::*;

verus! {

#[derive(Debug, PartialEq, Eq)]
pub enum Repeater {
    Any,
    OneOrMore,
}

#[derive(Debug, PartialEq, Eq)]
pub enum Factor {
    Symbol(char),
    Group(Box<Expression>),
}

#[derive(Debug, PartialEq, Eq)]
pub enum Term {
    Repetition(Factor, Repeater),
    Term(Factor),
}

#[derive(Debug, PartialEq, Eq)]
pub enum Operator {
    Concat,
    Alternation,
}

#[derive(Debug, PartialEq, Eq)]
pub enum Expression {
    Node(Box<Expression>, Operator, Box<Expression>),
    Leaf(Term),
}

} // verus!
