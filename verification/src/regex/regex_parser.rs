//! Parser from regular-expression text to syntax trees.
use vstd::prelude::*;
use crate::parsing::{
    ParserResult,
    is_suffix_of,
    lemma_suffix_trans,
    outcome,
};
use crate::parsing::parsers::{a_char, satisfies, spec_a_char, spec_satisfies};
use super::syntax_tree::{Expression, Factor, Operator, Repeater, Term};

verus! {

const RESERVED_CHARACTERS: &'static str = "()*|";

/// A character that the regex syntax reserves, and that no symbol can be.
pub open spec fn is_reserved(c: char) -> bool {
    c == '(' || c == ')' || c == '*' || c == '|'
}

/// A spec-level parse: the value and what is left, or an error message.
pub type SpecParse<X> = Result<(X, Seq<char>), Seq<char>>;

/// `+` reads as repetition once or more, `*` as repetition any number of
/// times; where neither comes first, the error is that of looking for `*`.
pub open spec fn spec_parse_repeater(s: Seq<char>) -> SpecParse<Repeater> {
    match spec_a_char(s, '+') {
        Ok((_, t)) => Ok((Repeater::OneOrMore, t)),
        Err(_) => match spec_a_char(s, '*') {
            Ok((_, t)) => Ok((Repeater::Any, t)),
            Err(e) => Err(e),
        },
    }
}

/// A symbol is any one character that is not reserved.
pub open spec fn spec_parse_symbol(s: Seq<char>) -> SpecParse<Factor> {
    match spec_satisfies(s, |c: char| !is_reserved(c)) {
        Ok((c, t)) => Ok((Factor::Symbol(c), t)),
        Err(e) => Err(e),
    }
}

/// `|` reads as alternation; anything else is concatenation, reading nothing.
pub open spec fn spec_parse_operator(s: Seq<char>) -> SpecParse<Operator> {
    match spec_a_char(s, '|') {
        Ok((_, t)) => Ok((Operator::Alternation, t)),
        Err(_) => Ok((Operator::Concat, s)),
    }
}

/// A group is an expression between `(` and `)`.
pub open spec fn spec_parse_group(s: Seq<char>) -> SpecParse<Factor>
    decreases s.len(), 2int,
{
    match spec_a_char(s, '(') {
        Err(e) => Err(e),
        Ok((_, t)) => if t.len() < s.len() {
            match spec_parse_expression(t) {
                Err(e) => Err(e),
                Ok((expr, u)) => match spec_a_char(u, ')') {
                    Err(e) => Err(e),
                    Ok((_, w)) => Ok((Factor::Group(Box::new(expr)), w)),
                },
            }
        } else {
            Err(Seq::empty())
        },
    }
}

/// A factor is a symbol or, failing that, a group.
pub open spec fn spec_parse_factor(s: Seq<char>) -> SpecParse<Factor>
    decreases s.len(), 3int,
{
    match spec_parse_symbol(s) {
        Ok(r) => Ok(r),
        Err(_) => spec_parse_group(s),
    }
}

/// A repetition is a factor followed by a repeater.
pub open spec fn spec_parse_repetition(s: Seq<char>) -> SpecParse<Term>
    decreases s.len(), 4int,
{
    match spec_parse_factor(s) {
        Err(e) => Err(e),
        Ok((f, t)) => match spec_parse_repeater(t) {
            Err(e) => Err(e),
            Ok((rp, u)) => Ok((Term::Repetition(f, rp), u)),
        },
    }
}

/// A simple term is a factor alone.
pub open spec fn spec_parse_simple_term(s: Seq<char>) -> SpecParse<Term>
    decreases s.len(), 4int,
{
    match spec_parse_factor(s) {
        Err(e) => Err(e),
        Ok((f, t)) => Ok((Term::Term(f), t)),
    }
}

/// A term is a repetition or, failing that, a simple term.
pub open spec fn spec_parse_term(s: Seq<char>) -> SpecParse<Term>
    decreases s.len(), 5int,
{
    match spec_parse_repetition(s) {
        Ok(r) => Ok(r),
        Err(_) => spec_parse_simple_term(s),
    }
}

/// An operator followed by a term, the term as a leaf.
pub open spec fn spec_parse_operator_term(s: Seq<char>) -> SpecParse<(Operator, Expression)>
    decreases s.len(), 6int,
{
    match spec_parse_operator(s) {
        Err(e) => Err(e),
        Ok((op, t)) => if t.len() <= s.len() {
            match spec_parse_term(t) {
                Err(e) => Err(e),
                Ok((term, u)) => Ok(((op, Expression::Leaf(term)), u)),
            }
        } else {
            Err(Seq::empty())
        },
    }
}

/// The operator-term pairs that follow a first term, read greedily, and
/// what is left after them.
pub open spec fn spec_parse_operator_terms(s: Seq<char>) -> (Seq<(Operator, Expression)>, Seq<char>)
    decreases s.len(), 7int,
{
    match spec_parse_operator_term(s) {
        Err(_) => (Seq::empty(), s),
        Ok((pair, t)) => if t.len() < s.len() {
            let (pairs, rest) = spec_parse_operator_terms(t);
            (seq![pair] + pairs, rest)
        } else {
            (Seq::empty(), s)
        },
    }
}

/// Joins a first expression with operator-expression pairs, leaning left.
pub open spec fn fold_tree(first: Expression, pairs: Seq<(Operator, Expression)>) -> Expression {
    pairs.fold_left(
        first,
        |acc: Expression, pair: (Operator, Expression)|
            Expression::Node(Box::new(acc), pair.0, Box::new(pair.1)),
    )
}

/// An expression is a term followed by as many operator-term pairs as
/// read, joined leaning left.
pub open spec fn spec_parse_expression(s: Seq<char>) -> SpecParse<Expression>
    decreases s.len(), 8int,
{
    match spec_parse_term(s) {
        Err(e) => Err(e),
        Ok((first, t)) => if t.len() <= s.len() {
            let (pairs, rest) = spec_parse_operator_terms(t);
            Ok((fold_tree(Expression::Leaf(first), pairs), rest))
        } else {
            Err(Seq::empty())
        },
    }
}

/// What a parse leaves is a suffix of its input, shorter when it consumed.
pub open spec fn parsed_suffix<X>(r: ParserResult<X>, s: Seq<char>, strict: bool) -> bool {
    r matches Ok((_, t)) ==> is_suffix_of(t@, s) && (strict ==> t@.len() < s.len())
}

proof fn lemma_drop_first_suffix(s: Seq<char>)
    requires
        s.len() > 0,
    ensures
        is_suffix_of(s.drop_first(), s),
{
    assert(s.drop_first() =~= s.subrange(1, s.len() as int));
}

fn not_reserved(c: char) -> (b: bool)
    ensures
        b == !is_reserved(c),
        b == !RESERVED_CHARACTERS@.contains(c),
{
    proof {
        reveal_strlit("()*|");
        assert(RESERVED_CHARACTERS@ =~= seq!['(', ')', '*', '|']);
        if RESERVED_CHARACTERS@.contains(c) {
            let i = choose|i: int| 0 <= i < 4 && RESERVED_CHARACTERS@[i] == c;
        }
        if is_reserved(c) {
            if c == '(' { assert(RESERVED_CHARACTERS@[0] == c) }
            if c == ')' { assert(RESERVED_CHARACTERS@[1] == c) }
            if c == '*' { assert(RESERVED_CHARACTERS@[2] == c) }
            if c == '|' { assert(RESERVED_CHARACTERS@[3] == c) }
        }
    }
    !(c == '(' || c == ')' || c == '*' || c == '|')
}

fn parse_any<'a>(stream: &'a str) -> (r: ParserResult<'a, Repeater>)
    ensures
        outcome(r) == match spec_a_char(stream@, '*') {
            Ok((_, t)) => Ok((Repeater::Any, t)),
            Err(e) => Err(e),
        },
{
    match a_char(stream, '*') {
        Ok((_, stream)) => Ok((Repeater::Any, stream)),
        Err(e) => Err(e),
    }
}

fn parse_some<'a>(stream: &'a str) -> (r: ParserResult<'a, Repeater>)
    ensures
        outcome(r) == match spec_a_char(stream@, '+') {
            Ok((_, t)) => Ok((Repeater::OneOrMore, t)),
            Err(e) => Err(e),
        },
{
    match a_char(stream, '+') {
        Ok((_, stream)) => Ok((Repeater::OneOrMore, stream)),
        Err(e) => Err(e),
    }
}

pub fn parse_repeater<'a>(stream: &'a str) -> (r: ParserResult<'a, Repeater>)
    ensures
        outcome(r) == spec_parse_repeater(stream@),
        parsed_suffix(r, stream@, true),
{
    let mut result = parse_some(stream);
    if result.is_err() {
        result = parse_any(stream);
    }
    proof {
        if stream@.len() > 0 {
            lemma_drop_first_suffix(stream@);
        }
    }
    result
}

pub fn parse_symbol<'a>(stream: &'a str) -> (r: ParserResult<'a, Factor>)
    ensures
        outcome(r) == spec_parse_symbol(stream@),
        parsed_suffix(r, stream@, true),
{
    let r = match satisfies(stream, not_reserved) {
        Ok((c, stream)) => Ok((Factor::Symbol(c), stream)),
        Err(e) => Err(e),
    };
    proof {
        if stream@.len() > 0 {
            lemma_drop_first_suffix(stream@);
        }
    }
    r
}

pub fn parse_group<'a>(stream: &'a str) -> (r: ParserResult<'a, Factor>)
    ensures
        outcome(r) == spec_parse_group(stream@),
        parsed_suffix(r, stream@, true),
    decreases stream@.len(), 2int,
{
    let (_, inner) = match a_char(stream, '(') {
        Ok(x) => x,
        Err(e) => return Err(e),
    };
    proof {
        lemma_drop_first_suffix(stream@);
    }
    let (expr, after) = match parse_expression(inner) {
        Ok(x) => x,
        Err(e) => return Err(e),
    };
    proof {
        lemma_suffix_trans(after@, inner@, stream@);
    }
    let (_, rest) = match a_char(after, ')') {
        Ok(x) => x,
        Err(e) => return Err(e),
    };
    proof {
        lemma_drop_first_suffix(after@);
        lemma_suffix_trans(rest@, after@, stream@);
    }
    Ok((Factor::Group(Box::new(expr)), rest))
}

pub fn parse_factor<'a>(stream: &'a str) -> (r: ParserResult<'a, Factor>)
    ensures
        outcome(r) == spec_parse_factor(stream@),
        parsed_suffix(r, stream@, true),
    decreases stream@.len(), 3int,
{
    let mut result = parse_symbol(stream);
    if result.is_err() {
        result = parse_group(stream);
    }
    result
}

pub fn parse_repetition<'a>(stream: &'a str) -> (r: ParserResult<'a, Term>)
    ensures
        outcome(r) == spec_parse_repetition(stream@),
        parsed_suffix(r, stream@, true),
    decreases stream@.len(), 4int,
{
    let (factor, rest) = match parse_factor(stream) {
        Ok(x) => x,
        Err(e) => return Err(e),
    };
    let (repeater, rest2) = match parse_repeater(rest) {
        Ok(x) => x,
        Err(e) => return Err(e),
    };
    proof {
        lemma_suffix_trans(rest2@, rest@, stream@);
    }
    Ok((Term::Repetition(factor, repeater), rest2))
}

pub fn parse_simple_term<'a>(stream: &'a str) -> (r: ParserResult<'a, Term>)
    ensures
        outcome(r) == spec_parse_simple_term(stream@),
        parsed_suffix(r, stream@, true),
    decreases stream@.len(), 4int,
{
    let (factor, rest) = match parse_factor(stream) {
        Ok(x) => x,
        Err(e) => return Err(e),
    };
    Ok((Term::Term(factor), rest))
}

pub fn parse_term<'a>(stream: &'a str) -> (r: ParserResult<'a, Term>)
    ensures
        outcome(r) == spec_parse_term(stream@),
        parsed_suffix(r, stream@, true),
    decreases stream@.len(), 5int,
{
    let mut result = parse_repetition(stream);
    if result.is_err() {
        result = parse_simple_term(stream);
    }
    result
}

pub fn parse_operator<'a>(stream: &'a str) -> (r: ParserResult<'a, Operator>)
    ensures
        outcome(r) == spec_parse_operator(stream@),
        parsed_suffix(r, stream@, false),
{
    proof {
        assert(is_suffix_of(stream@, stream@));
        if stream@.len() > 0 {
            lemma_drop_first_suffix(stream@);
        }
    }
    match a_char(stream, '|') {
        Ok((_, rest)) => Ok((Operator::Alternation, rest)),
        Err(_) => Ok((Operator::Concat, stream)),
    }
}

fn parse_operator_term<'a>(stream: &'a str) -> (r: ParserResult<'a, (Operator, Expression)>)
    ensures
        outcome(r) == spec_parse_operator_term(stream@),
        parsed_suffix(r, stream@, true),
    decreases stream@.len(), 6int,
{
    let (op, rest) = match parse_operator(stream) {
        Ok(x) => x,
        Err(e) => return Err(e),
    };
    let (term, rest2) = match parse_term(rest) {
        Ok(x) => x,
        Err(e) => return Err(e),
    };
    proof {
        lemma_suffix_trans(rest2@, rest@, stream@);
    }
    let leaf = Expression::Leaf(term);
    Ok(((op, leaf), rest2))
}

fn combine_results(left: Expression, pair: (Operator, Expression)) -> (e: Expression)
    ensures
        e == Expression::Node(Box::new(left), pair.0, Box::new(pair.1)),
{
    let (op, right) = pair;
    Expression::Node(Box::new(left), op, Box::new(right))
}

/// Applies `parse_operator_term` from `stream` for as long as it succeeds,
/// collecting the pairs into `acc`.
fn parse_operator_terms<'a>(stream: &'a str, acc: Vec<(Operator, Expression)>) -> (r: (
    Vec<(Operator, Expression)>,
    &'a str,
))
    ensures
        r.0@ == acc@ + spec_parse_operator_terms(stream@).0,
        r.1@ == spec_parse_operator_terms(stream@).1,
        is_suffix_of(r.1@, stream@),
    decreases stream@.len(), 7int,
{
    let mut acc = acc;
    match parse_operator_term(stream) {
        Ok((pair, rest)) => {
            let ghost before = acc@;
            acc.push(pair);
            let r = parse_operator_terms(rest, acc);
            proof {
                lemma_suffix_trans(r.1@, rest@, stream@);
                assert(r.0@ =~= before + spec_parse_operator_terms(stream@).0);
            }
            r
        },
        Err(_) => {
            proof {
                assert(is_suffix_of(stream@, stream@));
                assert(acc@ =~= acc@ + Seq::<(Operator, Expression)>::empty());
            }
            (acc, stream)
        },
    }
}

/// Left recurssive expression parsing for regular expression syntax tree
pub fn parse_expression<'a>(stream: &'a str) -> (r: ParserResult<'a, Expression>)
    ensures
        outcome(r) == spec_parse_expression(stream@),
        parsed_suffix(r, stream@, true),
    decreases stream@.len(), 8int,
{
    let (first, rest) = match parse_term(stream) {
        Ok(x) => x,
        Err(e) => return Err(e),
    };
    let first_leaf = Expression::Leaf(first);
    let (results, rest2) = parse_operator_terms(rest, Vec::new());
    proof {
        assert(results@ =~= spec_parse_operator_terms(rest@).0);
        lemma_suffix_trans(rest2@, rest@, stream@);
    }
    let ghost pairs = results@;
    let mut tree = first_leaf;
    for pair in iter: results
        invariant
            iter.seq() == pairs,
            tree == fold_tree(Expression::Leaf(first), pairs.take(iter.index() as int)),
    {
        proof {
            assert(pairs.take(iter.index() + 1).drop_last() =~= pairs.take(iter.index() as int));
        }
        tree = combine_results(tree, pair);
    }
    proof {
        assert(pairs.take(pairs.len() as int) =~= pairs);
    }
    Ok((tree, rest2))
}

/// A symbol is never a reserved character.
pub proof fn lemma_symbols_are_not_reserved(s: Seq<char>)
    ensures
        spec_parse_symbol(s) matches Ok((Factor::Symbol(c), _)) ==> !is_reserved(c),
{
}

/// A single character that is not reserved reads as itself.
pub proof fn lemma_single_literal(c: char)
    requires
        !is_reserved(c),
    ensures
        spec_parse_expression(seq![c]) == Ok::<(Expression, Seq<char>), Seq<char>>(
            (Expression::Leaf(Term::Term(Factor::Symbol(c))), Seq::empty()),
        ),
{
    let s = seq![c];
    let e = Seq::<char>::empty();
    assert(s.drop_first() =~= e);
    assert(spec_parse_symbol(s) == Ok::<(Factor, Seq<char>), Seq<char>>((Factor::Symbol(c), e)));
    assert(spec_parse_factor(s) == Ok::<(Factor, Seq<char>), Seq<char>>((Factor::Symbol(c), e)));
    assert(spec_parse_repeater(e) is Err);
    assert(spec_parse_repetition(s) is Err);
    assert(spec_parse_term(s) == Ok::<(Term, Seq<char>), Seq<char>>(
        (Term::Term(Factor::Symbol(c)), e),
    ));
    assert(spec_parse_operator(e) == Ok::<(Operator, Seq<char>), Seq<char>>((Operator::Concat, e)));
    assert(spec_parse_symbol(e) is Err);
    assert(spec_parse_group(e) is Err);
    assert(spec_parse_factor(e) is Err);
    assert(spec_parse_repetition(e) is Err);
    assert(spec_parse_simple_term(e) is Err);
    assert(spec_parse_term(e) is Err);
    assert(spec_parse_operator_term(e) is Err);
    assert(spec_parse_operator_terms(e) == (Seq::<(Operator, Expression)>::empty(), e));
    assert(fold_tree(Expression::Leaf(Term::Term(Factor::Symbol(c))), Seq::empty())
        == Expression::Leaf(Term::Term(Factor::Symbol(c))));
}

/// Folding joins every pair: with no pair the tree is the first
/// expression, and one more pair puts the tree so far on the left of a new
/// node whose operator and right side are that pair's.
pub proof fn lemma_fold_tree_joins_every_pair(
    first: Expression,
    pairs: Seq<(Operator, Expression)>,
    pair: (Operator, Expression),
)
    ensures
        fold_tree(first, Seq::empty()) == first,
        fold_tree(first, pairs.push(pair)) == Expression::Node(
            Box::new(fold_tree(first, pairs)),
            pair.0,
            Box::new(pair.1),
        ),
{
    assert(pairs.push(pair).drop_last() =~= pairs);
}

/// Folding a first pair joins it to the first expression before the rest.
proof fn lemma_fold_tree_front(
    first: Expression,
    pair: (Operator, Expression),
    pairs: Seq<(Operator, Expression)>,
)
    ensures
        fold_tree(first, seq![pair] + pairs) == fold_tree(
            Expression::Node(Box::new(first), pair.0, Box::new(pair.1)),
            pairs,
        ),
{
    let f = |acc: Expression, pair: (Operator, Expression)|
        Expression::Node(Box::new(acc), pair.0, Box::new(pair.1));
    let all = seq![pair] + pairs;
    all.lemma_fold_left_alt(first, f);
    pairs.lemma_fold_left_alt(f(first, pair), f);
    assert(all.subrange(1, all.len() as int) =~= pairs);
    reveal_with_fuel(Seq::fold_left_alt, 1);
}

/// Text made only of characters that are read as plain symbols: none is
/// reserved, and none is `+`, which after a symbol reads as a repeater.
pub open spec fn plain_symbols(s: Seq<char>) -> bool {
    forall|i: int| 0 <= i < s.len() ==> !is_reserved(#[trigger] s[i]) && s[i] != '+'
}

/// On plain symbols, a term is the first symbol alone.
proof fn lemma_plain_term(s: Seq<char>)
    requires
        plain_symbols(s),
        s.len() > 0,
    ensures
        spec_parse_term(s) == Ok::<(Term, Seq<char>), Seq<char>>(
            (Term::Term(Factor::Symbol(s[0])), s.drop_first()),
        ),
{
    let t = s.drop_first();
    assert(!is_reserved(s[0]) && s[0] != '+');
    assert(spec_parse_symbol(s) == Ok::<(Factor, Seq<char>), Seq<char>>(
        (Factor::Symbol(s[0]), t),
    ));
    assert(spec_parse_factor(s) == Ok::<(Factor, Seq<char>), Seq<char>>(
        (Factor::Symbol(s[0]), t),
    ));
    if t.len() > 0 {
        assert(t[0] == s[1]);
        assert(!is_reserved(s[1]) && s[1] != '+');
    }
    assert(spec_parse_repeater(t) is Err);
    assert(spec_parse_repetition(s) is Err);
    assert(spec_parse_simple_term(s) == Ok::<(Term, Seq<char>), Seq<char>>(
        (Term::Term(Factor::Symbol(s[0])), t),
    ));
}

/// `acc` followed by the symbols of `t`, each joined to what comes before
/// it by concatenation, leaning left.
pub open spec fn concat_onto(acc: Expression, t: Seq<char>) -> Expression
    decreases t.len(),
{
    if t.len() == 0 {
        acc
    } else {
        concat_onto(
            Expression::Node(
                Box::new(acc),
                Operator::Concat,
                Box::new(Expression::Leaf(Term::Term(Factor::Symbol(t[0])))),
            ),
            t.drop_first(),
        )
    }
}

/// After a term, plain symbols are read as concatenations of each of them,
/// in order, with nothing left.
proof fn lemma_plain_operator_terms(acc: Expression, t: Seq<char>)
    requires
        plain_symbols(t),
    ensures
        spec_parse_operator_terms(t).1 == Seq::<char>::empty(),
        fold_tree(acc, spec_parse_operator_terms(t).0) == concat_onto(acc, t),
    decreases t.len(),
{
    if t.len() == 0 {
        assert(spec_parse_operator(t) == Ok::<(Operator, Seq<char>), Seq<char>>(
            (Operator::Concat, t),
        ));
        assert(spec_parse_symbol(t) is Err);
        assert(spec_parse_group(t) is Err);
        assert(spec_parse_factor(t) is Err);
        assert(spec_parse_repetition(t) is Err);
        assert(spec_parse_simple_term(t) is Err);
        assert(spec_parse_term(t) is Err);
        assert(spec_parse_operator_term(t) is Err);
        assert(t =~= Seq::<char>::empty());
        assert(fold_tree(acc, Seq::empty()) == acc);
    } else {
        let u = t.drop_first();
        assert(!is_reserved(t[0]));
        assert(spec_parse_operator(t) == Ok::<(Operator, Seq<char>), Seq<char>>(
            (Operator::Concat, t),
        ));
        lemma_plain_term(t);
        let pair = (Operator::Concat, Expression::Leaf(Term::Term(Factor::Symbol(t[0]))));
        assert(spec_parse_operator_term(t) == Ok::<((Operator, Expression), Seq<char>), Seq<char>>(
            (pair, u),
        ));
        assert(plain_symbols(u)) by {
            assert forall|i: int| 0 <= i < u.len() implies !is_reserved(#[trigger] u[i]) && u[i]
                != '+' by {
                assert(u[i] == t[i + 1]);
            }
        }
        let next = Expression::Node(Box::new(acc), pair.0, Box::new(pair.1));
        lemma_plain_operator_terms(next, u);
        let rest_pairs = spec_parse_operator_terms(u).0;
        assert(spec_parse_operator_terms(t).0 == seq![pair] + rest_pairs);
        lemma_fold_tree_front(acc, pair, rest_pairs);
    }
}

/// Text of plain symbols parses whole, to the concatenation of all its
/// symbols in order, leaning left: `abcd` reads as ((a b) c) d.
pub proof fn lemma_plain_symbols_concatenate(s: Seq<char>)
    requires
        plain_symbols(s),
        s.len() > 0,
    ensures
        spec_parse_expression(s) == Ok::<(Expression, Seq<char>), Seq<char>>(
            (
                concat_onto(Expression::Leaf(Term::Term(Factor::Symbol(s[0]))), s.drop_first()),
                Seq::empty(),
            ),
        ),
{
    let t = s.drop_first();
    lemma_plain_term(s);
    assert(plain_symbols(t)) by {
        assert forall|i: int| 0 <= i < t.len() implies !is_reserved(#[trigger] t[i]) && t[i]
            != '+' by {
            assert(t[i] == s[i + 1]);
        }
    }
    lemma_plain_operator_terms(Expression::Leaf(Term::Term(Factor::Symbol(s[0]))), t);
}

/// A symbol is read from any first character but `(`, `)`, `*` and `|`;
/// `+` reads as repetition once or more and `*` as repetition any number
/// of times, each consuming its one character.
pub proof fn lemma_symbols_and_repeaters(s: Seq<char>)
    requires
        s.len() > 0,
    ensures
        spec_parse_symbol(s) is Ok <==> !(s[0] == '(' || s[0] == ')' || s[0] == '*' || s[0]
            == '|'),
        spec_parse_symbol(s) is Ok ==> spec_parse_symbol(s) == Ok::<(Factor, Seq<char>), Seq<char>>(
            (Factor::Symbol(s[0]), s.drop_first()),
        ),
        s[0] == '+' ==> spec_parse_repeater(s) == Ok::<(Repeater, Seq<char>), Seq<char>>(
            (Repeater::OneOrMore, s.drop_first()),
        ),
        s[0] == '*' ==> spec_parse_repeater(s) == Ok::<(Repeater, Seq<char>), Seq<char>>(
            (Repeater::Any, s.drop_first()),
        ),
        s[0] != '+' && s[0] != '*' ==> spec_parse_repeater(s) is Err,
        s[0] == '|' ==> spec_parse_operator(s) == Ok::<(Operator, Seq<char>), Seq<char>>(
            (Operator::Alternation, s.drop_first()),
        ),
        s[0] != '|' ==> spec_parse_operator(s) == Ok::<(Operator, Seq<char>), Seq<char>>(
            (Operator::Concat, s),
        ),
{
}

} // verus!
