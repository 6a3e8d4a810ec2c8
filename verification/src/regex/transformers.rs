//! Matchers built from syntax trees: each tree becomes a parser that
//! consumes what the tree matches and yields `()`.
use vstd::prelude::*;
use crate::parsing::{ParserResult, is_suffix_of, lemma_suffix_trans};
use crate::parsing::parsers::{a_char, spec_a_char};
use crate::parsing::combinators::{many, some};
use crate::parsing::operators::{
    applicable_along,
    consumes_along,
    many_trace,
    steps_through,
};
use super::syntax_tree::{Expression, Factor, Operator, Repeater, Term};

verus! {

/// What a matcher's outcome says: the rest of the stream, or an error message.
pub open spec fn match_outcome(r: ParserResult<()>) -> Result<Seq<char>, Seq<char>> {
    match r {
        Ok((_, t)) => Ok(t@),
        Err(m) => Err(m@),
    }
}

/// Matching a factor: a symbol matches itself; a group matches what its
/// expression matches.
pub open spec fn spec_match_factor(f: Factor, s: Seq<char>) -> Result<Seq<char>, Seq<char>>
    decreases f, 0nat, 0nat,
{
    match f {
        Factor::Symbol(c) => match spec_a_char(s, c) {
            Ok((_, t)) => Ok(t),
            Err(e) => Err(e),
        },
        Factor::Group(e) => spec_match_expression(*e, s),
    }
}

/// A factor's match as a step of a repetition: a match that consumes
/// nothing ends the repetition like a failure, as repeating it would never
/// end.
pub open spec fn spec_match_step(f: Factor, s: Seq<char>) -> Result<Seq<char>, Seq<char>>
    decreases f, 0nat, 1nat,
{
    match spec_match_factor(f, s) {
        Ok(t) => if t.len() < s.len() {
            Ok(t)
        } else {
            Err("Repetition made no progress"@)
        },
        Err(e) => Err(e),
    }
}

/// Matching a factor as many times as it matches, each time consuming
/// something; what is left.
pub open spec fn spec_match_many(f: Factor, s: Seq<char>) -> Seq<char>
    decreases f, 1nat, s.len(),
{
    match spec_match_factor(f, s) {
        Ok(t) => if t.len() < s.len() {
            spec_match_many(f, t)
        } else {
            s
        },
        Err(_) => s,
    }
}

/// A repeated factor matches as often as it can (`*`), or once and then as
/// often as it can (`+`); a single factor matches once.
pub open spec fn spec_match_term(term: Term, s: Seq<char>) -> Result<Seq<char>, Seq<char>>
    decreases term, 0nat, 0nat,
{
    match term {
        Term::Repetition(f, Repeater::Any) => Ok(spec_match_many(f, s)),
        Term::Repetition(f, Repeater::OneOrMore) => match spec_match_step(f, s) {
            Ok(t) => Ok(spec_match_many(f, t)),
            Err(e) => Err("No sucessful parse in `some`: "@ + e),
        },
        Term::Term(f) => spec_match_factor(f, s),
    }
}

/// A concatenation matches its left side, then its right side where the
/// left one stopped; an alternation matches its left side or, failing that,
/// its right side.
pub open spec fn spec_match_expression(e: Expression, s: Seq<char>) -> Result<
    Seq<char>,
    Seq<char>,
>
    decreases e, 0nat, 0nat,
{
    match e {
        Expression::Leaf(term) => spec_match_term(term, s),
        Expression::Node(left, Operator::Concat, right) => match spec_match_expression(*left, s) {
            Ok(t) => spec_match_expression(*right, t),
            Err(e) => Err(e),
        },
        Expression::Node(left, Operator::Alternation, right) => match spec_match_expression(
            *left,
            s,
        ) {
            Ok(t) => Ok(t),
            Err(_) => spec_match_expression(*right, s),
        },
    }
}

/// A factor's match leaves a suffix of the stream.
pub proof fn lemma_factor_leaves_suffix(f: Factor, s: Seq<char>)
    ensures
        spec_match_factor(f, s) matches Ok(t) ==> is_suffix_of(t, s),
    decreases f, 0nat, 0nat,
{
    match f {
        Factor::Symbol(c) => {
            if s.len() > 0 {
                assert(s.drop_first() =~= s.subrange(1, s.len() as int));
            }
        },
        Factor::Group(e) => lemma_match_leaves_suffix(*e, s),
    }
}

/// Repeating a factor leaves a suffix.
pub proof fn lemma_match_many_suffix(f: Factor, s: Seq<char>)
    ensures
        is_suffix_of(spec_match_many(f, s), s),
    decreases f, 1nat, s.len(),
{
    lemma_factor_leaves_suffix(f, s);
    assert(is_suffix_of(s, s));
    if let Ok(t) = spec_match_factor(f, s) {
        if t.len() < s.len() {
            lemma_match_many_suffix(f, t);
            lemma_suffix_trans(spec_match_many(f, t), t, s);
        }
    }
}

/// A match leaves a suffix of the stream: matching consumes a prefix.
pub proof fn lemma_match_leaves_suffix(e: Expression, s: Seq<char>)
    ensures
        spec_match_expression(e, s) matches Ok(t) ==> is_suffix_of(t, s),
    decreases e, 0nat, 0nat,
{
    match e {
        Expression::Leaf(term) => match term {
            Term::Repetition(f, Repeater::Any) => {
                assert(spec_match_expression(e, s) == spec_match_term(term, s));
                lemma_match_many_suffix(f, s);
            },
            Term::Repetition(f, Repeater::OneOrMore) => {
                assert(spec_match_expression(e, s) == spec_match_term(term, s));
                lemma_factor_leaves_suffix(f, s);
                if let Ok(t) = spec_match_step(f, s) {
                    lemma_match_many_suffix(f, t);
                    lemma_suffix_trans(spec_match_many(f, t), t, s);
                }
            },
            Term::Term(f) => {
                assert(spec_match_expression(e, s) == spec_match_term(term, s));
                lemma_factor_leaves_suffix(f, s);
            },
        },
        Expression::Node(left, op, right) => {
            lemma_match_leaves_suffix(*left, s);
            if let Ok(t) = spec_match_expression(*left, s) {
                lemma_match_leaves_suffix(*right, t);
                if let Ok(u) = spec_match_expression(*right, t) {
                    lemma_suffix_trans(u, t, s);
                }
            }
            lemma_match_leaves_suffix(*right, s);
        },
    }
}

/// A matcher for a factor.
fn factor_parser_factory<'f>(factor: &'f Factor) -> (p: impl for<'a> Fn(&'a str) -> ParserResult<
    'a,
    (),
> + 'f)
    ensures
        forall|s: &str| #[trigger] call_requires(p, (s,)),
        forall|s: &str, r: ParserResult<()>|
            #[trigger] call_ensures(p, (s,), r) ==> match_outcome(r) == spec_match_factor(
                *factor,
                s@,
            ),
    decreases factor, 0nat,
{
    move |stream: &str| -> (r: ParserResult<()>)
        ensures
            match_outcome(r) == spec_match_factor(*factor, stream@),
        {
            match factor {
                Factor::Symbol(c) => match a_char(stream, *c) {
                    Ok((_, stream)) => Ok(((), stream)),
                    Err(e) => Err(e),
                },
                Factor::Group(expr) => match_expression(expr, stream),
            }
        }
}

/// A factor's matcher as a step of a repetition: a match that consumes
/// nothing is turned into a failure.
fn factor_step_factory<'f>(factor: &'f Factor) -> (p: impl for<'a> Fn(&'a str) -> ParserResult<
    'a,
    (),
> + 'f)
    ensures
        forall|s: &str| #[trigger] call_requires(p, (s,)),
        forall|s: &str, r: ParserResult<()>|
            #[trigger] call_ensures(p, (s,), r) ==> match_outcome(r) == spec_match_step(*factor, s@)
                && (r matches Ok((_, t)) ==> t@.len() < s@.len()),
    decreases factor, 1nat,
{
    move |stream: &str| -> (r: ParserResult<()>)
        ensures
            match_outcome(r) == spec_match_step(*factor, stream@),
            r matches Ok((_, t)) ==> t@.len() < stream@.len(),
        {
            let fp = factor_parser_factory(factor);
            match fp(stream) {
                Ok((_, rest)) => if rest.unicode_len() < stream.unicode_len() {
                    Ok(((), rest))
                } else {
                    Err(String::from_str("Repetition made no progress"))
                },
                Err(e) => Err(e),
            }
        }
}

/// A parser that may always be applied and always consumes when it
/// succeeds may be repeated from any stream.
proof fn lemma_repeatable<P>(p: P, s: &str) where P: Fn(&str) -> ParserResult<()>
    requires
        forall|s: &str| #[trigger] call_requires(p, (s,)),
        forall|s: &str, r: ParserResult<()>|
            #[trigger] call_ensures(p, (s,), r) ==> (r matches Ok((_, t)) ==> t@.len() < s@.len()),
    ensures
        applicable_along(p, s),
        consumes_along(p, s),
{
}

/// Turns a parser into one that yields `()` in place of its value.
fn unitify_parser<P, T>(parser: P) -> (f: impl for<'a> Fn(&'a str) -> ParserResult<'a, ()>) where
    P: for<'b> Fn(&'b str) -> ParserResult<'b, T>,

    ensures
        forall|s: &str| call_requires(parser, (s,)) ==> #[trigger] call_requires(f, (s,)),
        forall|s: &str, r: ParserResult<()>|
            #[trigger] call_ensures(f, (s,), r) ==> exists|r1: ParserResult<T>|
                #![trigger call_ensures(parser, (s,), r1)]
                {
                    &&& call_ensures(parser, (s,), r1)
                    &&& match r1 {
                        Ok((_, t)) => r == Ok::<((), &str), String>(((), t)),
                        Err(e) => r == Err::<((), &str), String>(e),
                    }
                },
{
    move |stream: &str| -> (r: ParserResult<()>)
        requires
            call_requires(parser, (stream,)),
        ensures
            exists|r1: ParserResult<T>|
                #![trigger call_ensures(parser, (stream,), r1)]
                {
                    &&& call_ensures(parser, (stream,), r1)
                    &&& match r1 {
                        Ok((_, t)) => r == Ok::<((), &str), String>(((), t)),
                        Err(e) => r == Err::<((), &str), String>(e),
                    }
                },
        {
            let r1 = (parser)(stream);
            let ghost g = r1;
            assert(call_ensures(parser, (stream,), g));
            let r = match r1 {
                Ok((_, rest)) => Ok(((), rest)),
                Err(e) => Err(e),
            };
            assert(match g {
                Ok((_, t)) => r == Ok::<((), &str), String>(((), t)),
                Err(e) => r == Err::<((), &str), String>(e),
            });
            r
        }
}

/// The end of a trace of a factor's matcher is what repeating the factor leaves.
proof fn lemma_factor_trace<P>(p: P, f: Factor, s: &str, vals: Seq<()>, rest: &str) where
    P: Fn(&str) -> ParserResult<()>,

    requires
        forall|s: &str, r: ParserResult<()>|
            #[trigger] call_ensures(p, (s,), r) ==> match_outcome(r) == spec_match_step(f, s@),
        many_trace(p, s, vals, rest),
    ensures
        rest@ == spec_match_many(f, s@),
{
    let stops = choose|stops: Seq<&str>|
        {
            &&& #[trigger] steps_through(p, stops, vals)
            &&& stops[0] == s
            &&& stops.last() == rest
        };
    let e = choose|e: String| call_ensures(p, (rest,), Err::<((), &str), String>(e));
    lemma_factor_trace_from(p, f, stops, vals, rest, e, vals.len() as int);
}

proof fn lemma_factor_trace_from<P>(
    p: P,
    f: Factor,
    stops: Seq<&str>,
    vals: Seq<()>,
    rest: &str,
    e: String,
    i: int,
) where P: Fn(&str) -> ParserResult<()>
    requires
        forall|s: &str, r: ParserResult<()>|
            #[trigger] call_ensures(p, (s,), r) ==> match_outcome(r) == spec_match_step(f, s@),
        steps_through(p, stops, vals),
        stops.last() == rest,
        call_ensures(p, (rest,), Err::<((), &str), String>(e)),
        0 <= i <= vals.len(),
    ensures
        rest@ == spec_match_many(f, stops[vals.len() - i]@),
    decreases i,
{
    let k = vals.len() - i;
    if i == 0 {
        assert(match_outcome(Err::<((), &str), String>(e)) == spec_match_step(f, rest@));
    } else {
        lemma_factor_trace_from(p, f, stops, vals, rest, e, i - 1);
        assert(call_ensures(p, (stops[k],), Ok::<((), &str), String>((vals[k], stops[k + 1]))));
    }
}

/// Matches a term on a stream.
fn match_term<'a>(term: &Term, stream: &'a str) -> (r: ParserResult<'a, ()>)
    ensures
        match_outcome(r) == spec_match_term(*term, stream@),
    decreases term, 2nat,
{
    match term {
        Term::Repetition(factor, Repeater::Any) => {
            let fp = factor_step_factory(factor);
            proof {
                lemma_repeatable(fp, stream);
            }
            let mp = many(fp);
            let p = unitify_parser(mp);
            let r = p(stream);
            proof {
                let r1 = choose|r1: ParserResult<Vec<()>>|
                    {
                        &&& call_ensures(mp, (stream,), r1)
                        &&& match r1 {
                            Ok((_, t)) => r == Ok::<((), &str), String>(((), t)),
                            Err(e) => r == Err::<((), &str), String>(e),
                        }
                    };
                let (vals, rest) = r1.unwrap();
                lemma_factor_trace(fp, *factor, stream, vals@, rest);
            }
            r
        },
        Term::Repetition(factor, Repeater::OneOrMore) => {
            let fp = factor_step_factory(factor);
            proof {
                lemma_repeatable(fp, stream);
            }
            let sp = some(fp);
            let p = unitify_parser(sp);
            let r = p(stream);
            proof {
                let r1 = choose|r1: ParserResult<Vec<()>>|
                    {
                        &&& call_ensures(sp, (stream,), r1)
                        &&& match r1 {
                            Ok((_, t)) => r == Ok::<((), &str), String>(((), t)),
                            Err(e) => r == Err::<((), &str), String>(e),
                        }
                    };
                match r1 {
                    Ok((vals, rest)) => {
                        let stops = choose|stops: Seq<&str>|
                            {
                                &&& #[trigger] steps_through(fp, stops, vals@)
                                &&& stops[0] == stream
                                &&& stops.last() == rest
                            };
                        assert(call_ensures(
                            fp,
                            (stops[0],),
                            Ok::<((), &str), String>((vals@[0], stops[1])),
                        ));
                        let tail = stops[1];
                        let tail_stops = stops.drop_first();
                        assert(steps_through(fp, tail_stops, vals@.drop_first()));
                        assert(many_trace(fp, tail, vals@.drop_first(), rest));
                        lemma_factor_trace(fp, *factor, tail, vals@.drop_first(), rest);
                    },
                    Err(m) => {
                        let e = choose|e: String|
                            {
                                &&& call_ensures(fp, (stream,), Err::<((), &str), String>(e))
                                &&& m@ == "No sucessful parse in `some`: "@ + e@
                            };
                    },
                }
            }
            r
        },
        Term::Term(factor) => {
            let fp = factor_parser_factory(factor);
            fp(stream)
        },
    }
}

/// A matcher for a term.
fn term_parser_factory<'t>(term: &'t Term) -> (p: impl for<'a> Fn(&'a str) -> ParserResult<
    'a,
    (),
> + 't)
    ensures
        forall|s: &str| #[trigger] call_requires(p, (s,)),
        forall|s: &str, r: ParserResult<()>|
            #[trigger] call_ensures(p, (s,), r) ==> match_outcome(r) == spec_match_term(*term, s@),
    decreases term, 3nat,
{
    move |stream: &str| -> (r: ParserResult<()>)
        ensures
            match_outcome(r) == spec_match_term(*term, stream@),
        { match_term(term, stream) }
}

/// Matches an expression on a stream.
pub fn match_expression<'a>(expression: &Expression, stream: &'a str) -> (r: ParserResult<'a, ()>)
    ensures
        match_outcome(r) == spec_match_expression(*expression, stream@),
    decreases expression, 0nat,
{
    match expression {
        Expression::Leaf(term) => {
            let p = term_parser_factory(term);
            p(stream)
        },
        Expression::Node(left, operator, right) => {
            if let Operator::Concat = operator {
                match match_expression(left, stream) {
                    Ok((_, tail)) => match_expression(right, tail),
                    Err(e) => Err(e),
                }
            } else {
                let mut result = match_expression(left, stream);
                if result.is_err() {
                    result = match_expression(right, stream);
                }
                result
            }
        },
    }
}

/// Builds a parser that consumes what the expression matches.
pub fn expression_parser_factory<'e>(expression: &'e Expression) -> (p: impl for<'a> Fn(
    &'a str,
) -> ParserResult<'a, ()> + 'e)
    ensures
        forall|s: &str| #[trigger] call_requires(p, (s,)),
        forall|s: &str, r: ParserResult<()>|
            #[trigger] call_ensures(p, (s,), r) ==> match_outcome(r) == spec_match_expression(
                *expression,
                s@,
            ),
{
    move |stream: &str| -> (r: ParserResult<()>)
        ensures
            match_outcome(r) == spec_match_expression(*expression, stream@),
        { match_expression(expression, stream) }
}

/// A symbol matches exactly its own character.
pub proof fn lemma_literal_matches_itself(c: char, s: Seq<char>)
    ensures
        spec_match_expression(Expression::Leaf(Term::Term(Factor::Symbol(c))), s) is Ok <==> (s.len()
            > 0 && s[0] == c),
{
    assert(spec_match_term(Term::Term(Factor::Symbol(c)), s) == spec_match_factor(
        Factor::Symbol(c),
        s,
    ));
}

/// A group, `( expression )`, matches what its expression matches.
pub proof fn lemma_group_matches_inner(e: Expression, s: Seq<char>)
    ensures
        spec_match_expression(Expression::Leaf(Term::Term(Factor::Group(Box::new(e)))), s)
            == spec_match_expression(e, s),
{
    assert(spec_match_term(Term::Term(Factor::Group(Box::new(e))), s) == spec_match_factor(
        Factor::Group(Box::new(e)),
        s,
    ));
}

/// Repetition with `*` matches zero or more times, so it never fails.
pub proof fn lemma_any_never_fails(f: Factor, s: Seq<char>)
    ensures
        spec_match_expression(Expression::Leaf(Term::Repetition(f, Repeater::Any)), s) is Ok,
{
    assert(spec_match_term(Term::Repetition(f, Repeater::Any), s) is Ok);
}

/// An alternation matches where either side matches, the left side first.
pub proof fn lemma_alternation_matches_either(left: Expression, right: Expression, s: Seq<char>)
    ensures
        spec_match_expression(
            Expression::Node(Box::new(left), Operator::Alternation, Box::new(right)),
            s,
        ) is Ok <==> (spec_match_expression(left, s) is Ok || spec_match_expression(right, s) is Ok),
        spec_match_expression(left, s) is Ok ==> spec_match_expression(
            Expression::Node(Box::new(left), Operator::Alternation, Box::new(right)),
            s,
        ) == spec_match_expression(left, s),
{
}

/// A concatenation matches the right side where the left side stopped.
pub proof fn lemma_concat_sequences(left: Expression, right: Expression, s: Seq<char>)
    ensures
        spec_match_expression(left, s) matches Ok(t) ==> spec_match_expression(
            Expression::Node(Box::new(left), Operator::Concat, Box::new(right)),
            s,
        ) == spec_match_expression(right, t),
        spec_match_expression(left, s) is Err ==> spec_match_expression(
            Expression::Node(Box::new(left), Operator::Concat, Box::new(right)),
            s,
        ) == spec_match_expression(left, s),
{
}

} // verus!

