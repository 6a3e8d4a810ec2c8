//! Combinators that build new parsers out of parsers.
use vstd::prelude::*;
use super::ParserResult;
use super::operators::{
    applicable_along,
    consumes_along,
    many_result,
    some_result,
    many as many_op,
    some as some_op,
};

verus! {

/// Returns a new parser that applies the given parser as many times as possible
pub fn many<P, T>(parser: P) -> (f: impl for<'b> Fn(&'b str) -> ParserResult<'b, Vec<T>>) where
    P: for<'a> Fn(&'a str) -> ParserResult<'a, T>,

    ensures
        forall|s: &str|
            applicable_along(parser, s) && consumes_along(parser, s) ==> #[trigger] call_requires(
                f,
                (s,),
            ),
        forall|s: &str, r: ParserResult<Vec<T>>|
            #[trigger] call_ensures(f, (s,), r) ==> many_result(parser, s, r),
{
    move |stream: &str| -> (r: ParserResult<Vec<T>>)
        requires
            applicable_along(parser, stream),
            consumes_along(parser, stream),
        ensures
            many_result(parser, stream, r),
        { many_op(stream, &parser) }
}

/// Returns a new parser that applies the given parser at least once
pub fn some<P, T>(parser: P) -> (f: impl for<'b> Fn(&'b str) -> ParserResult<'b, Vec<T>>) where
    P: for<'a> Fn(&'a str) -> ParserResult<'a, T>,

    ensures
        forall|s: &str|
            applicable_along(parser, s) && consumes_along(parser, s) ==> #[trigger] call_requires(
                f,
                (s,),
            ),
        forall|s: &str, r: ParserResult<Vec<T>>|
            #[trigger] call_ensures(f, (s,), r) ==> some_result(parser, s, r),
{
    move |stream: &str| -> (r: ParserResult<Vec<T>>)
        requires
            applicable_along(parser, stream),
            consumes_along(parser, stream),
        ensures
            some_result(parser, stream, r),
        { some_op(stream, &parser) }
}

/// Returns a parser that tries `first` and, where it fails, `second` on the same stream.
pub fn alternate<PA, PB, T>(first: PA, second: PB) -> (f: impl for<'c> Fn(&'c str) -> ParserResult<
    'c,
    T,
>) where
    PA: for<'a> Fn(&'a str) -> ParserResult<'a, T>,
    PB: for<'b> Fn(&'b str) -> ParserResult<'b, T>,

    ensures
        forall|s: &str|
            call_requires(first, (s,)) && (forall|r1: ParserResult<T>|
                call_ensures(first, (s,), r1) && r1 is Err ==> call_requires(second, (s,)))
                ==> #[trigger] call_requires(f, (s,)),
        forall|s: &str, r: ParserResult<T>|
            #[trigger] call_ensures(f, (s,), r) ==> exists|r1: ParserResult<T>|
                {
                    &&& call_ensures(first, (s,), r1)
                    &&& r1 is Ok ==> r == r1
                    &&& r1 is Err ==> call_ensures(second, (s,), r)
                },
{
    move |stream: &str| -> (r: ParserResult<T>)
        requires
            call_requires(first, (stream,)),
            forall|r1: ParserResult<T>|
                call_ensures(first, (stream,), r1) && r1 is Err ==> call_requires(second, (stream,)),
        ensures
            exists|r1: ParserResult<T>|
                {
                    &&& call_ensures(first, (stream,), r1)
                    &&& r1 is Ok ==> r == r1
                    &&& r1 is Err ==> call_ensures(second, (stream,), r)
                },
        {
            let mut result = (first)(stream);
            let ghost r1 = result;
            if result.is_err() {
                result = (second)(stream);
            }
            result
        }
}

/// Returns a parser that applies `first`, then `second` on what `first` left,
/// and pairs their values.
pub fn chain<PA, PB, T, U>(first: PA, second: PB) -> (f: impl for<'a> Fn(&'a str) -> ParserResult<
    'a,
    (T, U),
>) where
    PA: for<'b> Fn(&'b str) -> ParserResult<'b, T>,
    PB: for<'c> Fn(&'c str) -> ParserResult<'c, U>,

    ensures
        forall|s: &str|
            call_requires(first, (s,)) && (forall|a: T, mid: &str|
                call_ensures(first, (s,), Ok::<(T, &str), String>((a, mid))) ==> call_requires(
                    second,
                    (mid,),
                )) ==> #[trigger] call_requires(f, (s,)),
        forall|s: &str, r: ParserResult<(T, U)>|
            #[trigger] call_ensures(f, (s,), r) ==> match r {
                Ok(((a, b), rest)) => exists|mid: &str|
                    {
                        &&& call_ensures(first, (s,), Ok::<(T, &str), String>((a, mid)))
                        &&& call_ensures(second, (mid,), Ok::<(U, &str), String>((b, rest)))
                    },
                Err(e) => {
                    ||| call_ensures(first, (s,), Err::<(T, &str), String>(e))
                    ||| exists|a: T, mid: &str|
                        {
                            &&& call_ensures(first, (s,), Ok::<(T, &str), String>((a, mid)))
                            &&& call_ensures(second, (mid,), Err::<(U, &str), String>(e))
                        }
                },
            },
{
    move |stream: &str| -> (r: ParserResult<(T, U)>)
        requires
            call_requires(first, (stream,)),
            forall|a: T, mid: &str|
                call_ensures(first, (stream,), Ok::<(T, &str), String>((a, mid))) ==> call_requires(
                    second,
                    (mid,),
                ),
        ensures
            match r {
                Ok(((a, b), rest)) => exists|mid: &str|
                    {
                        &&& call_ensures(first, (stream,), Ok::<(T, &str), String>((a, mid)))
                        &&& call_ensures(second, (mid,), Ok::<(U, &str), String>((b, rest)))
                    },
                Err(e) => {
                    ||| call_ensures(first, (stream,), Err::<(T, &str), String>(e))
                    ||| exists|a: T, mid: &str|
                        {
                            &&& call_ensures(first, (stream,), Ok::<(T, &str), String>((a, mid)))
                            &&& call_ensures(second, (mid,), Err::<(U, &str), String>(e))
                        }
                },
            },
        {
            match (first)(stream) {
                Ok((first_result, mid)) => {
                    assert(call_ensures(first, (stream,), Ok::<(T, &str), String>((first_result, mid))));
                    match (second)(mid) {
                        Ok((second_result, rest)) => {
                            assert(call_ensures(
                                second,
                                (mid,),
                                Ok::<(U, &str), String>((second_result, rest)),
                            ));
                            let r = Ok(((first_result, second_result), rest));
                            assert(r->Ok_0.0.0 == first_result && r->Ok_0.0.1 == second_result);
                            r
                        },
                        Err(e) => {
                            assert(call_ensures(second, (mid,), Err::<(U, &str), String>(e)));
                            Err(e)
                        },
                    }
                },
                Err(e) => Err(e),
            }
        }
}

} // verus!
