//! Operators that apply a parser repeatedly to a stream.
use vstd::prelude::*;
use vstd::string::*;
use super::ParserResult;

verus! {

/// `vals` are the values of successive successful applications of `p`,
/// the application giving `vals[i]` starting from `stops[i]` and leaving
/// `stops[i + 1]`.
pub open spec fn steps_through<P, T>(p: P, stops: Seq<&str>, vals: Seq<T>) -> bool where
    P: Fn(&str) -> ParserResult<T>,
 {
    &&& stops.len() == vals.len() + 1
    &&& forall|i: int|
        #![trigger vals[i]]
        0 <= i < vals.len() ==> call_ensures(
            p,
            (stops[i],),
            Ok::<(T, &str), String>((vals[i], stops[i + 1])),
        )
}

/// `vals` are the values that applying `p` again and again from `s` gives,
/// each application starting where the one before stopped, until an
/// application fails on `rest`.
pub open spec fn many_trace<P, T>(p: P, s: &str, vals: Seq<T>, rest: &str) -> bool where
    P: Fn(&str) -> ParserResult<T>,
 {
    &&& exists|stops: Seq<&str>|
        {
            &&& #[trigger] steps_through(p, stops, vals)
            &&& stops[0] == s
            &&& stops.last() == rest
        }
    &&& exists|e: String| call_ensures(p, (rest,), Err::<(T, &str), String>(e))
}

/// Wherever applying `p` again and again from `s` leads, `p` may be
/// applied once more.
pub open spec fn applicable_along<P, T>(p: P, s: &str) -> bool where
    P: Fn(&str) -> ParserResult<T>,
 {
    forall|stops: Seq<&str>, vals: Seq<T>|
        #[trigger] steps_through(p, stops, vals) && stops[0] == s ==> call_requires(
            p,
            (stops.last(),),
        )
}

/// Wherever applying `p` again and again from `s` leads, a further
/// successful application consumes at least one character.
pub open spec fn consumes_along<P, T>(p: P, s: &str) -> bool where
    P: Fn(&str) -> ParserResult<T>,
 {
    forall|stops: Seq<&str>, vals: Seq<T>, v: T, t: &str|
        #![trigger steps_through(p, stops, vals), call_ensures(p, (stops.last(),), Ok::<(T, &str), String>((v, t)))]
        steps_through(p, stops, vals) && stops[0] == s && call_ensures(
            p,
            (stops.last(),),
            Ok::<(T, &str), String>((v, t)),
        ) ==> t@.len() < stops.last()@.len()
}

/// What `many` gives: the values and rest of a trace of `p` from `s`.
pub open spec fn many_result<P, T>(p: P, s: &str, r: ParserResult<Vec<T>>) -> bool where
    P: Fn(&str) -> ParserResult<T>,
 {
    r matches Ok((vals, rest)) && many_trace(p, s, vals@, rest)
}

/// What `some` gives: a trace with one value at least, or the first
/// application's error after a prefix.
pub open spec fn some_result<P, T>(p: P, s: &str, r: ParserResult<Vec<T>>) -> bool where
    P: Fn(&str) -> ParserResult<T>,
 {
    match r {
        Ok((vals, rest)) => {
            &&& vals@.len() > 0
            &&& many_trace(p, s, vals@, rest)
        },
        Err(msg) => exists|e: String|
            {
                &&& call_ensures(p, (s,), Err::<(T, &str), String>(e))
                &&& msg@ == "No sucessful parse in `some`: "@ + e@
            },
    }
}

/// `p` gives one result on each stream.
pub open spec fn deterministic<P, T>(p: P) -> bool where P: Fn(&str) -> ParserResult<T> {
    forall|s: &str, r1: ParserResult<T>, r2: ParserResult<T>|
        #[trigger] call_ensures(p, (s,), r1) && #[trigger] call_ensures(p, (s,), r2) ==> r1 == r2
}

/// Two step sequences of a deterministic parser from one stream agree as
/// far as both go.
proof fn lemma_steps_agree<P, T>(
    p: P,
    st1: Seq<&str>,
    v1: Seq<T>,
    st2: Seq<&str>,
    v2: Seq<T>,
    k: int,
) where P: Fn(&str) -> ParserResult<T>
    requires
        deterministic(p),
        steps_through(p, st1, v1),
        steps_through(p, st2, v2),
        st1[0] == st2[0],
        0 <= k <= v1.len(),
        k <= v2.len(),
    ensures
        st1[k] == st2[k],
        forall|i: int| 0 <= i < k ==> v1[i] == v2[i],
    decreases k,
{
    if k > 0 {
        lemma_steps_agree(p, st1, v1, st2, v2, k - 1);
        assert(call_ensures(p, (st1[k - 1],), Ok::<(T, &str), String>((v1[k - 1], st1[k]))));
        assert(call_ensures(p, (st2[k - 1],), Ok::<(T, &str), String>((v2[k - 1], st2[k]))));
    }
}

/// Applying a deterministic parser again and again from a stream gives one
/// sequence of values and one rest.
pub proof fn lemma_many_trace_unique<P, T>(
    p: P,
    s: &str,
    v1: Seq<T>,
    r1: &str,
    v2: Seq<T>,
    r2: &str,
) where P: Fn(&str) -> ParserResult<T>
    requires
        deterministic(p),
        many_trace(p, s, v1, r1),
        many_trace(p, s, v2, r2),
    ensures
        v1 == v2,
        r1 == r2,
{
    let st1 = choose|stops: Seq<&str>|
        {
            &&& #[trigger] steps_through(p, stops, v1)
            &&& stops[0] == s
            &&& stops.last() == r1
        };
    let st2 = choose|stops: Seq<&str>|
        {
            &&& #[trigger] steps_through(p, stops, v2)
            &&& stops[0] == s
            &&& stops.last() == r2
        };
    let e1 = choose|e: String| call_ensures(p, (r1,), Err::<(T, &str), String>(e));
    let e2 = choose|e: String| call_ensures(p, (r2,), Err::<(T, &str), String>(e));
    if v1.len() < v2.len() {
        lemma_steps_agree(p, st1, v1, st2, v2, v1.len() as int);
        let k = v1.len() as int;
        assert(call_ensures(p, (st2[k],), Ok::<(T, &str), String>((v2[k], st2[k + 1]))));
        assert(false);
    } else if v2.len() < v1.len() {
        lemma_steps_agree(p, st1, v1, st2, v2, v2.len() as int);
        let k = v2.len() as int;
        assert(call_ensures(p, (st1[k],), Ok::<(T, &str), String>((v1[k], st1[k + 1]))));
        assert(false);
    } else {
        lemma_steps_agree(p, st1, v1, st2, v2, v1.len() as int);
        assert(v1 =~= v2);
    }
}

/// With a deterministic parser, every result that `many` may give on a
/// stream is the same: the operator `many(s, &p)` and the combinator
/// `many(p)` applied to `s` give one value.
pub proof fn lemma_many_result_unique<P, T>(
    p: P,
    s: &str,
    a: ParserResult<Vec<T>>,
    b: ParserResult<Vec<T>>,
) where P: Fn(&str) -> ParserResult<T>
    requires
        deterministic(p),
        many_result(p, s, a),
        many_result(p, s, b),
    ensures
        a.unwrap().0@ == b.unwrap().0@,
        a.unwrap().1 == b.unwrap().1,
{
    lemma_many_trace_unique(p, s, a.unwrap().0@, a.unwrap().1, b.unwrap().0@, b.unwrap().1);
}

/// With a deterministic parser, `some` fails exactly where `many` collects
/// nothing, and otherwise gives what `many` gives.
pub proof fn lemma_some_is_many<P, T>(
    p: P,
    s: &str,
    a: ParserResult<Vec<T>>,
    b: ParserResult<Vec<T>>,
) where P: Fn(&str) -> ParserResult<T>
    requires
        deterministic(p),
        some_result(p, s, a),
        many_result(p, s, b),
    ensures
        a is Err <==> b.unwrap().0@.len() == 0,
        a is Ok ==> a.unwrap().0@ == b.unwrap().0@ && a.unwrap().1 == b.unwrap().1,
{
    let (vm, rm) = b.unwrap();
    match a {
        Ok((vs, rs)) => {
            lemma_many_trace_unique(p, s, vs@, rs, vm@, rm);
        },
        Err(msg) => {
            let e = choose|e: String|
                {
                    &&& call_ensures(p, (s,), Err::<(T, &str), String>(e))
                    &&& msg@ == "No sucessful parse in `some`: "@ + e@
                };
            if vm@.len() > 0 {
                let st = choose|stops: Seq<&str>|
                    {
                        &&& #[trigger] steps_through(p, stops, vm@)
                        &&& stops[0] == s
                        &&& stops.last() == rm
                    };
                assert(call_ensures(p, (st[0],), Ok::<(T, &str), String>((vm@[0], st[1]))));
            }
        },
    }
}

/// A single stop with no value is a trace.
proof fn lemma_steps_start<P, T>(p: P, s: &str) where P: Fn(&str) -> ParserResult<T>
    ensures
        steps_through(p, seq![s], Seq::<T>::empty()),
        seq![s][0] == s,
        seq![s].last() == s,
{
}

/// A successful application followed by steps from where it stopped makes
/// steps from where it started.
proof fn lemma_steps_cons<P, T>(p: P, s: &str, v: T, t: &str, stops: Seq<&str>, vals: Seq<T>) where
    P: Fn(&str) -> ParserResult<T>,

    requires
        call_ensures(p, (s,), Ok::<(T, &str), String>((v, t))),
        steps_through(p, stops, vals),
        stops[0] == t,
    ensures
        steps_through(p, seq![s] + stops, seq![v] + vals),
        (seq![s] + stops)[0] == s,
        (seq![s] + stops).last() == stops.last(),
{
    let all = seq![s] + stops;
    let vs = seq![v] + vals;
    assert forall|i: int| 0 <= i < vs.len() implies call_ensures(
        p,
        (all[i],),
        Ok::<(T, &str), String>((#[trigger] vs[i], all[i + 1])),
    ) by {
        if i > 0 {
            assert(vals[i - 1] == vs[i]);
            assert(all[i] == stops[i - 1]);
            assert(all[i + 1] == stops[i]);
        }
    }
}

/// What holds along the applications from `s` holds along those from
/// where a successful application from `s` stopped.
proof fn lemma_along_tail<P, T>(p: P, s: &str, v: T, t: &str) where
    P: Fn(&str) -> ParserResult<T>,

    requires
        call_ensures(p, (s,), Ok::<(T, &str), String>((v, t))),
        applicable_along(p, s),
        consumes_along(p, s),
    ensures
        applicable_along(p, t),
        consumes_along(p, t),
        call_requires(p, (s,)),
        t@.len() < s@.len(),
{
    lemma_steps_start(p, s);
    assert forall|stops: Seq<&str>, vals: Seq<T>|
        #[trigger] steps_through(p, stops, vals) && stops[0] == t implies call_requires(
            p,
            (stops.last(),),
        ) by {
        lemma_steps_cons(p, s, v, t, stops, vals);
    }
    assert forall|stops: Seq<&str>, vals: Seq<T>, w: T, u: &str|
        steps_through(p, stops, vals) && stops[0] == t && call_ensures(
            p,
            (stops.last(),),
            Ok::<(T, &str), String>((w, u)),
        ) implies u@.len() < stops.last()@.len() by {
        lemma_steps_cons(p, s, v, t, stops, vals);
    }
}

/// A failing application ends a trace with no values.
pub proof fn lemma_trace_stop<P, T>(p: P, s: &str, e: String) where
    P: Fn(&str) -> ParserResult<T>,

    requires
        call_ensures(p, (s,), Err::<(T, &str), String>(e)),
    ensures
        many_trace(p, s, Seq::<T>::empty(), s),
{
    let stops = seq![s];
    assert(steps_through(p, stops, Seq::<T>::empty()));
}

/// A successful application followed by a trace from where it stopped is a trace.
pub proof fn lemma_trace_cons<P, T>(p: P, s: &str, v: T, t: &str, vals: Seq<T>, rest: &str) where
    P: Fn(&str) -> ParserResult<T>,

    requires
        call_ensures(p, (s,), Ok::<(T, &str), String>((v, t))),
        many_trace(p, t, vals, rest),
    ensures
        many_trace(p, s, seq![v] + vals, rest),
{
    let stops = choose|stops: Seq<&str>|
        {
            &&& #[trigger] steps_through(p, stops, vals)
            &&& stops[0] == t
            &&& stops.last() == rest
        };
    lemma_steps_cons(p, s, v, t, stops, vals);
}

/// Applies `parser` from `stream` until it fails, collecting the values
/// into `acc`.
fn apply_and_repeat<'a, P, T>(stream: &'a str, parser: &P, acc: Vec<T>) -> (r: ParserResult<
    'a,
    Vec<T>,
>) where P: for<'b> Fn(&'b str) -> ParserResult<'b, T>
    requires
        applicable_along(*parser, stream),
        consumes_along(*parser, stream),
    ensures
        r matches Ok((vals, rest)) && {
            &&& acc@.len() <= vals@.len()
            &&& vals@.subrange(0, acc@.len() as int) == acc@
            &&& many_trace(*parser, stream, vals@.skip(acc@.len() as int), rest)
        },
    decreases stream@.len(),
{
    let mut acc = acc;
    proof {
        lemma_steps_start(*parser, stream);
    }
    match (parser)(stream) {
        Ok((value, tail)) => {
            proof {
                lemma_along_tail(*parser, stream, value, tail);
            }
            let ghost before = acc@;
            acc.push(value);
            let r = apply_and_repeat(tail, parser, acc);
            proof {
                let (vals, rest) = r.unwrap();
                let n = before.len() as int;
                let found = vals@.skip(n);
                assert(vals@.subrange(0, n + 1)[n] == value);
                assert(found =~= seq![value] + vals@.skip(n + 1));
                assert(vals@.subrange(0, n) =~= vals@.subrange(0, n + 1).subrange(0, n));
                lemma_trace_cons(*parser, stream, value, tail, vals@.skip(n + 1), rest);
            }
            r
        },
        Err(e) => {
            proof {
                lemma_trace_stop(*parser, stream, e);
            }
            assert(acc@.skip(acc@.len() as int) =~= Seq::<T>::empty());
            assert(acc@.subrange(0, acc@.len() as int) =~= acc@);
            Ok((acc, stream))
        },
    }
}

/// Applies a parser as many times as possible, return `Vec` of results
/// (Analogous to a Kleene closure)
pub fn many<'a, P, T>(stream: &'a str, parser: &P) -> (r: ParserResult<'a, Vec<T>>) where
    P: for<'b> Fn(&'b str) -> ParserResult<'b, T>,

    requires
        applicable_along(*parser, stream),
        consumes_along(*parser, stream),
    ensures
        many_result(*parser, stream, r),
{
    let results = Vec::new();
    let r = apply_and_repeat(stream, parser, results);
    assert(r.unwrap().0@.skip(0) =~= r.unwrap().0@);
    r
}

/// Applies a parser as many times as possible, but at *least* once, return `Vec` of results
pub fn some<'a, P, T>(stream: &'a str, parser: &P) -> (r: ParserResult<'a, Vec<T>>) where
    P: for<'b> Fn(&'b str) -> ParserResult<'b, T>,

    requires
        applicable_along(*parser, stream),
        consumes_along(*parser, stream),
    ensures
        some_result(*parser, stream, r),
{
    proof {
        lemma_steps_start(*parser, stream);
    }
    match (parser)(stream) {
        Ok((value, tail)) => {
            proof {
                lemma_along_tail(*parser, stream, value, tail);
            }
            match many(tail, parser) {
                Ok((vec, rest)) => {
                    let mut vec = vec;
                    let ghost found = vec@;
                    vec.insert(0, value);
                    proof {
                        assert(vec@ =~= seq![value] + found);
                        lemma_trace_cons(*parser, stream, value, tail, found, rest);
                    }
                    Ok((vec, rest))
                },
                Err(msg) => Err(msg),
            }
        },
        Err(msg) => {
            assert(call_ensures(*parser, (stream,), Err::<(T, &str), String>(msg)));
            let prefix = String::from_str("No sucessful parse in `some`: ");
            Err(prefix.concat(msg.as_str()))
        },
    }
}

} // verus!
