//! Parser combinators over string slices.
//!
//! A parser takes a stream and either returns a parsed value together with
//! the rest of the stream, or an error message.  Contracts speak of streams
//! through their character sequences (`s@`).
use vstd::prelude::*;

pub mod combinators;
pub mod operators;
pub mod parsers;

verus! {

/// The outcome of running a parser on a stream: the parsed value and the
/// rest of the stream, or an error message.
pub type ParserResult<'a, T> = Result<(T, &'a str), String>;

/// A parser outcome seen through the character sequences of its stream
/// and message.
pub open spec fn outcome<T>(r: ParserResult<T>) -> Result<(T, Seq<char>), Seq<char>> {
    match r {
        Ok((v, t)) => Ok((v, t@)),
        Err(m) => Err(m@),
    }
}

/// `t` is what is left of `s` after dropping some prefix.
pub open spec fn is_suffix_of(t: Seq<char>, s: Seq<char>) -> bool {
    t.len() <= s.len() && t =~= s.subrange(s.len() - t.len(), s.len() as int)
}

/// A suffix of a suffix is a suffix.
pub proof fn lemma_suffix_trans(a: Seq<char>, b: Seq<char>, c: Seq<char>)
    requires
        is_suffix_of(a, b),
        is_suffix_of(b, c),
    ensures
        is_suffix_of(a, c),
{
    assert(a =~= c.subrange(c.len() - a.len(), c.len() as int));
}

} // verus!
