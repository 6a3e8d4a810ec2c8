//! Line selection: a line is selected when the expression matches
//! starting at some position of it.
use vstd::prelude::*;
use vstd::string::*;
use super::syntax_tree::Expression;
use super::transformers::{match_expression, spec_match_expression};

verus! {

/// The expression matches `line` starting at some position before its end.
pub open spec fn spec_line_matches(expression: Expression, line: Seq<char>) -> bool {
    exists|i: int| 0 <= i < line.len() && (#[trigger] spec_match_expression(expression, line.skip(i))) is Ok
}

/// Attempts the expression against every suffix of the line, from the
/// longest on, and reports whether one of them matched.
pub fn line_matches(expression: &Expression, line: &str) -> (b: bool)
    ensures
        b == spec_line_matches(*expression, line@),
{
    let n = line.unicode_len();
    for i in 0..n
        invariant
            n == line@.len(),
            forall|j: int| 0 <= j < i ==> (#[trigger] spec_match_expression(*expression, line@.skip(j))) is Err,
    {
        let suffix = line.substring_char(i, n);
        proof {
            assert(suffix@ =~= line@.skip(i as int));
        }
        if match_expression(expression, suffix).is_ok() {
            return true;
        }
    }
    false
}

/// A line is selected exactly when the expression matches, whatever the
/// match leaves, on the line from some position before its end; an empty
/// line is never selected.
pub proof fn lemma_selected_where_some_suffix_matches(expression: Expression, line: Seq<char>, i: int)
    ensures
        0 <= i < line.len() && spec_match_expression(expression, line.skip(i)) is Ok
            ==> spec_line_matches(expression, line),
        spec_line_matches(expression, line) ==> exists|j: int|
            0 <= j < line.len() && (#[trigger] spec_match_expression(expression, line.skip(j))) is Ok,
        line.len() == 0 ==> !spec_line_matches(expression, line),
{
}

} // verus!
