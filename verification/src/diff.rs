//! Line diffs.

use vstd::prelude::*;
use vstd::string::StringExecFns;

verus! {

/// The unified diff of two texts under the given headers.
pub uninterp spec fn unified_diff(
    before: Seq<char>,
    after: Seq<char>,
    from: Seq<char>,
    to: Seq<char>,
) -> Seq<char>;

/// `similar::TextDiff::from_lines` compares two texts line by line; the comparison is
/// written as a unified diff with three lines of context.
#[verifier::external_body]
pub(crate) fn diff_lines(before: &str, after: &str, from: &str, to: &str) -> (r: String)
    ensures
        r@ == unified_diff(before@, after@, from@, to@),
{
    similar::TextDiff::from_lines(before, after).unified_diff().header(from, to).to_string()
}

/// The diff of a change to a file.
pub open spec fn file_diff(before: Seq<char>, after: Seq<char>, path: Seq<char>) -> Seq<char> {
    unified_diff(before, after, "a/"@ + path, "b/"@ + path)
}

/// The diff of a change to a file.
pub fn generate_diff(before: &str, after: &str, path: &str) -> (r: String)
    ensures
        r@ == file_diff(before@, after@, path@),
{
    let mut from = "a/".to_owned();
    from.append(path);
    let mut to = "b/".to_owned();
    to.append(path);
    diff_lines(before, after, from.as_str(), to.as_str())
}

} // verus!
