//! The sequence aligner: the outside library that compares two lists of
//! lines and reports the grouped operations between them.

use crate::script::{accepted, grouped_ok, EditScript, RawOp};
use difflib::sequencematcher::SequenceMatcher;
use vstd::prelude::*;

verus! {

/// The groups of operations that the aligner reports for two lists of lines
/// and a number of context lines.
pub uninterp spec fn grouped_opcodes(before: Seq<Seq<char>>, after: Seq<Seq<char>>, n: nat) -> Seq<
    Seq<(Seq<char>, usize, usize, usize, usize)>,
>;

/// Calls `difflib::sequencematcher::SequenceMatcher::new` on the two lists
/// and `get_grouped_opcodes` on the matcher, and hands each opcode out as its
/// tag and its four bounds. Nothing is claimed of the groups but that they
/// depend on the lines and on `n` alone. The matcher adds `n` to itself and
/// to line indices, so `n` is kept to half the range of `usize`.
#[verifier::external_body]
fn grouped(before: &Vec<String>, after: &Vec<String>, n: usize) -> (raw: Vec<Vec<RawOp>>)
    requires
        n <= usize::MAX / 2,
    ensures
        raw.deep_view() == grouped_opcodes(before.deep_view(), after.deep_view(), n as nat),
{
    let mut matcher = SequenceMatcher::new(before, after);
    let groups = matcher.get_grouped_opcodes(n);
    groups.into_iter().map(
        |group|
            group.into_iter().map(
                |c| (c.tag, c.first_start, c.first_end, c.second_start, c.second_end),
            ).collect(),
    ).collect()
}

/// Aligns two lists of lines with `n` lines of context around each change.
pub fn align(before: Vec<String>, after: Vec<String>, n: usize) -> (script: EditScript)
    requires
        n <= usize::MAX / 2,
    ensures
        script@.before == before.deep_view(),
        script@.after == after.deep_view(),
        script@.context == n,
        script@.groups == accepted(
            grouped_opcodes(before.deep_view(), after.deep_view(), n as nat),
            n as nat,
            before.deep_view(),
            after.deep_view(),
        ),
        grouped_ok(script@.groups, script@.context, script@.before, script@.after),
{
    let raw = grouped(&before, &after, n);
    EditScript::from_raw(before, after, n, raw)
}

} // verus!
