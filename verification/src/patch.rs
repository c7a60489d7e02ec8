//! Applying a choice of hunks to a text.

use crate::script::{follows, group_ok, lemma_group_span, op_ok, rest_ok, EditOp};
use crate::text::{join_lines, lemma_framed_concat, push_framed};
use crate::udiff::{
    hunks_of, new_lines_of, op_lines, span, Diff, DiffRange, DiffView, Selection,
};
use vstd::prelude::*;
use vstd::string::*;

verus! {

/// The hunks lie inside a text of `line_count` lines, and none begins before
/// an earlier one ends.
pub open spec fn fits(hunks: Seq<DiffView>, line_count: nat) -> bool {
    &&& forall|k: int|
        0 <= k < hunks.len() ==> (#[trigger] hunks[k]).range.before.0 + hunks[k].range.before.1
            <= line_count
    &&& forall|i: int, j: int|
        0 <= i < j < hunks.len() ==> (#[trigger] hunks[i]).range.before.0
            + hunks[i].range.before.1 <= (#[trigger] hunks[j]).range.before.0
}

/// The lines of the patched text from line `prev` of the text before the
/// change on, when the hunks before index `k` are done: the old lines up to
/// each hunk, then the hunk's new lines where it is selected and the old
/// lines of its range where it is not, and the old lines after the last
/// hunk.
pub open spec fn patched(
    hunks: Seq<DiffView>,
    k: int,
    prev: int,
    selected: Set<DiffRange>,
    before: Seq<Seq<char>>,
) -> Seq<Seq<char>>
    decreases hunks.len() - k,
{
    if k >= hunks.len() {
        before.subrange(prev, before.len() as int)
    } else {
        let hunk = hunks[k];
        let start = hunk.range.before.0 as int;
        let end = start + hunk.range.before.1;
        before.subrange(prev, start) + (if selected.contains(hunk.range) {
            hunk.new_lines
        } else {
            before.subrange(start, end)
        }) + patched(hunks, k + 1, end, selected, before)
    }
}

/// The patched text: its lines, each ended by a newline.
pub open spec fn patched_lines(hunks: Seq<DiffView>, selected: Set<DiffRange>, before: Seq<Seq<char>>) -> Seq<
    char,
> {
    join_lines(patched(hunks, 0, 0, selected, before))
}

/// Applies the selected hunks to the lines of a text and leaves the others
/// as they were.
pub fn apply_hunks(hunks: &Vec<Diff>, selection: &Selection, before: &Vec<String>) -> (text: String)
    requires
        fits(hunks.deep_view(), before.len() as nat),
    ensures
        text@ == patched_lines(hunks.deep_view(), selection@, before.deep_view()),
{
    let ghost all = hunks.deep_view();
    let ghost b = before.deep_view();
    let ghost none = Seq::<char>::empty();
    let ghost nl = seq!['\n'];
    proof {
        reveal_strlit("");
        reveal_strlit("\n");
        assert(""@ =~= none);
        assert("\n"@ =~= nl);
        assert(b.len() == before.len());
    }
    let mut text = String::new();
    let mut prev: usize = 0;
    let mut k: usize = 0;
    assert(text@ + join_lines(patched(all, 0, 0, selection@, b)) =~= patched_lines(
        all,
        selection@,
        b,
    ));
    while k < hunks.len()
        invariant
            k <= hunks.len(),
            all == hunks.deep_view(),
            b == before.deep_view(),
            b.len() == before.len(),
            ""@ == none,
            "\n"@ == nl,
            none == Seq::<char>::empty(),
            nl == seq!['\n'],
            fits(all, b.len()),
            prev <= before.len(),
            forall|j: int| k <= j < all.len() ==> prev <= (#[trigger] all[j]).range.before.0,
            patched_lines(all, selection@, b) == text@ + join_lines(
                patched(all, k as int, prev as int, selection@, b),
            ),
        decreases hunks.len() - k,
    {
        let hunk = &hunks[k];
        let range = hunk.range();
        let start = range.before.0;
        assert(all[k as int] == hunk@);
        let end = start + range.before.1;
        let ghost sofar = text@;
        let ghost gap = b.subrange(prev as int, start as int);
        let ghost rest = patched(all, k as int + 1, end as int, selection@, b);
        push_framed(&mut text, "", before, prev, start, "\n");
        let ghost mid = if selection@.contains(range) {
            hunk@.new_lines
        } else {
            b.subrange(start as int, end as int)
        };
        if selection.contains(&range) {
            let lines = hunk.new_lines();
            push_framed(&mut text, "", lines, 0, lines.len(), "\n");
            assert(lines.deep_view().subrange(0, lines.len() as int) =~= mid);
        } else {
            push_framed(&mut text, "", before, start, end, "\n");
        }
        proof {
            assert(patched(all, k as int, prev as int, selection@, b) == gap + mid + rest);
            lemma_framed_concat(gap + mid, rest, none, nl);
            lemma_framed_concat(gap, mid, none, nl);
            assert(text@ == sofar + join_lines(gap) + join_lines(mid));
            assert(text@ + join_lines(rest) =~= sofar + join_lines(gap + mid + rest));
        }
        prev = end;
        k += 1;
    }
    push_framed(&mut text, "", before, prev, before.len(), "\n");
    text
}

/// Where the selection holds the range of no hunk, the patched lines are
/// the old lines.
pub proof fn lemma_patched_none(
    hunks: Seq<DiffView>,
    k: int,
    prev: int,
    selected: Set<DiffRange>,
    before: Seq<Seq<char>>,
)
    requires
        fits(hunks, before.len()),
        0 <= k,
        0 <= prev <= before.len(),
        forall|j: int| k <= j < hunks.len() ==> prev <= (#[trigger] hunks[j]).range.before.0,
        forall|j: int| 0 <= j < hunks.len() ==> !selected.contains((#[trigger] hunks[j]).range),
    ensures
        patched(hunks, k, prev, selected, before) == before.subrange(prev, before.len() as int),
    decreases hunks.len() - k,
{
    if k < hunks.len() {
        let hunk = hunks[k];
        let start = hunk.range.before.0 as int;
        let end = start + hunk.range.before.1;
        lemma_patched_none(hunks, k + 1, end, selected, before);
        assert(before.subrange(prev, start) + before.subrange(start, end) + before.subrange(
            end,
            before.len() as int,
        ) =~= before.subrange(prev, before.len() as int));
    }
}

/// The first `m` operations of a group leave the lines of the text after
/// the change, from the start of the group to the end of the last of them.
proof fn lemma_new_lines_upto(
    group: Seq<EditOp>,
    before: Seq<Seq<char>>,
    after: Seq<Seq<char>>,
    m: int,
)
    requires
        group_ok(group, before, after),
        1 <= m <= group.len(),
    ensures
        new_lines_of(group.take(m), before, after) == after.subrange(
            group[0].after_start as int,
            group[m - 1].after_end as int,
        ),
    decreases m,
{
    let part = group.take(m);
    let op = group[m - 1];
    assert(part.last() == op);
    assert(op_ok(op, before, after));
    lemma_group_span(group, before, after, m - 1);
    if m == 1 {
        assert(part.drop_last() =~= Seq::<EditOp>::empty());
        assert(new_lines_of(part.drop_last(), before, after) =~= Seq::<Seq<char>>::empty());
        assert(new_lines_of(part, before, after) =~= op_lines(op, before, after));
        assert(op_lines(op, before, after) =~= after.subrange(
            op.after_start as int,
            op.after_end as int,
        ));
    } else {
        assert(part.drop_last() =~= group.take(m - 1));
        lemma_new_lines_upto(group, before, after, m - 1);
        assert(follows(group, m - 1));
        lemma_group_span(group, before, after, m - 2);
        assert(op_lines(op, before, after) =~= after.subrange(
            op.after_start as int,
            op.after_end as int,
        ));
        assert(after.subrange(group[0].after_start as int, group[m - 2].after_end as int)
            + after.subrange(op.after_start as int, op.after_end as int) =~= after.subrange(
            group[0].after_start as int,
            op.after_end as int,
        ));
    }
}

/// A group leaves the lines that the text after the change has in the
/// group's range.
pub proof fn lemma_new_lines(group: Seq<EditOp>, before: Seq<Seq<char>>, after: Seq<Seq<char>>)
    requires
        group_ok(group, before, after),
    ensures
        new_lines_of(group, before, after) == after.subrange(
            span(group).after.0 as int,
            span(group).after.0 + span(group).after.1,
        ),
{
    lemma_new_lines_upto(group, before, after, group.len() as int);
    assert(group.take(group.len() as int) =~= group);
    lemma_group_span(group, before, after, 0);
}

/// With every hunk of a script selected the patched lines are the lines of
/// the text after the change.
pub proof fn lemma_patched_all(
    groups: Seq<Seq<EditOp>>,
    k: int,
    pb: int,
    pa: int,
    selected: Set<DiffRange>,
    before: Seq<Seq<char>>,
    after: Seq<Seq<char>>,
)
    requires
        0 <= k,
        rest_ok(groups, k, pb, pa, before, after),
        forall|j: int| 0 <= j < groups.len() ==> selected.contains(#[trigger] span(groups[j])),
    ensures
        patched(hunks_of(groups, before, after), k, pb, selected, before) == after.subrange(
            pa,
            after.len() as int,
        ),
    decreases groups.len() - k,
{
    let hunks = hunks_of(groups, before, after);
    if k < groups.len() {
        let g = groups[k];
        let hunk = hunks[k];
        lemma_group_span(g, before, after, 0);
        lemma_new_lines(g, before, after);
        let start = hunk.range.before.0 as int;
        let end = start + hunk.range.before.1;
        assert(end == g.last().before_end);
        assert(selected.contains(span(groups[k])));
        lemma_patched_all(
            groups,
            k + 1,
            g.last().before_end as int,
            g.last().after_end as int,
            selected,
            before,
            after,
        );
        assert(after.subrange(pa, g[0].after_start as int) + after.subrange(
            g[0].after_start as int,
            g.last().after_end as int,
        ) + after.subrange(g.last().after_end as int, after.len() as int) =~= after.subrange(
            pa,
            after.len() as int,
        ));
    }
}

} // verus!
