//! The unified diff document of an edit script.

use crate::script::{
    group_ok, lemma_groups_view, lemma_rest_order, op_ok, EditOp, EditScript, Tag,
};
use crate::text::{framed, push_framed};
use crate::udiff::{group_range, lemma_script_ranges_cover, span, DiffRange, Selection};
use vstd::prelude::*;
use vstd::string::*;

verus! {

/// The lines of one operation: unchanged lines behind a space, lines that
/// leave behind a minus, lines that come behind a plus, each on a new line.
/// A replacement shows all that leaves before all that comes.
pub open spec fn op_text(op: EditOp, before: Seq<Seq<char>>, after: Seq<Seq<char>>) -> Seq<char> {
    let old_lines = before.subrange(op.before_start as int, op.before_end as int);
    let new_lines = after.subrange(op.after_start as int, op.after_end as int);
    match op.tag {
        Tag::Equal => framed(old_lines, "\n "@, ""@),
        Tag::Delete => framed(old_lines, "\n-"@, ""@),
        Tag::Insert => framed(new_lines, "\n+"@, ""@),
        Tag::Replace => framed(old_lines, "\n-"@, ""@) + framed(new_lines, "\n+"@, ""@),
    }
}

/// The lines of a list of operations, in their order.
pub open spec fn ops_text(ops: Seq<EditOp>, before: Seq<Seq<char>>, after: Seq<Seq<char>>) -> Seq<
    char,
>
    decreases ops.len(),
{
    if ops.len() == 0 {
        Seq::empty()
    } else {
        ops_text(ops.drop_last(), before, after) + op_text(ops.last(), before, after)
    }
}

/// Whether a hunk is shown: always without a selection, and with one where
/// the selection holds the hunk.
pub open spec fn shown(selection: Option<Set<DiffRange>>, range: DiffRange) -> bool {
    match selection {
        Some(selected) => selected.contains(range),
        None => true,
    }
}

/// The text of one hunk: its header on a new line and then its lines, or
/// nothing where the hunk is not shown.
pub open spec fn group_text(
    group: Seq<EditOp>,
    selection: Option<Set<DiffRange>>,
    before: Seq<Seq<char>>,
    after: Seq<Seq<char>>,
) -> Seq<char> {
    if shown(selection, span(group)) {
        "\n"@ + span(group).header() + ops_text(group, before, after)
    } else {
        Seq::empty()
    }
}

/// The text of the hunks, in their order.
pub open spec fn groups_text(
    groups: Seq<Seq<EditOp>>,
    selection: Option<Set<DiffRange>>,
    before: Seq<Seq<char>>,
    after: Seq<Seq<char>>,
) -> Seq<char>
    decreases groups.len(),
{
    if groups.len() == 0 {
        Seq::empty()
    } else {
        groups_text(groups.drop_last(), selection, before, after) + group_text(
            groups.last(),
            selection,
            before,
            after,
        )
    }
}

/// The three lines that head a document, each on a new line, with the same
/// name for both sides.
pub open spec fn title(name: Seq<char>) -> Seq<char> {
    "\ndiff --git "@ + name + " "@ + name + "\n--- "@ + name + "\n+++ "@ + name
}

/// The document: the three heading lines and then the hunks that are shown.
pub open spec fn document(
    groups: Seq<Seq<EditOp>>,
    selection: Option<Set<DiffRange>>,
    name: Seq<char>,
    before: Seq<Seq<char>>,
    after: Seq<Seq<char>>,
) -> Seq<char> {
    title(name) + groups_text(groups, selection, before, after)
}

/// The set of a selection, where there is one.
pub open spec fn chosen(selection: Option<&Selection>) -> Option<Set<DiffRange>> {
    match selection {
        Some(selected) => Some(selected@),
        None => None,
    }
}

/// Appends the lines of one operation.
fn push_op(text: &mut String, op: &EditOp, before: &Vec<String>, after: &Vec<String>)
    requires
        op_ok(*op, before.deep_view(), after.deep_view()),
    ensures
        final(text)@ == old(text)@ + op_text(*op, before.deep_view(), after.deep_view()),
{
    assert(before.deep_view().len() == before.len() && after.deep_view().len() == after.len());
    match op.tag {
        Tag::Equal => {
            push_framed(text, "\n ", before, op.before_start, op.before_end, "");
        },
        Tag::Delete => {
            push_framed(text, "\n-", before, op.before_start, op.before_end, "");
        },
        Tag::Insert => {
            push_framed(text, "\n+", after, op.after_start, op.after_end, "");
        },
        Tag::Replace => {
            push_framed(text, "\n-", before, op.before_start, op.before_end, "");
            push_framed(text, "\n+", after, op.after_start, op.after_end, "");
            assert(text@ =~= old(text)@ + op_text(*op, before.deep_view(), after.deep_view()));
        },
    }
}

/// Appends the text of one hunk where it is shown.
fn push_group(
    text: &mut String,
    group: &Vec<EditOp>,
    selection: Option<&Selection>,
    before: &Vec<String>,
    after: &Vec<String>,
)
    requires
        group_ok(group@, before.deep_view(), after.deep_view()),
        group_range(group@) == Some(span(group@)),
    ensures
        final(text)@ == old(text)@ + group_text(
            group@,
            chosen(selection),
            before.deep_view(),
            after.deep_view(),
        ),
{
    let ghost b = before.deep_view();
    let ghost a = after.deep_view();
    let range = DiffRange::new(group.as_slice()).unwrap();
    let show = match selection {
        Some(selected) => selected.contains(&range),
        None => true,
    };
    if !show {
        assert(text@ =~= old(text)@ + group_text(group@, chosen(selection), b, a));
        return ;
    }
    text.append("\n");
    let header = range.to_string();
    text.append(header.as_str());
    let ghost head = text@;
    let mut j: usize = 0;
    assert(text@ =~= head + ops_text(group@.take(0), b, a));
    while j < group.len()
        invariant
            j <= group.len(),
            b == before.deep_view(),
            a == after.deep_view(),
            group_ok(group@, b, a),
            text@ == head + ops_text(group@.take(j as int), b, a),
        decreases group.len() - j,
    {
        proof {
            let upto = group@.take(j as int + 1);
            assert(upto.drop_last() =~= group@.take(j as int));
            assert(upto.last() == group@[j as int]);
            assert(op_ok(group@[j as int], b, a));
        }
        push_op(text, &group[j], before, after);
        assert(text@ =~= head + ops_text(group@.take(j as int + 1), b, a));
        j += 1;
    }
    assert(group@.take(group.len() as int) =~= group@);
    assert(text@ =~= old(text)@ + group_text(group@, chosen(selection), b, a));
}

/// Writes the unified diff of a script under a name. With a selection only
/// the hunks that it holds are written.
pub fn render(script: &EditScript, selection: Option<&Selection>, name: &str) -> (text: String)
    ensures
        text@ == document(
            script@.groups,
            chosen(selection),
            name@,
            script@.before,
            script@.after,
        ),
{
    let groups = script.groups();
    let before = script.before();
    let after = script.after();
    let ghost all = script@.groups;
    let ghost b = script@.before;
    let ghost a = script@.after;
    proof {
        lemma_script_ranges_cover(all, b, a);
        lemma_rest_order(all, 0, 0, 0, b, a);
    }
    let mut text = String::from_str("\ndiff --git ");
    text.append(name);
    text.append(" ");
    text.append(name);
    text.append("\n--- ");
    text.append(name);
    text.append("\n+++ ");
    text.append(name);
    assert(text@ =~= title(name@));
    let mut k: usize = 0;
    assert(text@ =~= title(name@) + groups_text(all.take(0), chosen(selection), b, a));
    while k < groups.len()
        invariant
            k <= groups.len(),
            all == script@.groups,
            b == script@.before,
            a == script@.after,
            groups.deep_view() == all,
            before.deep_view() == b,
            after.deep_view() == a,
            forall|i: int|
                0 <= i < all.len() ==> group_range(#[trigger] all[i]) == Some(span(all[i]))
                    && group_ok(all[i], b, a),
            text@ == title(name@) + groups_text(all.take(k as int), chosen(selection), b, a),
        decreases groups.len() - k,
    {
        proof {
            lemma_groups_view(*groups, k as int);
            let upto = all.take(k as int + 1);
            assert(upto.drop_last() =~= all.take(k as int));
            assert(upto.last() == all[k as int]);
        }
        push_group(&mut text, &groups[k], selection, before, after);
        assert(text@ =~= title(name@) + groups_text(
            all.take(k as int + 1),
            chosen(selection),
            b,
            a,
        ));
        k += 1;
    }
    assert(all.take(groups.len() as int) =~= all);
    text
}

} // verus!
