//! Hunks of a unified diff: their ranges, the choice among them, the text
//! they patch and the document that shows them.

use crate::aligner::{align, grouped_opcodes};
use crate::patch::{apply_hunks, fits, patched_lines};
use crate::render::{chosen, document, render, title};
use crate::script::{
    accepted, group_ok, grouped_ok, lemma_group_span, lemma_groups_view, lemma_rest_order, op_ok,
    script_ok, EditOp, EditScript, Tag,
};
use crate::text::{decimal, lemma_push_line, lines_of, push_decimal, split_lines};
use vstd::prelude::*;
use vstd::string::*;

verus! {

/// The lines that a hunk spans, before and after the change: each a first
/// line, counted from zero, and a number of lines. It is the hunk's key.
#[derive(Clone, Copy, Debug, Eq, Hash, PartialEq)]
pub struct DiffRange {
    pub before: (usize, usize),
    pub after: (usize, usize),
}

/// The range from the start of the first operation to the end of the last.
pub open spec fn span(ops: Seq<EditOp>) -> DiffRange {
    DiffRange {
        before: (ops[0].before_start, (ops.last().before_end - ops[0].before_start) as usize),
        after: (ops[0].after_start, (ops.last().after_end - ops[0].after_start) as usize),
    }
}

/// The range of a list of operations: none for an empty list, and none where
/// the last operation ends before the first begins.
pub open spec fn group_range(ops: Seq<EditOp>) -> Option<DiffRange> {
    if ops.len() > 0 && ops[0].before_start <= ops.last().before_end && ops[0].after_start
        <= ops.last().after_end {
        Some(span(ops))
    } else {
        None
    }
}

impl DiffRange {
    /// The range that a group of operations spans.
    pub fn new(ops: &[EditOp]) -> (range: Option<DiffRange>)
        ensures
            range == group_range(ops@),
    {
        if ops.len() == 0 {
            return None;
        }
        let first = &ops[0];
        let last = &ops[ops.len() - 1];
        if first.before_start <= last.before_end && first.after_start <= last.after_end {
            Some(
                DiffRange {
                    before: (first.before_start, last.before_end - first.before_start),
                    after: (first.after_start, last.after_end - first.after_start),
                },
            )
        } else {
            None
        }
    }

    /// The header line of the hunk: both first lines counted from one, each
    /// followed by its number of lines.
    pub open spec fn header(self) -> Seq<char> {
        "@@ -"@ + decimal((self.before.0 + 1) as nat) + ","@ + decimal(self.before.1 as nat) + " +"@
            + decimal((self.after.0 + 1) as nat) + ","@ + decimal(self.after.1 as nat) + " @@"@
    }

    /// Writes the header line of the hunk.
    pub fn to_string(&self) -> (text: String)
        ensures
            text@ == self.header(),
    {
        let mut text = String::from_str("@@ -");
        push_decimal(&mut text, self.before.0 as u128 + 1);
        text.append(",");
        push_decimal(&mut text, self.before.1 as u128);
        text.append(" +");
        push_decimal(&mut text, self.after.0 as u128 + 1);
        text.append(",");
        push_decimal(&mut text, self.after.1 as u128);
        text.append(" @@");
        text
    }

    /// Whether two ranges are the same.
    pub fn same(&self, other: &DiffRange) -> (same: bool)
        ensures
            same == (*self == *other),
    {
        self.before.0 == other.before.0 && self.before.1 == other.before.1 && self.after.0
            == other.after.0 && self.after.1 == other.after.1
    }
}

pub type DiffRanges = Vec<DiffRange>;

/// The hunks that a caller wants applied, by their ranges.
pub struct Selection {
    keys: Vec<DiffRange>,
}

impl View for Selection {
    type V = Set<DiffRange>;

    closed spec fn view(&self) -> Set<DiffRange> {
        self.keys@.to_set()
    }
}

impl Selection {
    /// The selection of no hunk.
    pub fn new() -> (selection: Selection)
        ensures
            selection@ == Set::<DiffRange>::empty(),
    {
        let selection = Selection { keys: Vec::new() };
        assert(selection.keys@.to_set() =~= Set::<DiffRange>::empty());
        selection
    }

    /// The selection of the hunks with the given ranges.
    pub fn of(ranges: Vec<DiffRange>) -> (selection: Selection)
        ensures
            selection@ == ranges@.to_set(),
    {
        Selection { keys: ranges }
    }

    /// Adds a hunk to the selection.
    pub fn insert(&mut self, range: DiffRange)
        ensures
            final(self)@ == old(self)@.insert(range),
    {
        self.keys.push(range);
        proof {
            let before = old(self).keys@;
            let after = self.keys@;
            assert forall|r: DiffRange| after.to_set().contains(r) <==> before.to_set().insert(
                range,
            ).contains(r) by {
                if before.to_set().contains(r) {
                    let i = choose|i: int| 0 <= i < before.len() && before[i] == r;
                    assert(after[i] == r);
                }
                if r == range {
                    assert(after[before.len() as int] == r);
                }
            }
            assert(after.to_set() =~= before.to_set().insert(range));
        }
    }

    /// Whether a hunk is selected.
    pub fn contains(&self, range: &DiffRange) -> (found: bool)
        ensures
            found == self@.contains(*range),
    {
        let mut i: usize = 0;
        while i < self.keys.len()
            invariant
                i <= self.keys.len(),
                forall|j: int| 0 <= j < i ==> self.keys@[j] != *range,
            decreases self.keys.len() - i,
        {
            if self.keys[i].same(range) {
                assert(self.keys@.contains(*range));
                return true;
            }
            i += 1;
        }
        assert(!self.keys@.contains(*range));
        false
    }
}

/// The ranges of the groups of a script, in their order.
pub open spec fn ranges_of(groups: Seq<Seq<EditOp>>) -> Seq<DiffRange> {
    Seq::new(groups.len(), |k: int| span(groups[k]))
}

/// The ranges lie inside a text of `line_count` lines, begin one after the
/// other and do not overlap: with the lines between them they cover the text
/// exactly once.
pub open spec fn ranges_cover(ranges: Seq<DiffRange>, line_count: nat) -> bool {
    &&& forall|k: int|
        0 <= k < ranges.len() ==> (#[trigger] ranges[k]).before.0 + ranges[k].before.1 <= line_count
    &&& forall|i: int, j: int|
        0 <= i < j < ranges.len() ==> (#[trigger] ranges[i]).before.0 + ranges[i].before.1 <= (
        #[trigger] ranges[j]).before.0 && ranges[i].before.0 < ranges[j].before.0
}

/// The ranges of a script cover the text before the change.
pub proof fn lemma_script_ranges_cover(
    groups: Seq<Seq<EditOp>>,
    before: Seq<Seq<char>>,
    after: Seq<Seq<char>>,
)
    requires
        script_ok(groups, before, after),
    ensures
        ranges_cover(ranges_of(groups), before.len()),
        forall|k: int| 0 <= k < groups.len() ==> group_range(#[trigger] groups[k]) == Some(span(groups[k])),
{
    lemma_rest_order(groups, 0, 0, 0, before, after);
    let ranges = ranges_of(groups);
    assert forall|k: int| 0 <= k < groups.len() implies group_range(#[trigger] groups[k]) == Some(
        span(groups[k]),
    ) by {
        lemma_group_span(groups[k], before, after, 0);
    }
    assert forall|k: int| 0 <= k < ranges.len() implies (#[trigger] ranges[k]).before.0
        + ranges[k].before.1 <= before.len() by {
        lemma_group_span(groups[k], before, after, 0);
    }
    assert forall|i: int, j: int| 0 <= i < j < ranges.len() implies (#[trigger] ranges[i]).before.0
        + ranges[i].before.1 <= (#[trigger] ranges[j]).before.0 && ranges[i].before.0
        < ranges[j].before.0 by {
        lemma_group_span(groups[i], before, after, 0);
        lemma_group_span(groups[j], before, after, 0);
    }
}

/// The ranges of the hunks of a script.
pub fn script_ranges(script: &EditScript) -> (ranges: DiffRanges)
    ensures
        ranges@ == ranges_of(script@.groups),
        ranges_cover(ranges@, script@.before.len()),
{
    let groups = script.groups();
    proof {
        lemma_script_ranges_cover(script@.groups, script@.before, script@.after);
    }
    let mut ranges: Vec<DiffRange> = Vec::new();
    let mut k: usize = 0;
    while k < groups.len()
        invariant
            k <= groups.len(),
            groups.deep_view() == script@.groups,
            forall|i: int|
                0 <= i < groups.len() ==> group_range(#[trigger] script@.groups[i]) == Some(
                    span(script@.groups[i]),
                ),
            ranges@.len() == k,
            forall|i: int| 0 <= i < k ==> ranges@[i] == span(script@.groups[i]),
        decreases groups.len() - k,
    {
        proof {
            lemma_groups_view(*groups, k as int);
        }
        let range = DiffRange::new(groups[k].as_slice()).unwrap();
        ranges.push(range);
        k += 1;
    }
    assert(ranges@ =~= ranges_of(script@.groups));
    ranges
}

/// A hunk: its range, and the lines that stand in the range after the
/// change.
pub struct Diff {
    range: DiffRange,
    new_lines: Vec<String>,
}

/// What a `Diff` holds.
pub struct DiffView {
    pub range: DiffRange,
    pub new_lines: Seq<Seq<char>>,
}

impl View for Diff {
    type V = DiffView;

    closed spec fn view(&self) -> DiffView {
        DiffView { range: self.range, new_lines: self.new_lines.deep_view() }
    }
}

impl DeepView for Diff {
    type V = DiffView;

    open spec fn deep_view(&self) -> DiffView {
        self@
    }
}

impl Diff {
    /// The range of the hunk.
    pub fn range(&self) -> (range: DiffRange)
        ensures
            range == self@.range,
    {
        self.range
    }

    /// The lines that the hunk puts in place of its range.
    pub fn new_lines(&self) -> (lines: &Vec<String>)
        ensures
            lines.deep_view() == self@.new_lines,
    {
        &self.new_lines
    }
}

pub type Diffs = Vec<Diff>;

/// The lines that an operation leaves in the text after the change.
pub open spec fn op_lines(op: EditOp, before: Seq<Seq<char>>, after: Seq<Seq<char>>) -> Seq<
    Seq<char>,
> {
    match op.tag {
        Tag::Equal => before.subrange(op.before_start as int, op.before_end as int),
        Tag::Insert | Tag::Replace => after.subrange(op.after_start as int, op.after_end as int),
        Tag::Delete => Seq::empty(),
    }
}

/// The lines that a list of operations leaves in the text after the change.
pub open spec fn new_lines_of(ops: Seq<EditOp>, before: Seq<Seq<char>>, after: Seq<Seq<char>>) -> Seq<
    Seq<char>,
>
    decreases ops.len(),
{
    if ops.len() == 0 {
        Seq::empty()
    } else {
        new_lines_of(ops.drop_last(), before, after) + op_lines(ops.last(), before, after)
    }
}

/// The hunk of a group.
pub open spec fn hunk_of(group: Seq<EditOp>, before: Seq<Seq<char>>, after: Seq<Seq<char>>) -> DiffView {
    DiffView { range: span(group), new_lines: new_lines_of(group, before, after) }
}

/// The hunks of the groups of a script, in their order.
pub open spec fn hunks_of(
    groups: Seq<Seq<EditOp>>,
    before: Seq<Seq<char>>,
    after: Seq<Seq<char>>,
) -> Seq<DiffView> {
    Seq::new(groups.len(), |k: int| hunk_of(groups[k], before, after))
}

/// Appends copies of the lines from `start` up to `end`.
fn push_lines(out: &mut Vec<String>, lines: &Vec<String>, start: usize, end: usize)
    requires
        start <= end <= lines.len(),
    ensures
        final(out).deep_view() == old(out).deep_view() + lines.deep_view().subrange(
            start as int,
            end as int,
        ),
{
    let mut i: usize = start;
    assert(out.deep_view() =~= old(out).deep_view() + lines.deep_view().subrange(
        start as int,
        start as int,
    ));
    while i < end
        invariant
            start <= i <= end <= lines.len(),
            out.deep_view() == old(out).deep_view() + lines.deep_view().subrange(
                start as int,
                i as int,
            ),
        decreases end - i,
    {
        let ghost sofar = *out;
        let line = lines[i].clone();
        out.push(line);
        proof {
            lemma_push_line(sofar, *out, line);
            assert(out.deep_view() =~= old(out).deep_view() + lines.deep_view().subrange(
                start as int,
                i as int + 1,
            ));
        }
        i += 1;
    }
}

/// The lines that a group leaves in the text after the change.
fn group_new_lines(group: &Vec<EditOp>, before: &Vec<String>, after: &Vec<String>) -> (lines: Vec<
    String,
>)
    requires
        group_ok(group@, before.deep_view(), after.deep_view()),
    ensures
        lines.deep_view() == new_lines_of(group@, before.deep_view(), after.deep_view()),
{
    let ghost b = before.deep_view();
    let ghost a = after.deep_view();
    let mut lines: Vec<String> = Vec::new();
    let mut j: usize = 0;
    assert(lines.deep_view() =~= new_lines_of(group@.take(0), b, a));
    while j < group.len()
        invariant
            j <= group.len(),
            b == before.deep_view(),
            a == after.deep_view(),
            group_ok(group@, b, a),
            lines.deep_view() == new_lines_of(group@.take(j as int), b, a),
        decreases group.len() - j,
    {
        let op = &group[j];
        proof {
            let upto = group@.take(j as int + 1);
            assert(upto.drop_last() =~= group@.take(j as int));
            assert(upto.last() == group@[j as int]);
            assert(op_ok(group@[j as int], b, a));
            assert(b.len() == before.len() && a.len() == after.len());
        }
        match op.tag {
            Tag::Equal => {
                push_lines(&mut lines, before, op.before_start, op.before_end);
            },
            Tag::Insert => {
                push_lines(&mut lines, after, op.after_start, op.after_end);
            },
            Tag::Replace => {
                push_lines(&mut lines, after, op.after_start, op.after_end);
            },
            Tag::Delete => {
                assert(lines.deep_view() + Seq::<Seq<char>>::empty() =~= lines.deep_view());
            },
        }
        j += 1;
    }
    assert(group@.take(group.len() as int) =~= group@);
    lines
}

/// The hunks of a script.
pub fn script_hunks(script: &EditScript) -> (hunks: Diffs)
    ensures
        hunks.deep_view() == hunks_of(script@.groups, script@.before, script@.after),
{
    let groups = script.groups();
    let before = script.before();
    let after = script.after();
    proof {
        lemma_script_ranges_cover(script@.groups, script@.before, script@.after);
        lemma_rest_order(script@.groups, 0, 0, 0, script@.before, script@.after);
    }
    let mut hunks: Vec<Diff> = Vec::new();
    let mut k: usize = 0;
    while k < groups.len()
        invariant
            k <= groups.len(),
            groups.deep_view() == script@.groups,
            before.deep_view() == script@.before,
            after.deep_view() == script@.after,
            forall|i: int|
                0 <= i < groups.len() ==> group_range(#[trigger] script@.groups[i]) == Some(
                    span(script@.groups[i]),
                ) && group_ok(script@.groups[i], script@.before, script@.after),
            hunks@.len() == k,
            forall|i: int|
                0 <= i < k ==> (#[trigger] hunks@[i])@ == hunk_of(
                    script@.groups[i],
                    script@.before,
                    script@.after,
                ),
        decreases groups.len() - k,
    {
        proof {
            lemma_groups_view(*groups, k as int);
        }
        let range = DiffRange::new(groups[k].as_slice()).unwrap();
        let new_lines = group_new_lines(&groups[k], before, after);
        hunks.push(Diff { range, new_lines });
        k += 1;
    }
    assert(hunks.deep_view() =~= hunks_of(script@.groups, script@.before, script@.after));
    hunks
}

/// The edit script between two texts with `unified` lines of context: what
/// the aligner reports for their lines, where that is an edit script between
/// them, and the replacement of the whole text where it is not.
pub open spec fn script_for(before: Seq<char>, after: Seq<char>, unified: nat) -> Seq<Seq<EditOp>> {
    accepted(
        grouped_opcodes(lines_of(before), lines_of(after), unified),
        unified,
        lines_of(before),
        lines_of(after),
    )
}

/// The hunks of a script lie in the text before the change, one after the
/// other.
pub proof fn lemma_script_hunks_fit(
    groups: Seq<Seq<EditOp>>,
    before: Seq<Seq<char>>,
    after: Seq<Seq<char>>,
)
    requires
        script_ok(groups, before, after),
    ensures
        fits(hunks_of(groups, before, after), before.len()),
{
    lemma_script_ranges_cover(groups, before, after);
    let ranges = ranges_of(groups);
    let hunks = hunks_of(groups, before, after);
    assert forall|k: int| 0 <= k < hunks.len() implies (#[trigger] hunks[k]).range.before.0
        + hunks[k].range.before.1 <= before.len() by {
        assert(hunks[k].range == ranges[k]);
    }
    assert forall|i: int, j: int| 0 <= i < j < hunks.len() implies (#[trigger] hunks[i]).range.before.0
        + hunks[i].range.before.1 <= (#[trigger] hunks[j]).range.before.0 by {
        assert(hunks[i].range == ranges[i]);
        assert(hunks[j].range == ranges[j]);
    }
}

/// The ranges of the hunks between two texts.
pub trait Picker: Sized {
    /// These are the ranges of the hunks between the two texts.
    spec fn picked_from(&self, unified: nat, before: Seq<char>, after: Seq<char>) -> bool;

    /// Compares the two texts line by line, with `unified` lines of context
    /// around each change.
    fn new(unified: usize, before: &str, after: &str) -> (picked: Self)
        requires
            unified <= usize::MAX / 2,
        ensures
            picked.picked_from(unified as nat, before@, after@),
    ;
}

impl Picker for DiffRanges {
    /// The ranges are those of the script between the texts. They cover the
    /// text before the change, and there is none where the two texts have
    /// the same lines.
    open spec fn picked_from(&self, unified: nat, before: Seq<char>, after: Seq<char>) -> bool {
        &&& grouped_ok(
            script_for(before, after, unified),
            unified,
            lines_of(before),
            lines_of(after),
        )
        &&& self@ == ranges_of(script_for(before, after, unified))
        &&& ranges_cover(self@, lines_of(before).len())
        &&& lines_of(before) == lines_of(after) ==> self@.len() == 0
    }

    fn new(unified: usize, before: &str, after: &str) -> Self {
        let script = align(split_lines(before), split_lines(after), unified);
        script_ranges(&script)
    }
}

/// The hunks between two texts, and the text that a choice of them gives.
pub trait Patchable: Sized {
    /// The hunks lie in the lines of `before`, one after the other.
    spec fn applies_to(&self, before: Seq<char>) -> bool;

    /// The text that `before` becomes when the selected hunks are applied.
    spec fn patch_of(&self, selected: Set<DiffRange>, before: Seq<char>) -> Seq<char>;

    /// These are the hunks between the two texts.
    spec fn made_from(&self, unified: nat, before: Seq<char>, after: Seq<char>) -> bool;

    /// Compares the two texts line by line, with `unified` lines of context
    /// around each change.
    fn new(unified: usize, before: &str, after: &str) -> (made: Self)
        requires
            unified <= usize::MAX / 2,
        ensures
            made.made_from(unified as nat, before@, after@),
    ;

    /// Applies the hunks that `ranges` holds to `before` and leaves the
    /// lines of the others as they are. Every line of the result ends with
    /// a newline.
    fn patch(&self, ranges: &Selection, before: &str) -> (text: String)
        requires
            self.applies_to(before@),
        ensures
            text@ == self.patch_of(ranges@, before@),
    ;
}

impl Patchable for Diffs {
    open spec fn applies_to(&self, before: Seq<char>) -> bool {
        fits(self.deep_view(), lines_of(before).len())
    }

    open spec fn patch_of(&self, selected: Set<DiffRange>, before: Seq<char>) -> Seq<char> {
        patched_lines(self.deep_view(), selected, lines_of(before))
    }

    /// The hunks are those of the script between the texts. They lie in
    /// the text before the change, and there is none where the two texts
    /// have the same lines.
    open spec fn made_from(&self, unified: nat, before: Seq<char>, after: Seq<char>) -> bool {
        &&& grouped_ok(
            script_for(before, after, unified),
            unified,
            lines_of(before),
            lines_of(after),
        )
        &&& self.deep_view() == hunks_of(
            script_for(before, after, unified),
            lines_of(before),
            lines_of(after),
        )
        &&& self.applies_to(before)
        &&& lines_of(before) == lines_of(after) ==> self@.len() == 0
    }

    fn new(unified: usize, before: &str, after: &str) -> Self {
        let script = align(split_lines(before), split_lines(after), unified);
        let hunks = script_hunks(&script);
        proof {
            lemma_script_hunks_fit(script@.groups, script@.before, script@.after);
            assert(hunks.deep_view().len() == hunks@.len());
        }
        hunks
    }

    fn patch(&self, ranges: &Selection, before: &str) -> String {
        let lines = split_lines(before);
        assert(lines.deep_view().len() == lines.len());
        apply_hunks(self, ranges, &lines)
    }
}

/// Writes the unified diff between two texts under `name`, with `unified`
/// lines of context around each change. With a selection only the hunks
/// that it holds are written.
pub fn udiff(ranges: Option<&Selection>, unified: usize, name: &str, before: &str, after: &str) -> (text:
    String)
    requires
        unified <= usize::MAX / 2,
    ensures
        grouped_ok(
            script_for(before@, after@, unified as nat),
            unified as nat,
            lines_of(before@),
            lines_of(after@),
        ),
        text@ == document(
            script_for(before@, after@, unified as nat),
            chosen(ranges),
            name@,
            lines_of(before@),
            lines_of(after@),
        ),
        lines_of(before@) == lines_of(after@) ==> text@ == title(name@),
{
    let script = align(split_lines(before), split_lines(after), unified);
    render(&script, ranges, name)
}

} // verus!
