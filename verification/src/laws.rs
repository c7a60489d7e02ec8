//! What holds of picking, patching and rendering together, and of the
//! workers and the broadcaster of a run.

use crate::abort::{lemma_reports_are_kept, AbortView};
use crate::exit::{exit_of, Exit, EXIT_FAILURE, EXIT_INTERRUPT, EXIT_SUCCESS};
use crate::patch::{lemma_new_lines, lemma_patched_all, lemma_patched_none};
use crate::render::{document, groups_text, title};
use crate::script::{lemma_group_span, lemma_rest_order};
use crate::text::{join_lines, lemma_join_of_lines, lines_of, newline_terminated};
use crate::types::Fail;
use crate::udiff::{
    ranges_cover, script_for, span, DiffRange, DiffRanges, Diffs, Patchable, Picker,
};
use crate::worker::{Action, Event, Stop, Worker};
use vstd::prelude::*;

verus! {

/// Patching with a selection that holds the range of no hunk, such as the
/// empty one, gives back the lines of the text before the change, each
/// ended by a newline. That is the text itself where its every line ends
/// with a newline alone.
pub proof fn law_patch_nothing(
    unified: nat,
    before: Seq<char>,
    after: Seq<char>,
    hunks: Diffs,
    selected: Set<DiffRange>,
)
    requires
        hunks.made_from(unified, before, after),
        forall|k: int|
            0 <= k < hunks.deep_view().len() ==> !selected.contains(
                (#[trigger] hunks.deep_view()[k]).range,
            ),
    ensures
        hunks.patch_of(selected, before) == join_lines(lines_of(before)),
        newline_terminated(before) ==> hunks.patch_of(selected, before) == before,
{
    let lines = lines_of(before);
    lemma_patched_none(hunks.deep_view(), 0, 0, selected, lines);
    assert(lines.subrange(0, lines.len() as int) =~= lines);
    if newline_terminated(before) {
        lemma_join_of_lines(before);
    }
}

/// Patching with every hunk selected gives the lines of the text after the
/// change, each ended by a newline. That is the text itself where its every
/// line ends with a newline alone.
pub proof fn law_patch_everything(
    unified: nat,
    before: Seq<char>,
    after: Seq<char>,
    hunks: Diffs,
    ranges: DiffRanges,
    selected: Set<DiffRange>,
)
    requires
        hunks.made_from(unified, before, after),
        ranges.picked_from(unified, before, after),
        forall|k: int| 0 <= k < ranges@.len() ==> selected.contains(#[trigger] ranges@[k]),
    ensures
        hunks.patch_of(selected, before) == join_lines(lines_of(after)),
        newline_terminated(after) ==> hunks.patch_of(selected, before) == after,
{
    let groups = script_for(before, after, unified);
    let old_lines = lines_of(before);
    let new_lines = lines_of(after);
    assert forall|j: int| 0 <= j < groups.len() implies selected.contains(#[trigger] span(groups[j])) by {
        assert(ranges@[j] == span(groups[j]));
    }
    lemma_patched_all(groups, 0, 0, 0, selected, old_lines, new_lines);
    assert(new_lines.subrange(0, new_lines.len() as int) =~= new_lines);
    if newline_terminated(after) {
        lemma_join_of_lines(after);
    }
}

/// The hunks between two texts and the ranges picked between them answer
/// one another: the range of each hunk is the picked range at its place, so
/// that a picked range selects its hunk.
pub proof fn law_hunks_have_picked_ranges(
    unified: nat,
    before: Seq<char>,
    after: Seq<char>,
    hunks: Diffs,
    ranges: DiffRanges,
)
    requires
        hunks.made_from(unified, before, after),
        ranges.picked_from(unified, before, after),
    ensures
        hunks.deep_view().len() == ranges@.len(),
        forall|k: int| 0 <= k < ranges@.len() ==> (#[trigger] hunks.deep_view()[k]).range == ranges@[k],
        forall|i: int, j: int| 0 <= i < j < ranges@.len() ==> ranges@[i] != ranges@[j],
{
    assert forall|i: int, j: int| 0 <= i < j < ranges@.len() implies ranges@[i] != ranges@[j] by {
        assert(ranges@[i].before.0 < ranges@[j].before.0);
    }
}

/// Each hunk between two texts holds the lines that the text after the
/// change has in the hunk's range.
pub proof fn law_hunks_hold_the_new_lines(
    unified: nat,
    before: Seq<char>,
    after: Seq<char>,
    hunks: Diffs,
    k: int,
)
    requires
        hunks.made_from(unified, before, after),
        0 <= k < hunks.deep_view().len(),
    ensures
        hunks.deep_view()[k].range.after.0 + hunks.deep_view()[k].range.after.1 <= lines_of(
            after,
        ).len(),
        hunks.deep_view()[k].new_lines == lines_of(after).subrange(
            hunks.deep_view()[k].range.after.0 as int,
            hunks.deep_view()[k].range.after.0 + hunks.deep_view()[k].range.after.1,
        ),
{
    let groups = script_for(before, after, unified);
    lemma_rest_order(groups, 0, 0, 0, lines_of(before), lines_of(after));
    lemma_new_lines(groups[k], lines_of(before), lines_of(after));
    lemma_group_span(groups[k], lines_of(before), lines_of(after), 0);
}

/// The hunks between two texts come in the order of the text: each lies
/// inside the text before the change and, with its range after the change,
/// inside the text after it; a later hunk begins after an earlier one, and
/// after the earlier one ends, on both sides.
pub proof fn law_hunks_in_order(unified: nat, before: Seq<char>, after: Seq<char>, hunks: Diffs)
    requires
        hunks.made_from(unified, before, after),
    ensures
        forall|k: int|
            0 <= k < hunks.deep_view().len() ==> (#[trigger] hunks.deep_view()[k]).range.before.0
                + hunks.deep_view()[k].range.before.1 <= lines_of(before).len()
                && hunks.deep_view()[k].range.after.0 + hunks.deep_view()[k].range.after.1
                <= lines_of(after).len(),
        forall|i: int, j: int|
            0 <= i < j < hunks.deep_view().len() ==> {
                let first = (#[trigger] hunks.deep_view()[i]).range;
                let second = (#[trigger] hunks.deep_view()[j]).range;
                &&& first.before.0 < second.before.0
                &&& first.before.0 + first.before.1 <= second.before.0
                &&& first.after.0 + first.after.1 <= second.after.0
            },
{
    let groups = script_for(before, after, unified);
    let old_lines = lines_of(before);
    let new_lines = lines_of(after);
    let views = hunks.deep_view();
    lemma_rest_order(groups, 0, 0, 0, old_lines, new_lines);
    assert forall|k: int| 0 <= k < views.len() implies (#[trigger] views[k]).range.before.0
        + views[k].range.before.1 <= old_lines.len() && views[k].range.after.0
        + views[k].range.after.1 <= new_lines.len() by {
        lemma_group_span(groups[k], old_lines, new_lines, 0);
    }
    assert forall|i: int, j: int| 0 <= i < j < views.len() implies {
        let first = (#[trigger] views[i]).range;
        let second = (#[trigger] views[j]).range;
        &&& first.before.0 < second.before.0
        &&& first.before.0 + first.before.1 <= second.before.0
        &&& first.after.0 + first.after.1 <= second.after.0
    } by {
        lemma_group_span(groups[i], old_lines, new_lines, 0);
        lemma_group_span(groups[j], old_lines, new_lines, 0);
    }
}

/// The ranges picked between two texts lie inside the text before the
/// change, begin one after the other and do not overlap.
pub proof fn law_ranges_cover(unified: nat, before: Seq<char>, after: Seq<char>, ranges: DiffRanges)
    requires
        ranges.picked_from(unified, before, after),
    ensures
        ranges_cover(ranges@, lines_of(before).len()),
{
}

/// Between two texts with the same lines nothing is picked, there is no
/// hunk, and the document is its three heading lines.
pub proof fn law_same_lines_no_hunks(
    unified: nat,
    before: Seq<char>,
    after: Seq<char>,
    hunks: Diffs,
    ranges: DiffRanges,
    selection: Option<Set<DiffRange>>,
    name: Seq<char>,
)
    requires
        lines_of(before) == lines_of(after),
        hunks.made_from(unified, before, after),
        ranges.picked_from(unified, before, after),
    ensures
        ranges@.len() == 0,
        hunks@.len() == 0,
        document(
            script_for(before, after, unified),
            selection,
            name,
            lines_of(before),
            lines_of(after),
        ) == title(name),
{
    let groups = script_for(before, after, unified);
    assert(groups.len() == 0);
    assert(title(name) + groups_text(groups, selection, lines_of(before), lines_of(after))
        =~= title(name));
}

/// When a running worker meets a failed transformation it reports that
/// failure and stops, and the report aborts the run. Every worker that then
/// meets the abort signal stops at that step, whatever it was doing, and
/// asks for nothing more: it neither takes a payload nor forwards a result.
/// The broadcaster holds the failure once more than before.
pub proof fn law_abort_propagation<P, O>(
    start: AbortView,
    workers: Seq<Worker>,
    failing: int,
    fail: Fail,
)
    requires
        0 <= failing < workers.len(),
        workers[failing] == Worker::Running,
    ensures
        workers[failing].after(Event::<P, O>::Failed(fail)) == (
            Worker::Stopped(Stop::Failure),
            Action::<P, O>::Report(fail),
        ),
        start.report(fail).aborted,
        forall|j: int|
            0 <= j < workers.len() ==> (#[trigger] workers[j]).after(Event::<P, O>::Abort).0.stopped()
                && workers[j].after(Event::<P, O>::Abort).1 == Action::<P, O>::Stop,
        start.report(fail).failures == start.failures.push(fail),
        start.report(fail).failures.to_multiset().count(fail) == start.failures.to_multiset().count(
            fail,
        ) + 1,
{
    start.failures.to_multiset_ensures();
}

/// A stopped worker stays as it is and never transforms, forwards or waits
/// again; the one thing it still does is to report a failure that reaches
/// it.
pub proof fn law_stopped_is_final<P, O>(worker: Worker, event: Event<P, O>)
    requires
        worker.stopped(),
    ensures
        worker.after(event).0 == worker,
        worker.after(event).1 is Stop || worker.after(event).1 is Report,
        event is Failed ==> worker.after(event).1 == Action::<P, O>::Report(event->Failed_0),
{
}

/// A worker reports exactly when a transformation failed, and it reports
/// that very failure: no failure is dropped, and no other way of stopping
/// makes a report.
pub proof fn law_only_failures_are_reported<P, O>(worker: Worker, event: Event<P, O>)
    ensures
        worker.after(event).1 is Report <==> event is Failed,
        event is Failed ==> worker.after(event).1 == Action::<P, O>::Report(event->Failed_0),
{
}

/// An aborted run stays aborted: neither a report nor a drain makes the
/// broadcaster active again.
pub proof fn law_abort_is_final(state: AbortView, fail: Fail)
    ensures
        state.report(fail).aborted,
        state.aborted ==> state.drain().aborted,
{
}

/// What a drain hands out after the reports of a run is the list of those
/// reports, in their order: each failure as often as it was reported. After
/// the drain the broadcaster holds none.
pub proof fn law_drain_returns_reports(fails: Seq<Fail>)
    ensures
        AbortView::fresh().report_all(fails).failures == fails,
        AbortView::fresh().report_all(fails).aborted == (fails.len() > 0),
        AbortView::fresh().report_all(fails).drain().failures.len() == 0,
{
    lemma_reports_are_kept(AbortView::fresh(), fails);
    assert(Seq::<Fail>::empty() + fails =~= fails);
}

/// A run whose one failure is an interrupt ends with the reserved status,
/// which is neither that of success nor that of failure.
pub proof fn law_interrupt_is_special(failures: Seq<Fail>)
    requires
        failures.len() == 1,
        failures[0] is Interrupt,
    ensures
        exit_of(failures) == Exit::Interrupted,
        exit_of(failures).status() == EXIT_INTERRUPT,
        EXIT_INTERRUPT != EXIT_FAILURE,
        EXIT_INTERRUPT != EXIT_SUCCESS,
{
}

} // verus!
