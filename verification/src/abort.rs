//! The abort broadcaster of a run: whether the run is aborted, and the
//! failures that were reported to it.

use crate::types::Fail;
use vstd::prelude::*;

verus! {

/// The broadcaster of one run. It is active until the first failure is
/// reported and aborted from then on.
pub struct Abort {
    aborted: bool,
    failures: Vec<Fail>,
}

/// What a broadcaster holds: whether the run is aborted, and the failures
/// reported since the last drain, in the order of their reports.
pub struct AbortView {
    pub aborted: bool,
    pub failures: Seq<Fail>,
}

impl AbortView {
    /// The broadcaster at the start of a run.
    pub open spec fn fresh() -> AbortView {
        AbortView { aborted: false, failures: Seq::empty() }
    }

    /// The broadcaster after one more report.
    pub open spec fn report(self, fail: Fail) -> AbortView {
        AbortView { aborted: true, failures: self.failures.push(fail) }
    }

    /// The broadcaster after a drain: it stays as aborted as it was.
    pub open spec fn drain(self) -> AbortView {
        AbortView { aborted: self.aborted, failures: Seq::empty() }
    }

    /// The broadcaster after a list of reports, one after the other.
    pub open spec fn report_all(self, fails: Seq<Fail>) -> AbortView
        decreases fails.len(),
    {
        if fails.len() == 0 {
            self
        } else {
            self.report_all(fails.drop_last()).report(fails.last())
        }
    }
}

impl View for Abort {
    type V = AbortView;

    closed spec fn view(&self) -> AbortView {
        AbortView { aborted: self.aborted, failures: self.failures@ }
    }
}

impl Abort {
    /// The broadcaster of a run that begins.
    pub fn new() -> (abort: Abort)
        ensures
            abort@ == AbortView::fresh(),
    {
        Abort { aborted: false, failures: Vec::new() }
    }

    /// Takes a failure and aborts the run. The result tells whether this
    /// report was the one that aborted it, so that the waiters are woken
    /// once.
    pub fn report(&mut self, fail: Fail) -> (first: bool)
        ensures
            final(self)@ == old(self)@.report(fail),
            first == !old(self)@.aborted,
    {
        let first = !self.aborted;
        self.failures.push(fail);
        self.aborted = true;
        first
    }

    /// Whether the run is aborted: a waiter goes on at once where it is.
    pub fn is_aborted(&self) -> (aborted: bool)
        ensures
            aborted == self@.aborted,
    {
        self.aborted
    }

    /// Hands out every failure reported so far, in the order of the
    /// reports, and keeps none.
    pub fn drain(&mut self) -> (failures: Vec<Fail>)
        ensures
            failures@ == old(self)@.failures,
            final(self)@ == old(self)@.drain(),
    {
        let mut failures: Vec<Fail> = Vec::new();
        std::mem::swap(&mut self.failures, &mut failures);
        failures
    }
}

/// Every report is kept, once and in its place, and any report aborts.
pub proof fn lemma_reports_are_kept(start: AbortView, fails: Seq<Fail>)
    ensures
        start.report_all(fails).failures == start.failures + fails,
        start.report_all(fails).aborted == (start.aborted || fails.len() > 0),
    decreases fails.len(),
{
    if fails.len() == 0 {
        assert(start.failures + fails =~= start.failures);
    } else {
        lemma_reports_are_kept(start, fails.drop_last());
        assert(start.failures + fails =~= (start.failures + fails.drop_last()).push(fails.last()));
    }
}

} // verus!
