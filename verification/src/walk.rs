//! Work that is done step by step, each step once the one before it has succeeded.

use vstd::prelude::*;

verus! {

/// What came of a step: it succeeded, it succeeded and told something, or it failed.
#[derive(Debug, Clone, PartialEq, Eq)]
pub enum Report<T, E> {
    Done,
    Told(T),
    Failed(E),
}

/// Where a report leads: to the next step, or to the end.
#[derive(Debug, Clone, PartialEq, Eq)]
pub enum Progress<R, O, E> {
    Next(R),
    Finished(O),
    Failed(E),
}

/// Work with its steps in a fixed order, standing before one of them.
pub trait Stepwise: Sized {
    type Step;

    type Told;

    type Outcome;

    type Error;

    /// What holds of the work whenever it stands before a step.
    spec fn valid(self) -> bool;

    /// The steps in their order.
    spec fn steps(self) -> Seq<Self::Step>;

    /// How many steps were taken.
    spec fn taken(self) -> nat;

    /// Whether the step that is next tells something when it succeeds.
    spec fn tells(self) -> bool;

    /// Where the report of the step that is next leads.
    spec fn advanced(self, report: Report<Self::Told, Self::Error>) -> Progress<
        Self,
        Self::Outcome,
        Self::Error,
    >;

    /// A failure is the end, and is handed on as it is.
    proof fn lemma_failure_ends(self, error: Self::Error)
        ensures
            self.advanced(Report::Failed(error)) == Progress::<
                Self,
                Self::Outcome,
                Self::Error,
            >::Failed(error),
    ;

    /// A success leads to the next step, or to the end after the last one.
    proof fn lemma_success_goes_on(self, report: Report<Self::Told, Self::Error>)
        requires
            self.valid(),
            !(report is Failed),
        ensures
            self.taken() < self.steps().len(),
            match self.advanced(report) {
                Progress::Next(next) => {
                    &&& next.valid()
                    &&& next.steps() == self.steps()
                    &&& next.taken() == self.taken() + 1
                    &&& next.taken() < next.steps().len()
                },
                Progress::Finished(_) => self.taken() + 1 == self.steps().len(),
                Progress::Failed(_) => false,
            },
    ;
}

/// Whether a report can be that of the step that is next.
pub open spec fn fits<R: Stepwise>(run: R, report: Report<R::Told, R::Error>) -> bool {
    report is Failed || (report is Told) == run.tells()
}

/// Where reports lead, one after the other. What comes after the end changes nothing.
pub open spec fn walked<R: Stepwise>(run: R, reports: Seq<Report<R::Told, R::Error>>) -> Progress<
    R,
    R::Outcome,
    R::Error,
>
    decreases reports.len(),
{
    if reports.len() == 0 {
        Progress::Next(run)
    } else {
        match walked(run, reports.drop_last()) {
            Progress::Next(next) => next.advanced(reports.last()),
            over => over,
        }
    }
}

/// What leads on from a value leads on from its contents.
pub open spec fn progress_view<R: View, O, E>(progress: Progress<R, O, E>) -> Progress<R::V, O, E> {
    match progress {
        Progress::Next(run) => Progress::Next(run@),
        Progress::Finished(outcome) => Progress::Finished(outcome),
        Progress::Failed(error) => Progress::Failed(error),
    }
}

/// The steps are taken in their order: after as many successes as there are steps before it, and
/// no failure, a step is next.
pub proof fn law_steps_are_taken_in_order<R: Stepwise>(
    run: R,
    reports: Seq<Report<R::Told, R::Error>>,
)
    requires
        run.valid(),
        run.taken() == 0,
        reports.len() < run.steps().len(),
        forall|i: int| 0 <= i < reports.len() ==> !(#[trigger] reports[i] is Failed),
    ensures
        walked(run, reports) matches Progress::Next(next) && next.valid() && next.steps()
            == run.steps() && next.taken() == reports.len(),
    decreases reports.len(),
{
    if reports.len() > 0 {
        let before = reports.drop_last();
        law_steps_are_taken_in_order(run, before);
        let next = walked(run, before)->Next_0;
        assert(reports[reports.len() - 1] == reports.last());
        next.lemma_success_goes_on(reports.last());
    }
}

/// The work is finished once every step has succeeded.
pub proof fn law_finished_after_every_step<R: Stepwise>(
    run: R,
    reports: Seq<Report<R::Told, R::Error>>,
)
    requires
        run.valid(),
        run.taken() == 0,
        run.steps().len() > 0,
        reports.len() >= run.steps().len(),
        forall|i: int| 0 <= i < run.steps().len() ==> !(#[trigger] reports[i] is Failed),
    ensures
        walked(run, reports) is Finished,
    decreases reports.len(),
{
    let before = reports.drop_last();
    if reports.len() == run.steps().len() {
        law_steps_are_taken_in_order(run, before);
        assert(reports[reports.len() - 1] == reports.last());
        walked(run, before)->Next_0.lemma_success_goes_on(reports.last());
    } else {
        law_finished_after_every_step(run, before);
    }
}

/// The first failure ends the work with its error: no step is taken after it.
pub proof fn law_the_first_failure_ends<R: Stepwise>(
    run: R,
    reports: Seq<Report<R::Told, R::Error>>,
    at: int,
)
    requires
        run.valid(),
        run.taken() == 0,
        0 <= at < run.steps().len(),
        at < reports.len(),
        forall|i: int| 0 <= i < at ==> !(#[trigger] reports[i] is Failed),
        reports[at] is Failed,
    ensures
        walked(run, reports) == Progress::<R, R::Outcome, R::Error>::Failed(reports[at]->Failed_0),
    decreases reports.len(),
{
    let before = reports.drop_last();
    if reports.len() == at + 1 {
        law_steps_are_taken_in_order(run, before);
        walked(run, before)->Next_0.lemma_failure_ends(reports[at]->Failed_0);
    } else {
        law_the_first_failure_ends(run, before, at);
    }
}

/// Nothing is finished before every step has succeeded.
pub proof fn law_finished_only_after_every_step<R: Stepwise>(
    run: R,
    reports: Seq<Report<R::Told, R::Error>>,
)
    requires
        run.valid(),
        run.taken() == 0,
        run.steps().len() > 0,
        walked(run, reports) is Finished,
    ensures
        reports.len() >= run.steps().len(),
        forall|i: int| 0 <= i < run.steps().len() ==> !(#[trigger] reports[i] is Failed),
{
    if exists|i: int| 0 <= i < run.steps().len() && i < reports.len() && reports[i] is Failed {
        let k = choose|i: int|
            0 <= i < run.steps().len() && i < reports.len() && reports[i] is Failed;
        lemma_earliest_failure(run, reports, k);
    } else if reports.len() < run.steps().len() {
        law_steps_are_taken_in_order(run, reports);
    }
}

/// A failure within the steps is the end, or an earlier one is.
proof fn lemma_earliest_failure<R: Stepwise>(
    run: R,
    reports: Seq<Report<R::Told, R::Error>>,
    at: int,
)
    requires
        run.valid(),
        run.taken() == 0,
        0 <= at < run.steps().len(),
        at < reports.len(),
        reports[at] is Failed,
    ensures
        walked(run, reports) is Failed,
    decreases at,
{
    if exists|i: int| 0 <= i < at && #[trigger] reports[i] is Failed {
        let k = choose|i: int| 0 <= i < at && #[trigger] reports[i] is Failed;
        lemma_earliest_failure(run, reports, k);
    } else {
        law_the_first_failure_ends(run, reports, at);
    }
}

} // verus!
