//! What an agent decides: which states it applies, what it remembers and what it answers.

use std::collections::BTreeMap;

use vstd::prelude::*;
use vstd::string::*;

use crate::ids::{uuid_text, uuid_to_text, Uuid};
use crate::rows::opt_str;
use crate::sets::{get_for_id, put_for_id};
use crate::state::{canonical, DesiredGatewayState, StateView};
use crate::text::{chars_of, decimal, decimal_text, same_text, slice_text, starts_with};
use crate::walk::{fits, progress_view, walked, Progress, Report, Stepwise};

verus! {

/// What a gateway was seen to be.
#[derive(Debug, Clone, PartialEq, Eq)]
pub struct ObservedGateway {
    pub gateway_id: Uuid,
    pub public_key: String,
    pub listen_port: u16,
    pub actual_state_hash: String,
    pub backend_version: String,
}

/// What an apply brought about.
#[derive(Debug, Clone, PartialEq, Eq)]
pub struct ApplyOutcome {
    pub revision: u64,
    pub actual_state_hash: String,
}

/// Backend connection material delivered inside the authenticated TLS stream. It is
/// deliberately separate from `DesiredGatewayState` so reconciliation caches never persist
/// credentials.
#[derive(Clone)]
pub struct GatewayCredential {
    pub backend: String,
    pub base_url: String,
    pub username: String,
    pub password: String,
    pub ca_certificate_pem: String,
}

/// Why a backend did not do what it was asked.
#[derive(Debug, Clone, PartialEq, Eq)]
pub enum DriverError {
    Invalid(String),
    Unavailable(String),
    Apply(String),
}

impl DriverError {
    /// Whether another attempt may succeed.
    pub fn retryable(&self) -> (r: bool)
        ensures
            r == (self is Unavailable),
    {
        match self {
            DriverError::Unavailable(_) => true,
            _ => false,
        }
    }

    /// What the error says.
    pub open spec fn text(self) -> Seq<char> {
        match self {
            DriverError::Invalid(m) => "invalid desired state: "@ + m@,
            DriverError::Unavailable(m) => "backend unavailable: "@ + m@,
            DriverError::Apply(m) => "backend apply failed: "@ + m@,
        }
    }

    /// What the error says.
    pub fn message(&self) -> (r: String)
        ensures
            r@ == self.text(),
    {
        match self {
            DriverError::Invalid(m) => String::from_str("invalid desired state: ").concat(
                m.as_str(),
            ),
            DriverError::Unavailable(m) => String::from_str("backend unavailable: ").concat(
                m.as_str(),
            ),
            DriverError::Apply(m) => String::from_str("backend apply failed: ").concat(m.as_str()),
        }
    }
}

/// Why a state was not brought about.
#[derive(Debug, Clone, PartialEq, Eq)]
pub enum ReconcileError {
    Driver(DriverError),
    StaleRevision { incoming: u64, current: u64 },
    Cache(String),
    Encode(String),
}

impl ReconcileError {
    /// What the error says.
    pub open spec fn text(self) -> Seq<char> {
        match self {
            ReconcileError::Driver(e) => e.text(),
            ReconcileError::StaleRevision { incoming, current } => "refusing stale revision "@
                + decimal(incoming as nat) + "; current revision is "@ + decimal(current as nat),
            ReconcileError::Cache(m) => "failed to persist desired-state cache: "@ + m@,
            ReconcileError::Encode(m) => "failed to encode desired-state cache: "@ + m@,
        }
    }

    /// What the error says.
    pub fn message(&self) -> (r: String)
        ensures
            r@ == self.text(),
    {
        match self {
            ReconcileError::Driver(e) => e.message(),
            ReconcileError::StaleRevision { incoming, current } => {
                let mut out = String::from_str("refusing stale revision ");
                out.append(decimal_text(*incoming).as_str());
                out.append("; current revision is ");
                out.append(decimal_text(*current).as_str());
                out
            },
            ReconcileError::Cache(m) => String::from_str(
                "failed to persist desired-state cache: ",
            ).concat(m.as_str()),
            ReconcileError::Encode(m) => String::from_str(
                "failed to encode desired-state cache: ",
            ).concat(m.as_str()),
        }
    }

    /// The word by which the controller tells errors apart.
    pub open spec fn code_text(self) -> Seq<char> {
        match self {
            ReconcileError::StaleRevision { .. } => "stale_revision"@,
            ReconcileError::Driver(_) => "backend_error"@,
            ReconcileError::Cache(_) => "cache_error"@,
            ReconcileError::Encode(_) => "cache_error"@,
        }
    }

    /// Whether another attempt may succeed.
    pub open spec fn may_succeed_later(self) -> bool {
        self matches ReconcileError::Driver(e) && e is Unavailable
    }
}

/// What an agent remembers of its gateways: the revision that each was brought to, and the
/// digest of what it then was.
pub struct Reconciler {
    revisions: BTreeMap<Uuid, u64>,
    hashes: BTreeMap<Uuid, String>,
}

/// The contents of a [`Reconciler`].
#[verifier::ext_equal]
pub struct MemoryView {
    pub revisions: Map<Uuid, u64>,
    pub hashes: Map<Uuid, Seq<char>>,
}

impl View for Reconciler {
    type V = MemoryView;

    closed spec fn view(&self) -> MemoryView {
        MemoryView {
            revisions: self.revisions@,
            hashes: self.hashes@.map_values(|s: String| s@),
        }
    }
}

impl MemoryView {
    /// The revision of a gateway; zero before the first.
    pub open spec fn current(self, gateway_id: Uuid) -> u64 {
        if self.revisions.contains_key(gateway_id) {
            self.revisions[gateway_id]
        } else {
            0
        }
    }

    /// What is remembered once a gateway was brought to a revision.
    pub open spec fn brought(self, gateway_id: Uuid, revision: u64, hash: Seq<char>) -> MemoryView {
        MemoryView {
            revisions: self.revisions.insert(gateway_id, revision),
            hashes: self.hashes.insert(gateway_id, hash),
        }
    }

    /// Whether a gateway has to be reconciled: it could not be observed, or its digest is not
    /// the one that the last apply left.
    pub open spec fn is_drifted(self, gateway_id: Uuid, observed: Option<Seq<char>>) -> bool {
        !(observed is Some && self.hashes.contains_key(gateway_id) && self.hashes[gateway_id]
            == observed->0)
    }
}

/// What has to happen in bringing about a state.
#[derive(Debug, Clone, Copy, PartialEq, Eq, Structural)]
pub enum ApplyStep {
    Validate,
    Apply,
    Flush,
    Persist,
}

/// A state that is being brought about, and the step that is next.
pub struct ApplyRun {
    desired: DesiredGatewayState,
    step: ApplyStep,
    outcome: ApplyOutcome,
}

/// The contents of an [`ApplyRun`]. The outcome is that of the apply, once it has been done.
pub struct ApplyView {
    pub desired: StateView,
    pub step: ApplyStep,
    pub outcome: ApplyOutcome,
}

impl View for ApplyRun {
    type V = ApplyView;

    closed spec fn view(&self) -> ApplyView {
        ApplyView { desired: self.desired@, step: self.step, outcome: self.outcome }
    }
}

impl ApplyView {
    /// Whether there are connections to flush.
    pub open spec fn flushes(self) -> bool {
        self.desired.terminate_sources.len() > 0
    }

    /// The same state, before another step.
    pub open spec fn before(self, step: ApplyStep, outcome: ApplyOutcome) -> ApplyView {
        ApplyView { desired: self.desired, step, outcome }
    }
}

impl Stepwise for ApplyView {
    type Step = ApplyStep;

    type Told = ApplyOutcome;

    type Outcome = ApplyOutcome;

    type Error = ReconcileError;

    open spec fn valid(self) -> bool {
        self.step == ApplyStep::Flush ==> self.flushes()
    }

    /// The state is validated, applied and persisted. Connections are flushed before it is
    /// persisted, where there are sources to terminate.
    open spec fn steps(self) -> Seq<ApplyStep> {
        if self.flushes() {
            seq![ApplyStep::Validate, ApplyStep::Apply, ApplyStep::Flush, ApplyStep::Persist]
        } else {
            seq![ApplyStep::Validate, ApplyStep::Apply, ApplyStep::Persist]
        }
    }

    open spec fn taken(self) -> nat {
        match self.step {
            ApplyStep::Validate => 0,
            ApplyStep::Apply => 1,
            ApplyStep::Flush => 2,
            ApplyStep::Persist => if self.flushes() {
                3
            } else {
                2
            },
        }
    }

    open spec fn tells(self) -> bool {
        self.step == ApplyStep::Apply
    }

    open spec fn advanced(self, report: Report<ApplyOutcome, ReconcileError>) -> Progress<
        ApplyView,
        ApplyOutcome,
        ReconcileError,
    > {
        let outcome = match report {
            Report::Told(outcome) => outcome,
            _ => self.outcome,
        };
        match report {
            Report::Failed(error) => Progress::Failed(error),
            _ => match self.step {
                ApplyStep::Validate => Progress::Next(self.before(ApplyStep::Apply, outcome)),
                ApplyStep::Apply => if self.flushes() {
                    Progress::Next(self.before(ApplyStep::Flush, outcome))
                } else {
                    Progress::Next(self.before(ApplyStep::Persist, outcome))
                },
                ApplyStep::Flush => Progress::Next(self.before(ApplyStep::Persist, outcome)),
                ApplyStep::Persist => Progress::Finished(outcome),
            },
        }
    }

    proof fn lemma_failure_ends(self, error: ReconcileError) {
    }

    proof fn lemma_success_goes_on(self, report: Report<ApplyOutcome, ReconcileError>) {
    }
}

impl ApplyRun {
    /// The state that is being brought about.
    pub fn desired(&self) -> (r: &DesiredGatewayState)
        ensures
            r@ == self@.desired,
    {
        &self.desired
    }

    /// The step that is next.
    pub fn step(&self) -> (r: ApplyStep)
        ensures
            r == self@.step,
    {
        self.step
    }
}

impl Reconciler {
    /// An agent that remembers nothing.
    pub fn new() -> (r: Self)
        ensures
            r@.revisions == Map::<Uuid, u64>::empty(),
            r@.hashes == Map::<Uuid, Seq<char>>::empty(),
    {
        let r = Reconciler { revisions: BTreeMap::new(), hashes: BTreeMap::new() };
        assert(r@.hashes =~= Map::<Uuid, Seq<char>>::empty());
        r
    }

    /// Begins to bring about a state, in canonical order. It must not be older than what the
    /// gateway was brought to.
    pub fn begin(&self, desired: DesiredGatewayState) -> (r: Result<ApplyRun, ReconcileError>)
        ensures
            r is Ok <==> desired.revision >= self@.current(desired.gateway_id),
            r matches Ok(run) ==> run@.desired == canonical(desired@) && run@.step
                == ApplyStep::Validate && run@.valid() && run@.taken() == 0,
            r matches Err(error) ==> error == (ReconcileError::StaleRevision {
                incoming: desired.revision,
                current: self@.current(desired.gateway_id),
            }),
    {
        let mut desired = desired;
        desired.canonicalize();
        let current = match get_for_id(&self.revisions, desired.gateway_id) {
            Some(revision) => *revision,
            None => 0,
        };
        if desired.revision < current {
            return Err(
                ReconcileError::StaleRevision { incoming: desired.revision, current },
            );
        }
        let outcome = ApplyOutcome {
            revision: desired.revision,
            actual_state_hash: String::from_str(""),
        };
        Ok(ApplyRun { desired, step: ApplyStep::Validate, outcome })
    }

    /// Goes on with what the step that was next has come to. The first failure is the end.
    /// Nothing is remembered before the last step has succeeded.
    pub fn advance(&mut self, run: ApplyRun, report: Report<ApplyOutcome, ReconcileError>) -> (r:
        Progress<ApplyRun, ApplyOutcome, ReconcileError>)
        requires
            fits(run@, report),
        ensures
            progress_view(r) == run@.advanced(report),
            final(self)@ == remembered(old(self)@, run@, run@.advanced(report)),
    {
        let ApplyRun { desired, step, outcome } = run;
        let outcome = match report {
            Report::Done => outcome,
            Report::Told(outcome) => outcome,
            Report::Failed(error) => return Progress::Failed(error),
        };
        let step = match step {
            ApplyStep::Validate => ApplyStep::Apply,
            ApplyStep::Apply => if desired.terminate_sources.len() > 0 {
                ApplyStep::Flush
            } else {
                ApplyStep::Persist
            },
            ApplyStep::Flush => ApplyStep::Persist,
            ApplyStep::Persist => {
                self.record(desired.gateway_id, desired.revision, &outcome.actual_state_hash);
                return Progress::Finished(outcome);
            },
        };
        Progress::Next(ApplyRun { desired, step, outcome })
    }

    /// Remembers what an apply brought about.
    fn record(&mut self, gateway_id: Uuid, revision: u64, actual_state_hash: &String)
        ensures
            final(self)@ == old(self)@.brought(gateway_id, revision, actual_state_hash@),
    {
        put_for_id(&mut self.revisions, gateway_id, revision);
        put_for_id(&mut self.hashes, gateway_id, actual_state_hash.clone());
        assert(self@.hashes =~= old(self)@.hashes.insert(gateway_id, actual_state_hash@));
    }

    /// Remembers the revision of a state that was read from the cache.
    pub fn restore(&mut self, gateway_id: Uuid, revision: u64)
        ensures
            final(self)@.revisions == old(self)@.revisions.insert(gateway_id, revision),
            final(self)@.hashes == old(self)@.hashes,
    {
        put_for_id(&mut self.revisions, gateway_id, revision);
    }

    /// Whether a gateway has to be reconciled: it could not be observed, or its digest is not
    /// the one that the last apply left.
    pub fn drifted(&self, gateway_id: Uuid, observed_hash: Option<&str>) -> (r: bool)
        ensures
            r == self@.is_drifted(gateway_id, opt_str(observed_hash)),
    {
        match observed_hash {
            None => true,
            Some(observed) => match get_for_id(&self.hashes, gateway_id) {
                None => true,
                Some(expected) => !same_text(expected.as_str(), observed),
            },
        }
    }

    /// The gateways and their revisions, by identifier.
    pub fn current_gateways(&self) -> (r: Vec<(Uuid, u64)>)
        ensures
            forall|i: int, j: int| 0 <= i < j < r@.len() ==> (#[trigger] r@[i]).0 < (
            #[trigger] r@[j]).0,
            forall|i: int|
                0 <= i < r@.len() ==> self@.revisions.contains_key((#[trigger] r@[i]).0)
                    && self@.revisions[r@[i].0] == r@[i].1,
            forall|id: Uuid| #[trigger]
                self@.revisions.contains_key(id) ==> exists|i: int|
                    0 <= i < r@.len() && (#[trigger] r@[i]).0 == id,
    {
        crate::sets::sorted_entries(&self.revisions)
    }
}

/// What is remembered after a report: what was, and, once a state was brought about, its revision
/// and the digest of what the gateway then was.
pub open spec fn remembered(
    known: MemoryView,
    run: ApplyView,
    progress: Progress<ApplyView, ApplyOutcome, ReconcileError>,
) -> MemoryView {
    match progress {
        Progress::Finished(outcome) => known.brought(
            run.desired.gateway_id,
            run.desired.revision,
            outcome.actual_state_hash@,
        ),
        _ => known,
    }
}

/// What is remembered after reports, one after the other.
pub open spec fn memory_after(
    known: MemoryView,
    run: ApplyView,
    reports: Seq<Report<ApplyOutcome, ReconcileError>>,
) -> MemoryView
    decreases reports.len(),
{
    if reports.len() == 0 {
        known
    } else {
        let before = memory_after(known, run, reports.drop_last());
        match walked(run, reports.drop_last()) {
            Progress::Next(next) => remembered(before, next, next.advanced(reports.last())),
            _ => before,
        }
    }
}

/// Whatever comes of the steps, a state that was not brought about leaves what is remembered as
/// it was; one that was is remembered by its own gateway and revision.
pub proof fn law_only_a_finished_apply_is_remembered(
    known: MemoryView,
    run: ApplyView,
    reports: Seq<Report<ApplyOutcome, ReconcileError>>,
)
    ensures
        memory_after(known, run, reports) == remembered(known, run, walked(run, reports)),
        walked(run, reports) matches Progress::Next(next) ==> next.desired == run.desired,
    decreases reports.len(),
{
    if reports.len() > 0 {
        law_only_a_finished_apply_is_remembered(known, run, reports.drop_last());
    }
}

/// The outcome of a state that was brought about is what its apply told, and that digest is
/// remembered.
pub proof fn law_outcome_is_that_of_the_apply(
    known: MemoryView,
    run: ApplyView,
    reports: Seq<Report<ApplyOutcome, ReconcileError>>,
)
    requires
        run.step == ApplyStep::Validate,
        reports.len() == run.steps().len(),
        reports[1] is Told,
        forall|i: int| 0 <= i < reports.len() && i != 1 ==> #[trigger] reports[i] is Done,
    ensures
        walked(run, reports) == Progress::<ApplyView, ApplyOutcome, ReconcileError>::Finished(
            reports[1]->Told_0,
        ),
        memory_after(known, run, reports) == known.brought(
            run.desired.gateway_id,
            run.desired.revision,
            reports[1]->Told_0.actual_state_hash@,
        ),
{
    law_only_a_finished_apply_is_remembered(known, run, reports);
    let none = reports.take(0);
    let one = reports.take(1);
    let two = reports.take(2);
    let three = reports.take(3);
    assert(one.drop_last() =~= none);
    assert(two.drop_last() =~= one);
    assert(three.drop_last() =~= two);
    assert(walked(run, none) == Progress::<ApplyView, ApplyOutcome, ReconcileError>::Next(run));
    assert(reports[0] is Done && reports[2] is Done);
    assert(walked(run, one) == run.advanced(reports[0]));
    assert(walked(run, two) == walked(run, one)->Next_0.advanced(reports[1]));
    assert(walked(run, three) == walked(run, two)->Next_0.advanced(reports[2]));
    if run.flushes() {
        assert(reports.drop_last() =~= three);
        assert(reports[3] is Done);
        assert(walked(run, reports) == walked(run, three)->Next_0.advanced(reports[3]));
    } else {
        assert(reports =~= three);
    }
}

/// While a state that was accepted is being brought about, no gateway goes back to an older
/// revision, and the other gateways stay as they were.
pub proof fn law_revisions_do_not_go_back(
    known: MemoryView,
    run: ApplyView,
    reports: Seq<Report<ApplyOutcome, ReconcileError>>,
    gateway_id: Uuid,
)
    requires
        run.desired.revision >= known.current(run.desired.gateway_id),
    ensures
        memory_after(known, run, reports).current(gateway_id) >= known.current(gateway_id),
        walked(run, reports) is Finished ==> memory_after(known, run, reports).current(
            run.desired.gateway_id,
        ) == run.desired.revision,
        gateway_id != run.desired.gateway_id ==> memory_after(known, run, reports).current(
            gateway_id,
        ) == known.current(gateway_id),
{
    law_only_a_finished_apply_is_remembered(known, run, reports);
}

/// The name of the file that keeps a gateway's state.
pub fn cache_file_name(gateway_id: Uuid) -> (r: String)
    ensures
        r@ == uuid_text(gateway_id) + ".json"@,
{
    uuid_to_text(gateway_id).concat(".json")
}

/// The name of the file that keeps a state prepared for a migration.
pub fn prepared_file_name(migration_id: Uuid, gateway_id: Uuid) -> (r: String)
    ensures
        r@ == "prepared-"@ + uuid_text(migration_id) + "-"@ + uuid_text(gateway_id) + ".json"@,
{
    let mut out = String::from_str("prepared-");
    out.append(uuid_to_text(migration_id).as_str());
    out.append("-");
    out.append(uuid_to_text(gateway_id).as_str());
    out.append(".json");
    out
}

/// Whether a file name has the extension `json` and does not mark a prepared state. A name that
/// is no text, of which only a likeness is known, marks none.
pub open spec fn names_cached_state(name: Seq<char>, is_text: bool) -> bool {
    &&& name.len() > ".json"@.len()
    &&& name.skip(name.len() - ".json"@.len()) == ".json"@
    &&& !(is_text && "prepared-"@.is_prefix_of(name))
}

/// Whether a file of the cache directory keeps a gateway's state.
pub fn is_cached_state(name: &str, is_text: bool) -> (r: bool)
    ensures
        r == names_cached_state(name@, is_text),
{
    let chars = chars_of(name);
    proof {
        reveal_strlit(".json");
    }
    if chars.len() <= 5 {
        return false;
    }
    let tail = slice_text(chars.as_slice(), chars.len() - 5, chars.len());
    assert(tail@ =~= name@.skip(name@.len() - 5));
    same_text(tail.as_str(), ".json") && !(is_text && starts_with(name, "prepared-"))
}

} // verus!
