//! Looking at every gateway of which a state is cached, and reconciling those that have drifted.

use vstd::prelude::*;

use crate::agent::{ApplyOutcome, MemoryView, ReconcileError, Reconciler};
use crate::ids::Uuid;
use crate::rows::opt_str;
use crate::sort::{
    in_order, lemma_sorted_map, lemma_stable_sorted, placed, stable_sort, stable_sorted, Ranked,
    Sortable,
};
use crate::state::{DesiredGatewayState, StateView};

verus! {

/// States come in the order of their gateways.
impl Ranked for StateView {
    open spec fn no_later(self, other: Self) -> bool {
        self.gateway_id <= other.gateway_id
    }

    proof fn lemma_total(a: Self, b: Self) {
    }

    proof fn lemma_transitive(a: Self, b: Self, c: Self) {
    }
}

impl Ranked for DesiredGatewayState {
    open spec fn no_later(self, other: Self) -> bool {
        self@.no_later(other@)
    }

    proof fn lemma_total(a: Self, b: Self) {
    }

    proof fn lemma_transitive(a: Self, b: Self, c: Self) {
    }
}

impl Sortable for DesiredGatewayState {
    fn is_no_later(&self, other: &Self) -> (r: bool) {
        self.gateway_id <= other.gateway_id
    }
}

/// The contents of states.
pub open spec fn state_views(states: Seq<DesiredGatewayState>) -> Seq<StateView> {
    states.map_values(|s: DesiredGatewayState| s@)
}

/// The cached states in the order in which they are gone through: by their gateways.
pub fn by_gateway(states: Vec<DesiredGatewayState>) -> (r: Vec<DesiredGatewayState>)
    ensures
        state_views(r@) == stable_sorted(state_views(states@)),
        in_order(state_views(r@)),
        r@.to_multiset() == states@.to_multiset(),
{
    let mut states = states;
    proof {
        lemma_sorted_map(states@, |s: DesiredGatewayState| s@);
    }
    stable_sort(&mut states);
    states
}

/// A round through the gateways: the states that were not looked at yet, the gateway that is
/// being reconciled, and what was reconciled.
pub struct DriftRun {
    waiting: Vec<DesiredGatewayState>,
    mending: Option<Uuid>,
    repaired: Vec<(Uuid, ApplyOutcome)>,
}

/// The contents of a [`DriftRun`].
#[verifier::ext_equal]
pub struct DriftView {
    pub waiting: Seq<StateView>,
    pub mending: Option<Uuid>,
    pub repaired: Seq<(Uuid, ApplyOutcome)>,
}

impl View for DriftRun {
    type V = DriftView;

    closed spec fn view(&self) -> DriftView {
        DriftView {
            waiting: state_views(self.waiting@),
            mending: self.mending,
            repaired: self.repaired@,
        }
    }
}

impl DriftView {
    /// A round before its first gateway.
    pub open spec fn before_the_first(states: Seq<StateView>) -> DriftView {
        DriftView { waiting: stable_sorted(states), mending: None, repaired: Seq::empty() }
    }

    /// The state to be applied, if the gateway that is next has drifted.
    pub open spec fn due(self, known: MemoryView, observed: Option<Seq<char>>) -> Option<StateView> {
        if self.waiting.len() > 0 && known.is_drifted(self.waiting[0].gateway_id, observed) {
            Some(self.waiting[0])
        } else {
            None
        }
    }

    /// The round after the look at the gateway that was next.
    pub open spec fn looked(self, known: MemoryView, observed: Option<Seq<char>>) -> DriftView {
        DriftView {
            waiting: if self.waiting.len() > 0 {
                self.waiting.drop_first()
            } else {
                self.waiting
            },
            mending: match self.due(known, observed) {
                Some(state) => Some(state.gateway_id),
                None => None,
            },
            repaired: self.repaired,
        }
    }

    /// The round after the reconciliation of the gateway that had drifted.
    pub open spec fn settled(self, outcome: ApplyOutcome) -> DriftView {
        DriftView {
            waiting: self.waiting,
            mending: None,
            repaired: match self.mending {
                Some(gateway_id) => self.repaired.push((gateway_id, outcome)),
                None => self.repaired,
            },
        }
    }
}

impl DriftRun {
    /// Begins a round through the cached states.
    pub fn begin(states: Vec<DesiredGatewayState>) -> (r: DriftRun)
        ensures
            r@ == DriftView::before_the_first(state_views(states@)),
    {
        DriftRun { waiting: by_gateway(states), mending: None, repaired: Vec::new() }
    }

    /// The gateway to be observed.
    pub fn next(&self) -> (r: Option<Uuid>)
        ensures
            r == (if self@.waiting.len() > 0 {
                Some(self@.waiting[0].gateway_id)
            } else {
                None::<Uuid>
            }),
    {
        if self.waiting.len() > 0 {
            Some(self.waiting[0].gateway_id)
        } else {
            None
        }
    }

    /// Takes note of the digest that was observed of the gateway that was next, if it could be
    /// observed. If it has drifted, its cached state has to be applied.
    pub fn look(&mut self, known: &Reconciler, observed: Option<&str>) -> (r: Option<
        DesiredGatewayState,
    >)
        ensures
            final(self)@ == old(self)@.looked(known@, opt_str(observed)),
            match r {
                Some(state) => old(self)@.due(known@, opt_str(observed)) == Some(state@),
                None => old(self)@.due(known@, opt_str(observed)) is None,
            },
    {
        self.mending = None;
        if self.waiting.len() == 0 {
            return None;
        }
        let state = self.waiting.remove(0);
        assert(self@.waiting =~= old(self)@.waiting.drop_first());
        if known.drifted(state.gateway_id, observed) {
            self.mending = Some(state.gateway_id);
            Some(state)
        } else {
            None
        }
    }

    /// Takes note of what the apply of a cached state has come to. A failure ends the round.
    pub fn settle(self, applied: Result<ApplyOutcome, ReconcileError>) -> (r: Result<
        DriftRun,
        ReconcileError,
    >)
        ensures
            match applied {
                Ok(outcome) => r matches Ok(run) && run@ == self@.settled(outcome),
                Err(error) => r matches Err(e) && e == error,
            },
    {
        let DriftRun { waiting, mending, repaired } = self;
        let mut repaired = repaired;
        match applied {
            Ok(outcome) => {
                match mending {
                    Some(gateway_id) => repaired.push((gateway_id, outcome)),
                    None => {},
                }
                Ok(DriftRun { waiting, mending: None, repaired })
            },
            Err(error) => Err(error),
        }
    }

    /// The gateways that were reconciled, with what came of each.
    pub fn finish(self) -> (r: Vec<(Uuid, ApplyOutcome)>)
        ensures
            r@ == self@.repaired,
    {
        self.repaired
    }
}

/// What comes of one gateway: the digest that was observed of it, if it could be observed, and
/// what an apply of its cached state comes to, if there is one.
pub struct Visit {
    pub observed: Option<Seq<char>>,
    pub applied: Result<ApplyOutcome, ReconcileError>,
}

/// A round with what is remembered meanwhile, or the error that ended it.
pub struct RoundView {
    pub known: MemoryView,
    pub run: Result<DriftView, ReconcileError>,
}

/// A round after the visit of the gateway that was next.
pub open spec fn visited(before: RoundView, visit: Visit) -> RoundView {
    match before.run {
        Err(_) => before,
        Ok(run) => {
            let looked = run.looked(before.known, visit.observed);
            match run.due(before.known, visit.observed) {
                None => RoundView { known: before.known, run: Ok(looked) },
                Some(state) => match visit.applied {
                    Err(error) => RoundView { known: before.known, run: Err(error) },
                    Ok(outcome) => RoundView {
                        known: before.known.brought(
                            state.gateway_id,
                            state.revision,
                            outcome.actual_state_hash@,
                        ),
                        run: Ok(looked.settled(outcome)),
                    },
                },
            }
        },
    }
}

/// A round through cached states after visits, one after the other.
pub open spec fn round(known: MemoryView, states: Seq<StateView>, visits: Seq<Visit>) -> RoundView
    decreases visits.len(),
{
    if visits.len() == 0 {
        RoundView { known, run: Ok(DriftView::before_the_first(states)) }
    } else {
        visited(round(known, states, visits.drop_last()), visits.last())
    }
}

/// Whether the visit of a cached state finds that its gateway has drifted.
pub open spec fn finds_drift(known: MemoryView, state: StateView, visit: Visit) -> bool {
    known.is_drifted(state.gateway_id, visit.observed)
}

/// Whether no two of the states are of one gateway.
pub open spec fn one_each(states: Seq<StateView>) -> bool {
    forall|i: int, j: int|
        0 <= i < j < states.len() ==> (#[trigger] states[i]).gateway_id != (
        #[trigger] states[j]).gateway_id
}

/// Whether a gateway that was reconciled is one that a visit found to have drifted, with what
/// came of it.
pub open spec fn accounts_for(
    known: MemoryView,
    state: StateView,
    visit: Visit,
    repaired: (Uuid, ApplyOutcome),
) -> bool {
    finds_drift(known, state, visit) && visit.applied is Ok && repaired == (
        state.gateway_id,
        visit.applied->Ok_0,
    )
}

proof fn lemma_placed_one_each(s: Seq<StateView>, x: StateView)
    requires
        one_each(s),
        forall|i: int| 0 <= i < s.len() ==> (#[trigger] s[i]).gateway_id != x.gateway_id,
    ensures
        one_each(placed(s, x)),
        forall|i: int|
            0 <= i < placed(s, x).len() ==> (#[trigger] placed(s, x)[i] == x || s.contains(
                placed(s, x)[i],
            )),
    decreases s.len(),
{
    let r = placed(s, x);
    if s.len() == 0 || s.last().no_later(x) {
        assert forall|i: int| 0 <= i < r.len() implies (#[trigger] r[i] == x || s.contains(
            r[i],
        )) by {
            if i < s.len() {
                assert(s[i] == r[i]);
            }
        }
    } else {
        let d = s.drop_last();
        let p = placed(d, x);
        lemma_placed_one_each(d, x);
        assert forall|i: int| 0 <= i < p.len() implies (#[trigger] p[i]).gateway_id
            != s.last().gateway_id by {
            if p[i] != x {
                let k = choose|k: int| 0 <= k < d.len() && d[k] == p[i];
                assert(s[k] == p[i] && s[s.len() - 1] == s.last());
            } else {
                assert(s[s.len() - 1].gateway_id != x.gateway_id);
            }
        }
        assert forall|i: int| 0 <= i < r.len() implies (#[trigger] r[i] == x || s.contains(
            r[i],
        )) by {
            if i < p.len() {
                assert(r[i] == p[i]);
                if p[i] != x {
                    let k = choose|k: int| 0 <= k < d.len() && d[k] == p[i];
                    assert(s[k] == p[i]);
                }
            } else {
                assert(s[s.len() - 1] == r[i]);
            }
        }
    }
}

proof fn lemma_sorted_one_each(s: Seq<StateView>)
    requires
        one_each(s),
    ensures
        one_each(stable_sorted(s)),
        forall|i: int| 0 <= i < stable_sorted(s).len() ==> s.contains(#[trigger] stable_sorted(s)[i]),
    decreases s.len(),
{
    if s.len() > 0 {
        let d = s.drop_last();
        let t = stable_sorted(d);
        lemma_sorted_one_each(d);
        assert forall|i: int| 0 <= i < t.len() implies (#[trigger] t[i]).gateway_id
            != s.last().gateway_id && s.contains(t[i]) by {
            let k = choose|k: int| 0 <= k < d.len() && d[k] == t[i];
            assert(s[k] == t[i] && s[s.len() - 1] == s.last());
        }
        lemma_placed_one_each(t, s.last());
        let r = stable_sorted(s);
        assert forall|i: int| 0 <= i < r.len() implies s.contains(#[trigger] r[i]) by {
            if r[i] == s.last() {
                assert(s[s.len() - 1] == r[i]);
            } else {
                let k = choose|k: int| 0 <= k < t.len() && t[k] == r[i];
                assert(s.contains(t[k]));
            }
        }
    }
}

/// A round goes through the cached states by their gateways, looks at each once, and reconciles
/// exactly the gateways that could not be observed or whose digest is not the one that the last
/// apply left. It lists them in that order, each with what came of it.
pub proof fn law_a_round_repairs_what_has_drifted(
    known: MemoryView,
    states: Seq<StateView>,
    visits: Seq<Visit>,
)
    requires
        one_each(states),
        visits.len() <= states.len(),
        forall|i: int|
            0 <= i < visits.len() && finds_drift(known, stable_sorted(states)[i], visits[i])
                ==> (#[trigger] visits[i]).applied is Ok,
    ensures
        round(known, states, visits).run matches Ok(run) && {
            let sorted = stable_sorted(states);
            &&& run.waiting == sorted.skip(visits.len() as int)
            &&& run.mending is None
            &&& forall|i: int, j: int|
                0 <= i < j < run.repaired.len() ==> (#[trigger] run.repaired[i]).0 < (
                #[trigger] run.repaired[j]).0
            &&& forall|i: int|
                0 <= i < visits.len() && finds_drift(known, #[trigger] sorted[i], visits[i])
                    ==> run.repaired.contains((sorted[i].gateway_id, visits[i].applied->Ok_0))
            &&& forall|k: int|
                0 <= k < run.repaired.len() ==> exists|i: int|
                    0 <= i < visits.len() && accounts_for(
                        known,
                        sorted[i],
                        #[trigger] visits[i],
                        #[trigger] run.repaired[k],
                    )
        },
        forall|g: Uuid|
            (forall|i: int|
                0 <= i < visits.len() ==> (#[trigger] stable_sorted(states)[i]).gateway_id != g)
                ==> #[trigger] round(known, states, visits).known.hashes.contains_key(g)
                == known.hashes.contains_key(g) && round(known, states, visits).known.hashes[g]
                == known.hashes[g],
    decreases visits.len(),
{
    let sorted = stable_sorted(states);
    lemma_stable_sorted(states);
    lemma_sorted_one_each(states);
    if visits.len() == 0 {
        assert(sorted.skip(0) =~= sorted);
    } else {
        let n = visits.len() - 1;
        let earlier = visits.drop_last();
        assert forall|i: int|
            0 <= i < earlier.len() && finds_drift(known, sorted[i], earlier[i]) implies (
        #[trigger] earlier[i]).applied is Ok by {
            assert(earlier[i] == visits[i]);
        }
        law_a_round_repairs_what_has_drifted(known, states, earlier);
        let before = round(known, states, earlier);
        let run = before.run->Ok_0;
        let visit = visits.last();
        assert(visits[n] == visit);
        let state = sorted[n];
        assert(run.waiting[0] == state);
        assert(run.waiting.drop_first() =~= sorted.skip(n + 1));
        assert(forall|i: int| 0 <= i < n ==> (#[trigger] sorted[i]).gateway_id != state.gateway_id);
        assert(before.known.is_drifted(state.gateway_id, visit.observed) == finds_drift(
            known,
            state,
            visit,
        )) by {
            assert(before.known.hashes.contains_key(state.gateway_id)
                == known.hashes.contains_key(state.gateway_id));
        }
        let after = round(known, states, visits);
        assert(after == visited(before, visit));
        let end = after.run->Ok_0;
        assert(after.run is Ok);
        assert forall|i: int|
            0 <= i < visits.len() && finds_drift(
                known,
                #[trigger] sorted[i],
                visits[i],
            ) implies end.repaired.contains((sorted[i].gateway_id, visits[i].applied->Ok_0)) by {
            let entry = (sorted[i].gateway_id, visits[i].applied->Ok_0);
            if i < n {
                assert(earlier[i] == visits[i]);
                let k = choose|k: int| 0 <= k < run.repaired.len() && run.repaired[k] == entry;
                assert(end.repaired[k] == entry);
            } else {
                assert(end.repaired[run.repaired.len() as int] == entry);
            }
        }
        assert forall|k: int| 0 <= k < end.repaired.len() implies exists|i: int|
            0 <= i < visits.len() && accounts_for(
                known,
                sorted[i],
                #[trigger] visits[i],
                #[trigger] end.repaired[k],
            ) by {
            if k < run.repaired.len() {
                assert(end.repaired[k] == run.repaired[k]);
                let i = choose|i: int|
                    0 <= i < earlier.len() && accounts_for(
                        known,
                        sorted[i],
                        #[trigger] earlier[i],
                        run.repaired[k],
                    );
                assert(earlier[i] == visits[i]);
                assert(accounts_for(known, sorted[i], visits[i], end.repaired[k]));
            } else {
                assert(accounts_for(known, sorted[n], visits[n], end.repaired[k]));
            }
        }
        assert forall|i: int, j: int| 0 <= i < j < end.repaired.len() implies (
        #[trigger] end.repaired[i]).0 < (#[trigger] end.repaired[j]).0 by {
            if j == run.repaired.len() {
                assert(end.repaired[i] == run.repaired[i]);
                let k = choose|k: int|
                    0 <= k < earlier.len() && accounts_for(
                        known,
                        sorted[k],
                        #[trigger] earlier[k],
                        run.repaired[i],
                    );
                assert(sorted[k].no_later(sorted[n]));
            }
        }
        assert forall|g: Uuid|
            (forall|i: int| 0 <= i < visits.len() ==> (#[trigger] sorted[i]).gateway_id
                != g) implies #[trigger] after.known.hashes.contains_key(g)
            == known.hashes.contains_key(g) && after.known.hashes[g] == known.hashes[g] by {
            assert(sorted[n].gateway_id != g);
            assert(before.known.hashes.contains_key(g) == known.hashes.contains_key(g));
        }
    }
}

/// The first reconciliation that fails ends the round with its error: no gateway after it is
/// looked at, and what is remembered stays as it then was.
pub proof fn law_the_first_failed_repair_ends_a_round(
    known: MemoryView,
    states: Seq<StateView>,
    visits: Seq<Visit>,
    at: int,
)
    requires
        one_each(states),
        0 <= at < visits.len() <= states.len(),
        forall|i: int|
            0 <= i < at && finds_drift(known, stable_sorted(states)[i], visits[i]) ==> (
            #[trigger] visits[i]).applied is Ok,
        finds_drift(known, stable_sorted(states)[at], visits[at]),
        visits[at].applied is Err,
    ensures
        round(known, states, visits).run == Err::<DriftView, ReconcileError>(
            visits[at].applied->Err_0,
        ),
        round(known, states, visits).known == round(known, states, visits.take(at)).known,
    decreases visits.len(),
{
    let earlier = visits.drop_last();
    if visits.len() > at + 1 {
        law_the_first_failed_repair_ends_a_round(known, states, earlier, at);
        assert(earlier.take(at) =~= visits.take(at));
    } else {
        let sorted = stable_sorted(states);
        lemma_stable_sorted(states);
        lemma_sorted_one_each(states);
        assert forall|i: int|
            0 <= i < earlier.len() && finds_drift(known, sorted[i], earlier[i]) implies (
        #[trigger] earlier[i]).applied is Ok by {
            assert(earlier[i] == visits[i]);
        }
        law_a_round_repairs_what_has_drifted(known, states, earlier);
        assert(earlier =~= visits.take(at));
        let before = round(known, states, earlier);
        assert(before.run->Ok_0.waiting[0] == sorted[at]);
        assert(before.known.hashes.contains_key(sorted[at].gateway_id)
            == known.hashes.contains_key(sorted[at].gateway_id));
    }
}

} // verus!
