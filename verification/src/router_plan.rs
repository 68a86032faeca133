//! The stages in which the RouterOS backend brings about a state.

use vstd::prelude::*;
use vstd::string::*;

use crate::agent::{ApplyOutcome, DriverError};
use crate::mikrotik::{
    address_operation, firewall_operations, firewall_plan, host_text, operation_views,
    peer_operations, peer_record, prefix_text, route_operations, route_record, router_problem,
    validate_state, OperationView, RouterOperation,
};
use crate::scrub::word_texts;
use crate::state::{DesiredGatewayState, PeerView, StateView};
use crate::walk::{fits, walked, Progress, Report, Stepwise};

verus! {

/// The stages in which the backend brings about a state.
#[derive(Debug, Clone, Copy, PartialEq, Eq, Structural)]
pub enum RouterStage {
    Version,
    Interface,
    RemovePeers,
    AddPeers,
    Routes,
    Address,
    Firewall,
    Confirm,
    Observe,
}

/// A state that the backend is bringing about, and the stage that is next. The interface is the
/// one that was found or created, and the digest that of what was observed, once they were.
pub struct RouterRun {
    pub stage: RouterStage,
    pub revision: u64,
    pub interface_id: String,
    pub digest: String,
}

impl Stepwise for RouterRun {
    type Step = RouterStage;

    type Told = String;

    type Outcome = ApplyOutcome;

    type Error = DriverError;

    open spec fn valid(self) -> bool {
        true
    }

    open spec fn steps(self) -> Seq<RouterStage> {
        seq![
            RouterStage::Version,
            RouterStage::Interface,
            RouterStage::RemovePeers,
            RouterStage::AddPeers,
            RouterStage::Routes,
            RouterStage::Address,
            RouterStage::Firewall,
            RouterStage::Confirm,
            RouterStage::Observe,
        ]
    }

    open spec fn taken(self) -> nat {
        match self.stage {
            RouterStage::Version => 0,
            RouterStage::Interface => 1,
            RouterStage::RemovePeers => 2,
            RouterStage::AddPeers => 3,
            RouterStage::Routes => 4,
            RouterStage::Address => 5,
            RouterStage::Firewall => 6,
            RouterStage::Confirm => 7,
            RouterStage::Observe => 8,
        }
    }

    /// The interface's stage tells its identifier, and the look at the gateway the digest of what
    /// it is.
    open spec fn tells(self) -> bool {
        self.stage == RouterStage::Interface || self.stage == RouterStage::Observe
    }

    open spec fn advanced(self, report: Report<String, DriverError>) -> Progress<
        RouterRun,
        ApplyOutcome,
        DriverError,
    > {
        let told = match report {
            Report::Told(text) => Some(text),
            _ => None,
        };
        let interface_id = if self.stage == RouterStage::Interface && told is Some {
            told->0
        } else {
            self.interface_id
        };
        let digest = if self.stage == RouterStage::Observe && told is Some {
            told->0
        } else {
            self.digest
        };
        match report {
            Report::Failed(error) => Progress::Failed(error),
            _ => if self.stage == RouterStage::Observe {
                Progress::Finished(
                    ApplyOutcome { revision: self.revision, actual_state_hash: digest },
                )
            } else {
                Progress::Next(
                    RouterRun {
                        stage: self.steps()[(self.taken() + 1) as int],
                        revision: self.revision,
                        interface_id,
                        digest,
                    },
                )
            },
        }
    }

    proof fn lemma_failure_ends(self, error: DriverError) {
    }

    proof fn lemma_success_goes_on(self, report: Report<String, DriverError>) {
    }
}

impl RouterRun {
    /// Begins to bring about a state that the backend can take.
    pub fn begin(desired: &DesiredGatewayState) -> (r: Result<RouterRun, DriverError>)
        ensures
            match router_problem(desired@) {
                None => r matches Ok(run) && run.stage == RouterStage::Version && run.revision
                    == desired.revision,
                Some(message) => r matches Err(DriverError::Invalid(m)) && m@ == message,
            },
    {
        match validate_state(desired) {
            Ok(_) => Ok(
                RouterRun {
                    stage: RouterStage::Version,
                    revision: desired.revision,
                    interface_id: String::from_str(""),
                    digest: String::from_str(""),
                },
            ),
            Err(error) => Err(error),
        }
    }

    /// Goes on with what the stage that was next has come to. The first failure is the end.
    pub fn advance(self, report: Report<String, DriverError>) -> (r: Progress<
        RouterRun,
        ApplyOutcome,
        DriverError,
    >)
        requires
            fits(self, report),
        ensures
            r == self.advanced(report),
    {
        let RouterRun { stage, revision, interface_id, digest } = self;
        let mut interface_id = interface_id;
        let mut digest = digest;
        match report {
            Report::Done => {},
            Report::Told(text) => {
                if stage == RouterStage::Interface {
                    interface_id = text;
                } else {
                    digest = text;
                }
            },
            Report::Failed(error) => return Progress::Failed(error),
        }
        let stage = match stage {
            RouterStage::Version => RouterStage::Interface,
            RouterStage::Interface => RouterStage::RemovePeers,
            RouterStage::RemovePeers => RouterStage::AddPeers,
            RouterStage::AddPeers => RouterStage::Routes,
            RouterStage::Routes => RouterStage::Address,
            RouterStage::Address => RouterStage::Firewall,
            RouterStage::Firewall => RouterStage::Confirm,
            RouterStage::Confirm => RouterStage::Observe,
            RouterStage::Observe => return Progress::Finished(
                ApplyOutcome { revision, actual_state_hash: digest },
            ),
        };
        Progress::Next(RouterRun { stage, revision, interface_id, digest })
    }
}

/// The interface that was found is kept until it is confirmed.
proof fn lemma_interface_is_kept(run: RouterRun, reports: Seq<Report<String, DriverError>>)
    requires
        run.taken() == 0,
        reports.len() < run.steps().len(),
        forall|i: int|
            0 <= i < reports.len() ==> (#[trigger] reports[i] is Told) == (i == 1) && !(
            reports[i] is Failed),
    ensures
        walked(run, reports) matches Progress::Next(next) && next.taken() == reports.len()
            && next.revision == run.revision && (reports.len() > 1 ==> next.interface_id
            == reports[1]->Told_0),
    decreases reports.len(),
{
    if reports.len() > 0 {
        let before = reports.drop_last();
        assert forall|i: int| 0 <= i < before.len() implies (#[trigger] before[i] is Told) == (i
            == 1) && !(before[i] is Failed) by {
            assert(before[i] == reports[i]);
        }
        lemma_interface_is_kept(run, before);
        assert(reports.last() == reports[reports.len() - 1]);
    }
}

/// The outcome of a state that was brought about is its revision and the digest of what was
/// observed after the last change. The interface that is confirmed is the one that was found.
pub proof fn law_outcome_is_what_was_observed(
    run: RouterRun,
    reports: Seq<Report<String, DriverError>>,
)
    requires
        run.stage == RouterStage::Version,
        reports.len() == run.steps().len(),
        reports[1] is Told,
        reports[8] is Told,
        forall|i: int|
            0 <= i < reports.len() && i != 1 && i != 8 ==> #[trigger] reports[i] is Done,
    ensures
        walked(run, reports.take(7)) matches Progress::Next(next) && next.stage
            == RouterStage::Confirm && next.interface_id == reports[1]->Told_0,
        walked(run, reports) == Progress::<RouterRun, ApplyOutcome, DriverError>::Finished(
            ApplyOutcome { revision: run.revision, actual_state_hash: reports[8]->Told_0 },
        ),
{
    let before = reports.drop_last();
    let confirm = reports.take(7);
    assert forall|i: int| 0 <= i < before.len() implies (#[trigger] before[i] is Told) == (i == 1)
        && !(before[i] is Failed) by {
        assert(before[i] == reports[i]);
    }
    assert forall|i: int| 0 <= i < confirm.len() implies (#[trigger] confirm[i] is Told) == (i
        == 1) && !(confirm[i] is Failed) by {
        assert(confirm[i] == reports[i]);
    }
    lemma_interface_is_kept(run, before);
    lemma_interface_is_kept(run, confirm);
    assert(reports.last() == reports[8]);
}

/// The resources of which a stage removes the gateway's own records before it creates others.
pub open spec fn cleared(stage: RouterStage) -> Seq<Seq<char>> {
    match stage {
        RouterStage::RemovePeers => seq!["interface/wireguard/peers"@],
        RouterStage::Routes => seq!["ip/route"@],
        RouterStage::Address => seq!["ip/address"@],
        RouterStage::Firewall => seq!["ip/firewall/filter"@, "ip/firewall/address-list"@],
        _ => Seq::empty(),
    }
}

/// The resources of which a stage removes the gateway's own records before it creates others.
pub fn stage_resources(stage: RouterStage) -> (r: Vec<&'static str>)
    ensures
        word_texts(r@) == cleared(stage),
{
    let r: Vec<&'static str> = match stage {
        RouterStage::RemovePeers => vec!["interface/wireguard/peers"],
        RouterStage::Routes => vec!["ip/route"],
        RouterStage::Address => vec!["ip/address"],
        RouterStage::Firewall => vec!["ip/firewall/filter", "ip/firewall/address-list"],
        _ => Vec::new(),
    };
    assert(word_texts(r@) =~= cleared(stage));
    r
}

/// The records that a stage creates.
pub open spec fn stage_plan(stage: RouterStage, state: StateView) -> Seq<OperationView> {
    match stage {
        RouterStage::AddPeers => state.peers.map_values(|p: PeerView| peer_record(state, p)),
        RouterStage::Routes => state.peers.map_values(|p: PeerView| route_record(state, p)),
        RouterStage::Address => match state.compatibility_address {
            None => Seq::empty(),
            Some(address) => seq![
                OperationView {
                    resource: "/ip/address"@,
                    body: seq![
                        ("address"@, host_text(address)),
                        ("interface"@, state.interface_name),
                        ("comment"@, prefix_text(state.gateway_id) + ":compatibility-address"@),
                    ],
                },
            ],
        },
        RouterStage::Firewall => firewall_plan(state),
        _ => Seq::empty(),
    }
}

/// The records that a stage creates, or why the state cannot be brought about.
pub fn stage_operations(stage: RouterStage, desired: &DesiredGatewayState) -> (r: Result<
    Vec<RouterOperation>,
    DriverError,
>)
    ensures
        stage == RouterStage::Firewall && router_problem(desired@) is Some ==> (r matches Err(
            DriverError::Invalid(m),
        ) && m@ == router_problem(desired@)->0),
        stage != RouterStage::Firewall || router_problem(desired@) is None ==> (r matches Ok(list)
            && operation_views(list@) == stage_plan(stage, desired@)),
{
    match stage {
        RouterStage::AddPeers => Ok(peer_operations(desired)),
        RouterStage::Routes => Ok(route_operations(desired)),
        RouterStage::Address => {
            let mut out: Vec<RouterOperation> = Vec::new();
            match address_operation(desired) {
                Some(operation) => out.push(operation),
                None => {},
            }
            assert(operation_views(out@) =~= stage_plan(stage, desired@));
            Ok(out)
        },
        RouterStage::Firewall => firewall_operations(desired),
        _ => {
            let out: Vec<RouterOperation> = Vec::new();
            assert(operation_views(out@) =~= stage_plan(stage, desired@));
            Ok(out)
        },
    }
}

} // verus!
