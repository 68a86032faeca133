//! What agents and the controller promise each other.

use vstd::prelude::*;
use vstd::utf8::encode_utf8;

use crate::agent::{
    names_cached_state, remembered, ApplyOutcome, ApplyStep, ApplyView, MemoryView, ReconcileError,
};
use crate::crypto::sha256;
use crate::desired::{applied_fault, exposed, exposure_fault, AckRow, HistoryRow};
use crate::grpc::{
    hello_fault, is_agent_secret, is_step, message_fault, notice_fault, notice_of, secret_in,
    AgentSecrets, MessageStep, MigrationNotice, MigrationNoticeRow,
};
use crate::ids::{uuid_parsed, Uuid};
use crate::linux_plan::{LinuxRun, LinuxStage};
use crate::router_plan::{RouterRun, RouterStage};
use crate::runtime::{is_credential_step, wait_for, AgentConfig, AgentMessage, AgentStep, Purpose};
use crate::text::trimmed;
use crate::time::timestamp_in;
use crate::users::all_exposed;
use crate::walk::{Report, Stepwise};
use crate::wire::DesiredSnapshot;

verus! {

/// An agent is let in if and only if it says hello first, speaks the protocol's first version and
/// has an identifier.
pub proof fn law_agents_say_hello(message: Option<AgentMessage>)
    ensures
        hello_fault(message) is None <==> message is Some && message->0 is Hello
            && message->0->Hello_0.protocol_major == 1 && uuid_parsed(
            message->0->Hello_0.agent_id@,
        ) is Ok,
{
}

/// An agent's secret is what follows the word in its header, and nothing is no secret. It is right
/// if its digest is the present one or the next.
pub proof fn law_agents_prove_who_they_are(row: AgentSecrets, secret: Seq<char>)
    ensures
        secret.len() > 0 ==> secret_in(Some("Bearer "@ + secret)) == Some(secret),
        secret_in(Some("Bearer "@)) is None,
        secret_in(None) is None,
        is_agent_secret(row, secret) <==> row.current@ == sha256(encode_utf8(secret)) || (
        row.next is Some && row.next->0@ == sha256(encode_utf8(secret))),
{
    let value = "Bearer "@ + secret;
    assert("Bearer "@ =~= value.subrange(0, "Bearer "@.len() as int));
    assert(value.skip("Bearer "@.len() as int) =~= secret);
}

/// An agent is told to drop a migration that was cancelled or has failed if and only if it was
/// told of it before; to prepare one, if it was not told of it; and to arm it, once it is armed.
pub proof fn law_migrations_are_announced_in_order(
    row: MigrationNoticeRow,
    previous: Option<Seq<char>>,
)
    requires
        notice_fault(row, previous) is None,
    ensures
        notice_of(row, previous) is Cancel <==> (row.status@ == "cancelled"@ || row.status@
            == "failed"@) && (previous == Some("preparing"@) || previous == Some("armed"@)),
        notice_of(row, previous) is Announce <==> row.status@ != "cancelled"@ && row.status@
            != "failed"@ && previous != Some(row.status@),
        notice_of(row, previous) matches MigrationNotice::Announce {
            prepare,
            arm,
            effective_unix_seconds,
        } ==> {
            &&& prepare <==> previous is None
            &&& arm <==> row.status@ == "armed"@
            &&& timestamp_in(row.effective_at@) is Some && effective_unix_seconds == timestamp_in(
                row.effective_at@,
            )->0.secs
        },
{
}

/// An agent is heard on a gateway only if the gateway is its own. A gateway's facts have a key of
/// 32 bytes and a port; what is done is about the gateway that the agent names.
pub proof fn law_agents_are_heard_on_their_own_gateways(
    message: AgentMessage,
    assigned: bool,
    step: MessageStep,
)
    requires
        message_fault(Some(message), assigned) is None,
        is_step(step, message),
    ensures
        !(message is Hello),
        message matches AgentMessage::Facts(m) ==> {
            &&& assigned
            &&& m.listen_port <= 65535
            &&& crate::config::is_public_key(m.public_key@)
            &&& step matches MessageStep::Facts { gateway_id, listen_port } && uuid_parsed(
                m.gateway_id@,
            ) == Ok::<Uuid, Seq<char>>(gateway_id) && listen_port == m.listen_port
        },
        message matches AgentMessage::Prepared(m) ==> assigned && (step matches
            MessageStep::Prepared { migration_id, gateway_id } && uuid_parsed(m.migration_id@)
            == Ok::<Uuid, Seq<char>>(migration_id) && uuid_parsed(m.gateway_id@) == Ok::<
            Uuid,
            Seq<char>,
        >(gateway_id)),
        message matches AgentMessage::Applied(m) ==> assigned && (step matches
            MessageStep::Applied { gateway_id } && uuid_parsed(m.gateway_id@) == Ok::<
            Uuid,
            Seq<char>,
        >(gateway_id)),
        message matches AgentMessage::Error(m) ==> assigned && (step matches MessageStep::Error {
            gateway_id,
        } && uuid_parsed(m.gateway_id@) == Ok::<Uuid, Seq<char>>(gateway_id)),
        message is Heartbeat ==> step is Nothing,
{
}

/// An agent starts if and only if it reaches the controller over TLS, knows the controller's name
/// and has a secret of at least 32 bytes.
pub proof fn law_agents_need_tls_and_a_secret(config: AgentConfig)
    ensures
        config.fault() is None <==> "https://"@.is_prefix_of(config.controller_url@) && trimmed(
            config.server_name@,
        ).len() > 0 && encode_utf8(config.secret@).len() >= 32,
{
}

/// An agent waits until the time of a migration, and not at all once it has come.
pub proof fn law_agents_wait_for_the_time(effective: i64, now: i64)
    ensures
        effective > now ==> wait_for(effective, now) == effective - now,
        effective <= now ==> wait_for(effective, now) == 0,
{
}

/// A gateway may hold a device if and only if a state that it was asked to be since the last one
/// that it acknowledged, or that one, has a peer of the device.
pub proof fn law_gateways_that_may_hold_a_device(
    history: Seq<HistoryRow>,
    device_id: Uuid,
    gateway_id: Uuid,
)
    requires
        exposure_fault(history, device_id) is None,
    ensures
        exposed(history, device_id).contains(gateway_id) <==> exists|i: int, k: int|
            {
                &&& 0 <= i < history.len()
                &&& uuid_parsed((#[trigger] history[i]).gateway_id@) == Ok::<Uuid, Seq<char>>(
                    gateway_id,
                )
                &&& history[i].revision >= history[i].applied_revision
                &&& 0 <= k < history[i].state.peers@.len()
                &&& (#[trigger] history[i].state.peers@[k]).device_id == device_id
            },
{
    crate::desired::law_retained_states_are_consulted(history, device_id, gateway_id);
    if exposed(history, device_id).contains(gateway_id) {
        let i = choose|i: int|
            0 <= i < history.len() && (#[trigger] history[i]).may_hold(device_id) && uuid_parsed(
                history[i].gateway_id@,
            ) == Ok::<Uuid, Seq<char>>(gateway_id);
        let k = choose|k: int|
            0 <= k < history[i].state.peers@.len() && (
            #[trigger] history[i].state.peers@[k]).device_id == device_id;
        assert(history[i].state.peers@[k].device_id == device_id);
    }
    if exists|i: int, k: int|
        {
            &&& 0 <= i < history.len()
            &&& uuid_parsed((#[trigger] history[i]).gateway_id@) == Ok::<Uuid, Seq<char>>(
                gateway_id,
            )
            &&& history[i].revision >= history[i].applied_revision
            &&& 0 <= k < history[i].state.peers@.len()
            &&& (#[trigger] history[i].state.peers@[k]).device_id == device_id
        } {
        let (i, k) = choose|i: int, k: int|
            {
                &&& 0 <= i < history.len()
                &&& uuid_parsed((#[trigger] history[i]).gateway_id@) == Ok::<Uuid, Seq<char>>(
                    gateway_id,
                )
                &&& history[i].revision >= history[i].applied_revision
                &&& 0 <= k < history[i].state.peers@.len()
                &&& (#[trigger] history[i].state.peers@[k]).device_id == device_id
            };
        assert(history[i].may_hold(device_id));
    }
}

/// The gateways that may hold one of some devices are those that may hold the first, the second,
/// or another one of them.
pub proof fn law_gateways_of_several_devices(
    history: Seq<HistoryRow>,
    devices: Seq<Uuid>,
    gateway_id: Uuid,
)
    ensures
        all_exposed(history, devices).contains(gateway_id) <==> exists|i: int|
            0 <= i < devices.len() && exposed(history, #[trigger] devices[i]).contains(gateway_id),
    decreases devices.len(),
{
    if devices.len() > 0 {
        let less = devices.drop_last();
        law_gateways_of_several_devices(history, less, gateway_id);
        assert(devices[devices.len() - 1] == devices.last());
        if all_exposed(history, less).contains(gateway_id) {
            let i = choose|i: int|
                0 <= i < less.len() && exposed(history, #[trigger] less[i]).contains(gateway_id);
            assert(devices[i] == less[i]);
        }
        if exists|i: int|
            0 <= i < devices.len() && exposed(history, #[trigger] devices[i]).contains(gateway_id) {
            let i = choose|i: int|
                0 <= i < devices.len() && exposed(history, #[trigger] devices[i]).contains(
                    gateway_id,
                );
            if i < less.len() {
                assert(less[i] == devices[i]);
            }
        }
    }
}

/// A gateway acknowledges no state that it was not asked for.
pub proof fn law_only_asked_states_are_acknowledged(desired: i64, revision: u64)
    requires
        0 <= desired,
    ensures
        applied_fault(Some(desired), revision) is None <==> revision <= desired,
        applied_fault(None, revision) is Some,
{
}

/// What a gateway still has to acknowledge is met by an acknowledgement of its own, of the
/// revision that is asked for or a later one, and stays met.
pub proof fn law_requirements_are_met_by_their_gateways(a: AckRow, gateway_id: Uuid, revision: i64)
    ensures
        a.after(gateway_id, revision).acknowledged <==> a.acknowledged || a.gateway_id == gateway_id
            && a.required_revision <= revision,
        a.after(gateway_id, revision).gateway_id == a.gateway_id,
        a.after(gateway_id, revision).required_revision == a.required_revision,
{
}

/// A gateway has drifted if and only if it could not be observed, nothing was brought about on it,
/// or its digest is another one.
pub proof fn law_drift_is_another_digest(
    known: MemoryView,
    gateway_id: Uuid,
    observed: Option<Seq<char>>,
)
    ensures
        known.is_drifted(gateway_id, observed) <==> observed is None || !known.hashes.contains_key(
            gateway_id,
        ) || known.hashes[gateway_id] != observed->0,
{
}

/// A state is validated, then applied, then its connections are flushed where sources are to be
/// cut off, and last it is written to the cache. Once that is done, and no earlier, its revision
/// and what was observed are remembered of its gateway, and nothing of another one.
pub proof fn law_applies_go_through_their_steps(
    known: MemoryView,
    run: ApplyView,
    report: Report<ApplyOutcome, ReconcileError>,
    other: Uuid,
)
    ensures
        run.steps().len() == (if run.desired.terminate_sources.len() > 0 {
            4nat
        } else {
            3nat
        }),
        run.steps()[0] == ApplyStep::Validate,
        run.steps()[1] == ApplyStep::Apply,
        run.desired.terminate_sources.len() > 0 ==> run.steps()[2] == ApplyStep::Flush,
        run.steps().last() == ApplyStep::Persist,
        ({
            let after = remembered(known, run, run.advanced(report));
            let finished = run.step == ApplyStep::Persist && !(report is Failed);
            let id = run.desired.gateway_id;
            &&& !finished ==> after == known
            &&& finished && report is Done ==> after.revisions.contains_key(id)
                && after.revisions[id] == run.desired.revision && after.hashes.contains_key(id)
                && after.hashes[id] == run.outcome.actual_state_hash@
            &&& other != id ==> (after.revisions.contains_key(other)
                <==> known.revisions.contains_key(other)) && (known.revisions.contains_key(other)
                ==> after.revisions[other] == known.revisions[other])
        }),
{
}

/// A failed apply may succeed later only where its backend was out of reach.
pub proof fn law_only_unreachable_backends_are_tried_again(error: ReconcileError)
    ensures
        error.may_succeed_later() <==> error is Driver && error->Driver_0 is Unavailable,
{
}

/// On Linux the tunnel is set up before its routes, and these before the table; what is there is
/// observed after all changes, and only then written down.
pub proof fn law_linux_stages_are_in_order(run: LinuxRun)
    ensures
        run.steps() == seq![
            LinuxStage::Directory,
            LinuxStage::Forwarding,
            LinuxStage::Interface,
            LinuxStage::Key,
            LinuxStage::Tunnel,
            LinuxStage::Routes,
            LinuxStage::Table,
            LinuxStage::Observe,
            LinuxStage::Record,
        ],
        0 <= run.taken() < run.steps().len() && run.steps()[run.taken() as int] == run.stage,
{
}

/// On a router the version is checked before anything is changed, old peers go before new ones
/// come, and what is there is observed after all changes.
pub proof fn law_router_stages_are_in_order(run: RouterRun)
    ensures
        run.steps() == seq![
            RouterStage::Version,
            RouterStage::Interface,
            RouterStage::RemovePeers,
            RouterStage::AddPeers,
            RouterStage::Routes,
            RouterStage::Address,
            RouterStage::Firewall,
            RouterStage::Confirm,
            RouterStage::Observe,
        ],
        0 <= run.taken() < run.steps().len() && run.steps()[run.taken() as int] == run.stage,
{
}

/// What an agent says of its own gateway is heard where it can be read, and a sign of life is heard
/// at any time.
pub proof fn law_messages_that_can_be_read_are_heard(message: AgentMessage)
    ensures
        message is Heartbeat ==> message_fault(Some(message), true) is None && message_fault(
            Some(message),
            false,
        ) is None,
        message matches AgentMessage::Facts(m) ==> (message_fault(Some(message), true) is None
            <==> crate::config::is_public_key(m.public_key@) && uuid_parsed(m.gateway_id@) is Ok
            && m.listen_port <= 65535),
        message matches AgentMessage::Prepared(m) ==> (message_fault(Some(message), true) is None
            <==> uuid_parsed(m.migration_id@) is Ok && uuid_parsed(m.gateway_id@) is Ok),
        message matches AgentMessage::Applied(m) ==> (message_fault(Some(message), true) is None
            <==> uuid_parsed(m.gateway_id@) is Ok),
        message matches AgentMessage::Error(m) ==> (message_fault(Some(message), true) is None
            <==> uuid_parsed(m.gateway_id@) is Ok),
        message_fault(None, true) is Some,
{
}

/// A state that comes with credentials has them set up for its gateway first; one without is gone on
/// with as it is, for the purpose that it came with.
pub proof fn law_credentials_are_set_up_first(
    snapshot: DesiredSnapshot,
    purpose: Purpose,
    step: AgentStep,
)
    requires
        is_credential_step(snapshot, purpose, step),
    ensures
        snapshot.credential_envelope@.len() == 0 <==> step is Proceed,
        step is Configure <==> snapshot.credential_envelope@.len() > 0 && uuid_parsed(
            snapshot.gateway_id@,
        ) is Ok,
        step matches AgentStep::Configure { gateway_id, snapshot: s, purpose: p } ==> uuid_parsed(
            snapshot.gateway_id@,
        ) == Ok::<Uuid, Seq<char>>(gateway_id) && s@ == snapshot@ && p == purpose,
        step matches AgentStep::Proceed { snapshot: s, purpose: p } ==> s@ == snapshot@ && p
            == purpose,
        step matches AgentStep::Reply(e) ==> !e.retryable && e.revision == snapshot.revision,
{
}

/// What went wrong is told apart: an old revision, the backend, or the cache.
pub proof fn law_errors_have_their_codes(error: ReconcileError)
    ensures
        error.code_text() == "stale_revision"@ <==> error is StaleRevision,
        error.code_text() == "backend_error"@ <==> error is Driver,
        error.code_text() == "cache_error"@ <==> error is Cache || error is Encode,
{
    reveal_strlit("stale_revision");
    reveal_strlit("backend_error");
    reveal_strlit("cache_error");
    assert("stale_revision"@[0] == 's' && "backend_error"@[0] == 'b' && "cache_error"@[0] == 'c');
}

/// The cache holds the states of gateways in files of their own; those of migrations that are
/// prepared are not among them.
pub proof fn law_prepared_states_are_not_current(id: Seq<char>, rest: Seq<char>)
    requires
        id.len() > 0,
        !"prepared-"@.is_prefix_of(id + ".json"@),
    ensures
        names_cached_state(id + ".json"@, true),
        !names_cached_state("prepared-"@ + rest + ".json"@, true),
        !names_cached_state(".json"@, true),
        !names_cached_state(id + ".jso"@, true),
{
    let name = id + ".json"@;
    reveal_strlit(".json");
    reveal_strlit(".jso");
    assert(name.skip(name.len() - ".json"@.len()) =~= ".json"@);
    let prepared = "prepared-"@ + rest + ".json"@;
    assert("prepared-"@ =~= prepared.subrange(0, "prepared-"@.len() as int));
    let other = id + ".jso"@;
    assert(other.last() == 'o');
    if other.len() > 5 {
        assert(other.skip(other.len() - 5)[4] == 'o');
        assert(".json"@[4] == 'n');
    }
}
} // verus!
