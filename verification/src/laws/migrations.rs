//! What moving all clients to another pool of addresses promises.

use vstd::prelude::*;

use crate::ids::{uuid_parsed, Uuid};
use crate::ipv4::{address_parsed, network_parsed, Ipv4Addr, Ipv4Net};
use crate::migration::{
    arm_fault, early_fault, is_apply_step, is_migration, late_fault, moved_from, moved_peer,
    moved_state, moved_to, moves_fault, prepared_fault, row_of, source_fault, unmoved_devices_fault,
    AddressMove, ApplyStep, GatewayStateRow, LeaseRow, MigrationGatewayRow, MigrationRow,
    MigrationSources, NewMigration, PreparationRow,
};
use crate::network::ClientPool;
use crate::sort::{lemma_stable_sorted, stable_sorted};
use crate::state::{canonical, law_canonical_addresses, law_canonical_routes, PeerView, StateView};
use crate::time::{timestamp_in, Timestamp};

verus! {

proof fn lemma_moved_to(moves: Seq<AddressMove>, j: int)
    requires
        0 <= j < moves.len(),
        forall|a: int, b: int|
            0 <= a < b < moves.len() ==> (#[trigger] moves[a]).device_id != (
            #[trigger] moves[b]).device_id,
    ensures
        moved_to(moves, moves[j].device_id) == Some(moves[j].new_address),
        moved_from(moves, moves[j].device_id) == Some(moves[j].old_address),
    decreases moves.len(),
{
    if j < moves.len() - 1 {
        let less = moves.drop_last();
        assert forall|a: int, b: int| 0 <= a < b < less.len() implies (
        #[trigger] less[a]).device_id != (#[trigger] less[b]).device_id by {
            assert(moves[a].device_id != moves[b].device_id);
        }
        lemma_moved_to(less, j);
        assert(moves[j].device_id != moves[moves.len() - 1].device_id);
    }
}

proof fn lemma_not_moved(moves: Seq<AddressMove>, device_id: Uuid)
    requires
        forall|a: int| 0 <= a < moves.len() ==> (#[trigger] moves[a]).device_id != device_id,
    ensures
        moved_to(moves, device_id) is None,
        moved_from(moves, device_id) is None,
    decreases moves.len(),
{
    if moves.len() > 0 {
        lemma_not_moved(moves.drop_last(), device_id);
        assert(moves[moves.len() - 1].device_id != device_id);
    }
}

proof fn lemma_canonical_peers(state: StateView, peer: PeerView)
    ensures
        canonical(state).peers.len() == state.peers.len(),
        canonical(state).peers.contains(peer) <==> state.peers.contains(peer),
        canonical(state).peers.to_multiset() == state.peers.to_multiset(),
{
    broadcast use vstd::seq_lib::group_to_multiset_ensures;

    lemma_stable_sorted(state.peers);
    assert(stable_sorted(state.peers).to_multiset().count(peer) == state.peers.to_multiset().count(
        peer,
    ));
}

/// A plan moves every device, and the first to the first address that a client can have, the
/// second to the next one, and so on: after the network's own address and the one that is kept for
/// the gateway, and before the last.
pub proof fn law_plans_move_every_device(
    m: NewMigration,
    effective_at: Seq<char>,
    new_pool: Ipv4Net,
    now: Timestamp,
    s: MigrationSources,
    i: int,
)
    requires
        early_fault(effective_at, new_pool, now, s) is None,
        late_fault(effective_at, new_pool, s) is None,
        is_migration(m, effective_at, new_pool, s),
        new_pool.wf(),
        0 <= i < s.devices@.len(),
    ensures
        m.plan.addresses@.len() == s.devices@.len(),
        uuid_parsed(s.devices@[i].id@) == Ok::<Uuid, Seq<char>>(m.plan.addresses@[i].device_id),
        address_parsed(s.devices@[i].vpn_address@) == Some(m.plan.addresses@[i].old_address),
        m.plan.addresses@[i].new_address == new_pool.first() + 2 + i,
        new_pool.first() + 2 + i < new_pool.last(),
{
    let pool = ClientPool { cidr: new_pool };
    lemma_moves_are_read(pool, s.devices@, i);
    crate::ipv4::lemma_block(new_pool.base(), new_pool.bits());
}

proof fn lemma_moves_are_read(pool: ClientPool, rows: Seq<LeaseRow>, i: int)
    requires
        moves_fault(pool, rows) is None,
        0 <= i < rows.len(),
    ensures
        uuid_parsed(rows[i].id@) is Ok,
        address_parsed(rows[i].vpn_address@) is Some,
        pool.cidr.first() + 2 + i < pool.cidr.last(),
    decreases rows.len(),
{
    if i < rows.len() - 1 {
        lemma_moves_are_read(pool, rows.drop_last(), i);
        assert(rows.drop_last()[i] == rows[i]);
    }
}

/// Every gateway is planned for, and only gateways are.
pub proof fn law_plans_cover_every_gateway(
    m: NewMigration,
    effective_at: Seq<char>,
    new_pool: Ipv4Net,
    s: MigrationSources,
    gateway_id: Uuid,
)
    requires
        is_migration(m, effective_at, new_pool, s),
    ensures
        m.plan.gateways@.contains_key(gateway_id) <==> exists|i: int|
            0 <= i < s.gateways@.len() && uuid_parsed((#[trigger] s.gateways@[i]).id@) == Ok::<
                Uuid,
                Seq<char>,
            >(gateway_id),
{
    let found = row_of(s.gateways@, gateway_id);
    lemma_row_of(s.gateways@, gateway_id);
}

proof fn lemma_row_of(rows: Seq<GatewayStateRow>, id: Uuid)
    ensures
        row_of(rows, id) is Some <==> exists|i: int|
            0 <= i < rows.len() && uuid_parsed((#[trigger] rows[i]).id@) == Ok::<Uuid, Seq<char>>(
                id,
            ),
        row_of(rows, id) matches Some(row) ==> exists|i: int|
            0 <= i < rows.len() && #[trigger] rows[i] == row && uuid_parsed(row.id@) == Ok::<
                Uuid,
                Seq<char>,
            >(id),
    decreases rows.len(),
{
    if rows.len() > 0 {
        let less = rows.drop_last();
        lemma_row_of(less, id);
        assert(rows[rows.len() - 1] == rows.last());
        assert(forall|i: int| 0 <= i < less.len() ==> less[i] == rows[i]);
        if row_of(less, id) is Some {
            let i = choose|i: int|
                0 <= i < less.len() && uuid_parsed((#[trigger] less[i]).id@) == Ok::<
                    Uuid,
                    Seq<char>,
                >(id);
            assert(uuid_parsed(rows[i].id@) == Ok::<Uuid, Seq<char>>(id));
        }
    }
}

proof fn lemma_only_row(rows: Seq<GatewayStateRow>, id: Uuid, i: int)
    requires
        0 <= i < rows.len(),
        uuid_parsed(rows[i].id@) == Ok::<Uuid, Seq<char>>(id),
        forall|k: int|
            0 <= k < rows.len() && k != i ==> uuid_parsed((#[trigger] rows[k]).id@) != Ok::<
                Uuid,
                Seq<char>,
            >(id),
    ensures
        row_of(rows, id) == Some(rows[i]),
    decreases rows.len(),
{
    if i < rows.len() - 1 {
        assert(uuid_parsed(rows[rows.len() - 1].id@) != Ok::<Uuid, Seq<char>>(id));
        lemma_only_row(rows.drop_last(), id, i);
    }
}

/// Every peer of every gateway's future state whose device is moved has the address that its
/// device is moved to: none stays where it was, and none is outside the new pool.
pub proof fn law_moved_peers_have_their_new_addresses(
    m: NewMigration,
    effective_at: Seq<char>,
    new_pool: Ipv4Net,
    now: Timestamp,
    s: MigrationSources,
    gateway_id: Uuid,
    k: int,
    j: int,
)
    requires
        early_fault(effective_at, new_pool, now, s) is None,
        late_fault(effective_at, new_pool, s) is None,
        is_migration(m, effective_at, new_pool, s),
        new_pool.wf(),
        forall|a: int, b: int|
            0 <= a < b < m.plan.addresses@.len() ==> (#[trigger] m.plan.addresses@[a]).device_id
                != (#[trigger] m.plan.addresses@[b]).device_id,
        m.plan.gateways@.contains_key(gateway_id),
        0 <= k < m.plan.gateways@[gateway_id].state.peers@.len(),
        0 <= j < m.plan.addresses@.len(),
        m.plan.gateways@[gateway_id].state.peers@[k].device_id == m.plan.addresses@[j].device_id,
    ensures
        m.plan.gateways@[gateway_id].state.peers@[k].allowed_address
            == m.plan.addresses@[j].new_address,
        new_pool.first() < m.plan.gateways@[gateway_id].state.peers@[k].allowed_address
            < new_pool.last(),
{
    let moves = m.plan.addresses@;
    let future = m.plan.gateways@[gateway_id].state@;
    let row = row_of(s.gateways@, gateway_id)->0;
    assert(row_of(s.gateways@, gateway_id) is Some);
    let peer = future.peers[k];
    assert(peer == m.plan.gateways@[gateway_id].state.peers@[k]@);
    let numbered = row.kind@ == "mikrotik"@ && row.compatibility_address;
    let draft = moved_state(
        ClientPool { cidr: new_pool },
        moves,
        numbered,
        row.desired_revision as u64,
        row.state@,
    );
    lemma_canonical_peers(draft, peer);
    assert(future.peers.contains(peer));
    let n = choose|n: int| 0 <= n < draft.peers.len() && draft.peers[n] == peer;
    lemma_moved_to(moves, j);
    law_plans_move_every_device(m, effective_at, new_pool, now, s, j);
}

/// A gateway's future state is one revision after its present one, with the same devices, users,
/// keys, groups, routes and rules. Only where a device is moved has its peer another address; the
/// flows of all old addresses end, and no others. A router whose interface is numbered gets the
/// address that the new pool keeps for it.
pub proof fn law_futures_change_addresses_only(
    m: NewMigration,
    effective_at: Seq<char>,
    new_pool: Ipv4Net,
    s: MigrationSources,
    gateway_id: Uuid,
    i: int,
)
    requires
        is_migration(m, effective_at, new_pool, s),
        0 <= i < s.gateways@.len(),
        0 <= s.gateways@[i].desired_revision,
        uuid_parsed(s.gateways@[i].id@) == Ok::<Uuid, Seq<char>>(gateway_id),
        forall|k: int|
            0 <= k < s.gateways@.len() && k != i ==> uuid_parsed((#[trigger] s.gateways@[k]).id@)
                != Ok::<Uuid, Seq<char>>(gateway_id),
    ensures
        m.plan.gateways@.contains_key(gateway_id),
        ({
            let row = s.gateways@[i];
            let before = row.state@;
            let future = m.plan.gateways@[gateway_id];
            let after = future.state@;
            let moves = m.plan.addresses@;
            &&& future.base_revision == row.desired_revision
            &&& after.revision == row.desired_revision + 1
            &&& after.gateway_id == before.gateway_id
            &&& after.interface_name == before.interface_name
            &&& after.listen_port == before.listen_port
            &&& after.mtu == before.mtu
            &&& after.acl_default == before.acl_default
            &&& after.routes.to_set() == before.routes.to_set()
            &&& after.acl_rules.to_multiset() == before.acl_rules.to_multiset()
            &&& after.compatibility_address == (if row.compatibility_address && row.kind@
                == "mikrotik"@ {
                Some((new_pool.first() + 1) as u32)
            } else {
                before.compatibility_address
            })
            &&& forall|a: Ipv4Addr| #[trigger]
                after.terminate_sources.contains(a) <==> exists|j: int|
                    0 <= j < moves.len() && (#[trigger] moves[j]).old_address == a
            &&& after.peers.len() == before.peers.len()
            &&& forall|k: int|
                0 <= k < after.peers.len() ==> exists|n: int|
                    0 <= n < before.peers.len() && (#[trigger] before.peers[n]).device_id
                        == (#[trigger] after.peers[k]).device_id && before.peers[n].user_id
                        == after.peers[k].user_id && before.peers[n].public_key
                        == after.peers[k].public_key && before.peers[n].group_ids
                        == after.peers[k].group_ids && (before.peers[n].allowed_address
                        == after.peers[k].allowed_address || exists|j: int|
                        0 <= j < moves.len() && (#[trigger] moves[j]).device_id
                            == after.peers[k].device_id && moves[j].new_address
                            == after.peers[k].allowed_address)
            &&& forall|n: int|
                0 <= n < before.peers.len() ==> exists|k: int|
                    0 <= k < after.peers.len() && (#[trigger] after.peers[k]).device_id == (
                    #[trigger] before.peers[n]).device_id && after.peers[k].user_id
                        == before.peers[n].user_id && after.peers[k].public_key
                        == before.peers[n].public_key && after.peers[k].group_ids
                        == before.peers[n].group_ids
        }),
{
    let row = s.gateways@[i];
    let before = row.state@;
    let moves = m.plan.addresses@;
    lemma_only_row(s.gateways@, gateway_id, i);
    assert(row_of(s.gateways@, gateway_id) is Some);
    let after = m.plan.gateways@[gateway_id].state@;
    let numbered = row.kind@ == "mikrotik"@ && row.compatibility_address;
    let draft = moved_state(
        ClientPool { cidr: new_pool },
        moves,
        numbered,
        row.desired_revision as u64,
        before,
    );
    law_canonical_routes(draft.routes);
    law_canonical_addresses(draft.terminate_sources);
    lemma_stable_sorted(draft.acl_rules);
    assert forall|a: Ipv4Addr| #[trigger]
        after.terminate_sources.contains(a) <==> exists|j: int|
            0 <= j < moves.len() && (#[trigger] moves[j]).old_address == a by {
        assert(after.terminate_sources.to_set().contains(a)
            == draft.terminate_sources.to_set().contains(a));
        if exists|j: int| 0 <= j < moves.len() && (#[trigger] moves[j]).old_address == a {
            let j = choose|j: int| 0 <= j < moves.len() && (#[trigger] moves[j]).old_address == a;
            assert(draft.terminate_sources[j] == a);
        }
        if draft.terminate_sources.contains(a) {
            let j = choose|j: int|
                0 <= j < draft.terminate_sources.len() && draft.terminate_sources[j] == a;
            assert(moves[j].old_address == a);
        }
    }
    lemma_canonical_peers(draft, arbitrary());
    assert forall|k: int| 0 <= k < after.peers.len() implies exists|n: int|
        0 <= n < before.peers.len() && (#[trigger] before.peers[n]).device_id == (
        #[trigger] after.peers[k]).device_id && before.peers[n].user_id == after.peers[k].user_id
            && before.peers[n].public_key == after.peers[k].public_key && before.peers[n].group_ids
            == after.peers[k].group_ids && (before.peers[n].allowed_address
            == after.peers[k].allowed_address || exists|j: int|
            0 <= j < moves.len() && (#[trigger] moves[j]).device_id == after.peers[k].device_id
                && moves[j].new_address == after.peers[k].allowed_address) by {
        let peer = after.peers[k];
        lemma_canonical_peers(draft, peer);
        assert(after.peers.contains(peer));
        let n = choose|n: int| 0 <= n < draft.peers.len() && draft.peers[n] == peer;
        let old = before.peers[n];
        assert(peer == moved_peer(moves, old));
        lemma_moves_hold(moves, old.device_id);
    }
    assert forall|n: int| 0 <= n < before.peers.len() implies exists|k: int|
        0 <= k < after.peers.len() && (#[trigger] after.peers[k]).device_id == (
        #[trigger] before.peers[n]).device_id && after.peers[k].user_id == before.peers[n].user_id
            && after.peers[k].public_key == before.peers[n].public_key && after.peers[k].group_ids
            == before.peers[n].group_ids by {
        let peer = draft.peers[n];
        assert(draft.peers.contains(peer));
        lemma_canonical_peers(draft, peer);
        let k = choose|k: int| 0 <= k < after.peers.len() && after.peers[k] == peer;
        assert(after.peers[k].device_id == before.peers[n].device_id);
    }
}

proof fn lemma_moves_hold(moves: Seq<AddressMove>, device_id: Uuid)
    ensures
        moved_to(moves, device_id) matches Some(a) ==> exists|j: int|
            0 <= j < moves.len() && (#[trigger] moves[j]).device_id == device_id
                && moves[j].new_address == a,
        moved_from(moves, device_id) matches Some(a) ==> exists|j: int|
            0 <= j < moves.len() && (#[trigger] moves[j]).device_id == device_id
                && moves[j].old_address == a,
    decreases moves.len(),
{
    if moves.len() > 0 {
        let less = moves.drop_last();
        lemma_moves_hold(less, device_id);
        assert(forall|j: int| 0 <= j < less.len() ==> less[j] == moves[j]);
        assert(moves[moves.len() - 1] == moves.last());
        if moves.last().device_id != device_id {
            if moved_to(less, device_id) is Some {
                let j = choose|j: int|
                    0 <= j < less.len() && (#[trigger] less[j]).device_id == device_id
                        && less[j].new_address == moved_to(less, device_id)->0;
                assert(moves[j].device_id == device_id);
            }
            if moved_from(less, device_id) is Some {
                let j = choose|j: int|
                    0 <= j < less.len() && (#[trigger] less[j]).device_id == device_id
                        && less[j].old_address == moved_from(less, device_id)->0;
                assert(moves[j].device_id == device_id);
            }
        }
    }
}

/// A migration is planned for a time that is more than half a minute away, while no other one goes
/// on, and into a pool that is another one and has room for clients.
pub proof fn law_migrations_are_planned_ahead(
    effective_at: Seq<char>,
    new_pool: Ipv4Net,
    now: Timestamp,
    s: MigrationSources,
)
    requires
        early_fault(effective_at, new_pool, now, s) is None,
        new_pool.wf(),
        s.old_pool.wf(),
    ensures
        timestamp_in(effective_at) matches Some(at) && (at.secs - now.secs > 30 || at.secs - now.secs
            == 30 && at.nanos > now.nanos),
        s.active <= 0,
        new_pool != s.old_pool,
        new_pool.last() - new_pool.first() >= 3,
        !(new_pool.first() <= s.old_pool.first() && s.old_pool.last() <= new_pool.last()),
{
    crate::ipv4::lemma_block(new_pool.base(), new_pool.bits());
    crate::ipv4::lemma_block(s.old_pool.base(), s.old_pool.bits());
    if new_pool.bits() > s.old_pool.bits() {
        vstd::arithmetic::power2::lemma_pow2_strictly_increases(
            (32 - new_pool.bits()) as nat,
            (32 - s.old_pool.bits()) as nat,
        );
    }
}

/// A plan still fits if and only if the pool is the one that it was made for, there are as many
/// devices as it moves, and each of them is one that it moves, from the address that it has.
pub proof fn law_plans_fit_what_they_were_made_for(
    moves: Seq<AddressMove>,
    expected_pool: Seq<char>,
    current_pool: Seq<char>,
    devices: Seq<LeaseRow>,
)
    requires
        forall|a: int, b: int|
            0 <= a < b < moves.len() ==> (#[trigger] moves[a]).device_id != (
            #[trigger] moves[b]).device_id,
    ensures
        source_fault(moves, expected_pool, current_pool, devices) is None <==> {
            &&& current_pool == expected_pool
            &&& devices.len() == moves.len()
            &&& forall|i: int|
                0 <= i < devices.len() ==> exists|j: int|
                    0 <= j < moves.len() && uuid_parsed((#[trigger] devices[i]).id@) == Ok::<
                        Uuid,
                        Seq<char>,
                    >((#[trigger] moves[j]).device_id) && address_parsed(devices[i].vpn_address@)
                        == Some(moves[j].old_address)
        },
{
    lemma_unmoved(moves, devices);
}

proof fn lemma_unmoved(moves: Seq<AddressMove>, devices: Seq<LeaseRow>)
    requires
        forall|a: int, b: int|
            0 <= a < b < moves.len() ==> (#[trigger] moves[a]).device_id != (
            #[trigger] moves[b]).device_id,
    ensures
        unmoved_devices_fault(moves, devices) is None <==> forall|i: int|
            0 <= i < devices.len() ==> exists|j: int|
                0 <= j < moves.len() && uuid_parsed((#[trigger] devices[i]).id@) == Ok::<
                    Uuid,
                    Seq<char>,
                >((#[trigger] moves[j]).device_id) && address_parsed(devices[i].vpn_address@)
                    == Some(moves[j].old_address),
    decreases devices.len(),
{
    if devices.len() > 0 {
        let less = devices.drop_last();
        lemma_unmoved(moves, less);
        assert(forall|i: int| 0 <= i < less.len() ==> less[i] == devices[i]);
        let last = devices.last();
        assert(devices[devices.len() - 1] == last);
        let id = uuid_parsed(last.id@)->Ok_0;
        lemma_moves_hold(moves, id);
        if unmoved_devices_fault(moves, devices) is None {
            assert forall|i: int| 0 <= i < devices.len() implies exists|j: int|
                0 <= j < moves.len() && uuid_parsed((#[trigger] devices[i]).id@) == Ok::<
                    Uuid,
                    Seq<char>,
                >((#[trigger] moves[j]).device_id) && address_parsed(devices[i].vpn_address@)
                    == Some(moves[j].old_address) by {
                if i < less.len() {
                    assert(less[i] == devices[i]);
                } else {
                    let j = choose|j: int|
                        0 <= j < moves.len() && (#[trigger] moves[j]).device_id == id
                            && moves[j].old_address == moved_from(moves, id)->0;
                    assert(uuid_parsed(devices[i].id@) == Ok::<Uuid, Seq<char>>(
                        moves[j].device_id,
                    ));
                }
            }
        }
        if forall|i: int|
            0 <= i < devices.len() ==> exists|j: int|
                0 <= j < moves.len() && uuid_parsed((#[trigger] devices[i]).id@) == Ok::<
                    Uuid,
                    Seq<char>,
                >((#[trigger] moves[j]).device_id) && address_parsed(devices[i].vpn_address@)
                    == Some(moves[j].old_address) {
            assert forall|i: int| 0 <= i < less.len() implies exists|j: int|
                0 <= j < moves.len() && uuid_parsed((#[trigger] less[i]).id@) == Ok::<
                    Uuid,
                    Seq<char>,
                >((#[trigger] moves[j]).device_id) && address_parsed(less[i].vpn_address@) == Some(
                    moves[j].old_address,
                ) by {
                assert(devices[i] == less[i]);
            }
            let n = devices.len() - 1;
            let j = choose|j: int|
                0 <= j < moves.len() && uuid_parsed(devices[n].id@) == Ok::<Uuid, Seq<char>>(
                    (#[trigger] moves[j]).device_id,
                ) && address_parsed(devices[n].vpn_address@) == Some(moves[j].old_address);
            lemma_moved_to(moves, j);
        }
    }
}

/// A migration is carried out only while it is armed, no gateway has another state since it was
/// planned, and the pool and the devices are what they were.
pub proof fn law_only_what_was_planned_is_carried_out(
    step: ApplyStep,
    row: MigrationRow,
    current_pool: Seq<char>,
    devices: Seq<LeaseRow>,
    gateways: Seq<MigrationGatewayRow>,
)
    requires
        is_apply_step(step, Some(row), current_pool, devices, gateways),
    ensures
        step is Apply ==> {
            &&& row.status@ == "armed"@
            &&& current_pool == row.old_pool@
            &&& devices.len() == row.addresses@.len()
            &&& forall|i: int|
                0 <= i < gateways.len() ==> (#[trigger] gateways[i]).desired_revision
                    == gateways[i].base_revision
        },
        step is Fail ==> row.status@ == "armed"@,
        row.status@ != "armed"@ ==> step is Refuse,
{
}

/// A gateway has validated what it should if and only if it names the revision and the digest that
/// the plan has for it.
pub proof fn law_preparations_match_the_plan(p: PreparationRow, revision: u64, hash: Seq<char>)
    ensures
        prepared_fault(Some(p), revision, hash) is None <==> p.future_revision as u64 == revision
            && p.expected_state_hash@ == hash,
        prepared_fault(None, revision, hash) is Some,
{
}

/// A migration can be armed if and only if it is being prepared, still fits, every gateway has
/// validated its future state and has no other since, and its time is to come.
pub proof fn law_arming_is_exact(
    row: MigrationRow,
    current_pool: Seq<char>,
    devices: Seq<LeaseRow>,
    gateways: Seq<MigrationGatewayRow>,
    now: Timestamp,
)
    ensures
        arm_fault(Some(row), current_pool, devices, gateways, now) is None <==> {
            &&& row.status@ == "preparing"@
            &&& source_fault(row.addresses@, row.old_pool@, current_pool, devices) is None
            &&& forall|i: int|
                0 <= i < gateways.len() ==> (#[trigger] gateways[i]).prepared
                    && gateways[i].desired_revision == gateways[i].base_revision
            &&& timestamp_in(row.effective_at@) matches Some(at) && (at.secs > now.secs || at.secs
                == now.secs && at.nanos > now.nanos)
        },
{
    lemma_missing(gateways);
}

proof fn lemma_missing(rows: Seq<MigrationGatewayRow>)
    ensures
        crate::migration::missing_of(rows) == 0 <==> forall|i: int|
            0 <= i < rows.len() ==> (#[trigger] rows[i]).prepared,
    decreases rows.len(),
{
    if rows.len() > 0 {
        let less = rows.drop_last();
        lemma_missing(less);
        assert(forall|i: int| 0 <= i < less.len() ==> less[i] == rows[i]);
        assert(rows[rows.len() - 1] == rows.last());
        if forall|i: int| 0 <= i < rows.len() ==> (#[trigger] rows[i]).prepared {
            assert forall|i: int| 0 <= i < less.len() implies (#[trigger] less[i]).prepared by {
                assert(rows[i].prepared);
            }
        }
        if crate::migration::missing_of(rows) == 0 {
            assert forall|i: int| 0 <= i < rows.len() implies (#[trigger] rows[i]).prepared by {
                if i < less.len() {
                    assert(less[i].prepared);
                }
            }
        }
    }
}

/// A migration can be planned where its time is more than half a minute away, no other one goes on,
/// both pools have room, and the new one is not around the old one.
pub proof fn law_sound_migrations_are_planned(
    effective_at: Seq<char>,
    new_pool: Ipv4Net,
    now: Timestamp,
    s: MigrationSources,
)
    requires
        timestamp_in(effective_at) is Some,
        timestamp_in(effective_at)->0.secs - now.secs > 30,
        s.active <= 0,
        new_pool.last() - new_pool.first() >= 3,
        s.old_pool.last() - s.old_pool.first() >= 3,
        new_pool != s.old_pool,
        new_pool.last() < s.old_pool.last() || s.old_pool.first() < new_pool.first(),
        crate::migration::routes_fault(s.routes@) is None,
    ensures
        early_fault(effective_at, new_pool, now, s) is None,
{
}

/// An armed migration is carried out where it still fits and no gateway has another state, and into
/// the pool that it was planned for; where it does not fit any more, it fails.
pub proof fn law_armed_migrations_are_carried_out(
    step: ApplyStep,
    row: MigrationRow,
    current_pool: Seq<char>,
    devices: Seq<LeaseRow>,
    gateways: Seq<MigrationGatewayRow>,
)
    requires
        is_apply_step(step, Some(row), current_pool, devices, gateways),
        row.status@ == "armed"@,
        network_parsed(row.new_pool@) is Some,
    ensures
        step is Apply <==> {
            &&& source_fault(row.addresses@, row.old_pool@, current_pool, devices) is None
            &&& forall|i: int|
                0 <= i < gateways.len() ==> (#[trigger] gateways[i]).desired_revision
                    == gateways[i].base_revision
        },
        step matches ApplyStep::Apply(pool) ==> network_parsed(row.new_pool@) == Some(
            (pool.base(), pool.bits()),
        ),
        !(step is Refuse),
        step is Apply ==> step.status_after() == Some("applied"@),
        step is Fail ==> step.status_after() == Some("failed"@),
{
    broadcast use Ipv4Net::lemma_of;

}

/// Only a migration that is being prepared can be cancelled.
pub proof fn law_only_preparations_are_cancelled(status: Seq<char>)
    ensures
        crate::migration::cancel_fault(status) is None <==> status == "preparing"@,
{
}
} // verus!
