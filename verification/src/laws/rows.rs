//! What reading stored rows promises.

use vstd::prelude::*;

use crate::desired::{
    devices_fault, ids_fault, nets_fault, rules_fault, sources_fault, DeviceRow, GatewaySources,
    RuleRow,
};
use crate::error::ErrorView;
use crate::ids::uuid_parsed;
use crate::ipv4::{address_parsed, network_parsed};
use crate::migration::{
    gateways_fault, moves_fault, routes_fault, GatewayStateRow, LeaseRow, RouteRow,
};
use crate::network::ClientPool;

use crate::rows::{
    db_addresses_fault, db_ids_fault, db_nets_fault, or_fault, signed_decimal, unless,
};
use crate::text::{decimal, texts};

verus! {

/// Of two faults the first one counts; there is none only where neither is, and a condition that
/// holds is none.
pub proof fn law_the_first_fault_counts(
    first: Option<ErrorView>,
    second: Option<ErrorView>,
    holds: bool,
    fault: ErrorView,
)
    ensures
        or_fault(first, second) is None <==> first is None && second is None,
        first is Some ==> or_fault(first, second) == first,
        first is None ==> or_fault(first, second) == second,
        unless(holds, fault) is None <==> holds,
        !holds ==> unless(holds, fault) == Some(fault),
{
}

/// Stored identifiers are read where every one of them is.
pub proof fn law_stored_identifiers_are_read(items: Seq<Seq<char>>, field: Seq<char>)
    ensures
        db_ids_fault(items, field) is None <==> forall|i: int|
            0 <= i < items.len() ==> uuid_parsed((#[trigger] items[i])) is Ok,
    decreases items.len(),
{
    if items.len() > 0 {
        let less = items.drop_last();
        law_stored_identifiers_are_read(less, field);
        assert(items[items.len() - 1] == items.last());
        assert forall|i: int| 0 <= i < less.len() implies #[trigger] less[i] == items[i] by {}
        if db_ids_fault(items, field) is None {
            assert forall|i: int| 0 <= i < items.len() implies uuid_parsed((#[trigger] items[i])) is Ok by {
                if i < less.len() {
                    assert(less[i] == items[i]);
                }
            }
        }
        if forall|i: int| 0 <= i < items.len() ==> uuid_parsed((#[trigger] items[i])) is Ok {
            assert forall|i: int| 0 <= i < less.len() implies uuid_parsed((#[trigger] less[i])) is Ok by {
                assert(items[i] == less[i]);
            }
        }
    }
}

/// Stored addresses are read where every one of them is.
pub proof fn law_stored_addresses_are_read(items: Seq<Seq<char>>, field: Seq<char>)
    ensures
        db_addresses_fault(items, field) is None <==> forall|i: int|
            0 <= i < items.len() ==> address_parsed((#[trigger] items[i])) is Some,
    decreases items.len(),
{
    if items.len() > 0 {
        let less = items.drop_last();
        law_stored_addresses_are_read(less, field);
        assert(items[items.len() - 1] == items.last());
        assert forall|i: int| 0 <= i < less.len() implies #[trigger] less[i] == items[i] by {}
        if db_addresses_fault(items, field) is None {
            assert forall|i: int| 0 <= i < items.len() implies address_parsed((#[trigger] items[i])) is Some by {
                if i < less.len() {
                    assert(less[i] == items[i]);
                }
            }
        }
        if forall|i: int| 0 <= i < items.len() ==> address_parsed((#[trigger] items[i])) is Some {
            assert forall|i: int| 0 <= i < less.len() implies address_parsed((#[trigger] less[i])) is Some by {
                assert(items[i] == less[i]);
            }
        }
    }
}

/// Stored networks are read where every one of them is.
pub proof fn law_stored_networks_are_read(items: Seq<Seq<char>>, field: Seq<char>)
    ensures
        db_nets_fault(items, field) is None <==> forall|i: int|
            0 <= i < items.len() ==> network_parsed((#[trigger] items[i])) is Some,
    decreases items.len(),
{
    if items.len() > 0 {
        let less = items.drop_last();
        law_stored_networks_are_read(less, field);
        assert(items[items.len() - 1] == items.last());
        assert forall|i: int| 0 <= i < less.len() implies #[trigger] less[i] == items[i] by {}
        if db_nets_fault(items, field) is None {
            assert forall|i: int| 0 <= i < items.len() implies network_parsed((#[trigger] items[i])) is Some by {
                if i < less.len() {
                    assert(less[i] == items[i]);
                }
            }
        }
        if forall|i: int| 0 <= i < items.len() ==> network_parsed((#[trigger] items[i])) is Some {
            assert forall|i: int| 0 <= i < less.len() implies network_parsed((#[trigger] less[i])) is Some by {
                assert(items[i] == less[i]);
            }
        }
    }
}

/// Identifiers of users and groups are read where every one of them is.
pub proof fn law_named_identifiers_are_read(items: Seq<Seq<char>>, field: Seq<char>)
    ensures
        ids_fault(items, field) is None <==> forall|i: int|
            0 <= i < items.len() ==> uuid_parsed((#[trigger] items[i])) is Ok,
    decreases items.len(),
{
    if items.len() > 0 {
        let less = items.drop_last();
        law_named_identifiers_are_read(less, field);
        assert(items[items.len() - 1] == items.last());
        assert forall|i: int| 0 <= i < less.len() implies #[trigger] less[i] == items[i] by {}
        if ids_fault(items, field) is None {
            assert forall|i: int| 0 <= i < items.len() implies uuid_parsed((#[trigger] items[i])) is Ok by {
                if i < less.len() {
                    assert(less[i] == items[i]);
                }
            }
        }
        if forall|i: int| 0 <= i < items.len() ==> uuid_parsed((#[trigger] items[i])) is Ok {
            assert forall|i: int| 0 <= i < less.len() implies uuid_parsed((#[trigger] less[i])) is Ok by {
                assert(items[i] == less[i]);
            }
        }
    }
}

/// The routes of a site are read where every one of them is.
pub proof fn law_routes_of_sites_are_read(items: Seq<Seq<char>>, field: Seq<char>)
    ensures
        nets_fault(items, field) is None <==> forall|i: int|
            0 <= i < items.len() ==> network_parsed((#[trigger] items[i])) is Some,
    decreases items.len(),
{
    if items.len() > 0 {
        let less = items.drop_last();
        law_routes_of_sites_are_read(less, field);
        assert(items[items.len() - 1] == items.last());
        assert forall|i: int| 0 <= i < less.len() implies #[trigger] less[i] == items[i] by {}
        if nets_fault(items, field) is None {
            assert forall|i: int| 0 <= i < items.len() implies network_parsed((#[trigger] items[i])) is Some by {
                if i < less.len() {
                    assert(less[i] == items[i]);
                }
            }
        }
        if forall|i: int| 0 <= i < items.len() ==> network_parsed((#[trigger] items[i])) is Some {
            assert forall|i: int| 0 <= i < less.len() implies network_parsed((#[trigger] less[i])) is Some by {
                assert(items[i] == less[i]);
            }
        }
    }
}

/// The routes of gateways are read where every one of them is, with its gateway and its site.
pub proof fn law_routes_of_gateways_are_read(items: Seq<RouteRow>)
    ensures
        routes_fault(items) is None <==> forall|i: int|
            0 <= i < items.len() ==> uuid_parsed((#[trigger] items[i]).gateway_id@) is Ok && uuid_parsed(items[i].site_id@) is Ok && network_parsed(items[i].cidr@) is Some,
    decreases items.len(),
{
    if items.len() > 0 {
        let less = items.drop_last();
        law_routes_of_gateways_are_read(less);
        assert(items[items.len() - 1] == items.last());
        assert forall|i: int| 0 <= i < less.len() implies #[trigger] less[i] == items[i] by {}
        if routes_fault(items) is None {
            assert forall|i: int| 0 <= i < items.len() implies uuid_parsed((#[trigger] items[i]).gateway_id@) is Ok && uuid_parsed(items[i].site_id@) is Ok && network_parsed(items[i].cidr@) is Some by {
                if i < less.len() {
                    assert(less[i] == items[i]);
                }
            }
        }
        if forall|i: int| 0 <= i < items.len() ==> uuid_parsed((#[trigger] items[i]).gateway_id@) is Ok && uuid_parsed(items[i].site_id@) is Ok && network_parsed(items[i].cidr@) is Some {
            assert forall|i: int| 0 <= i < less.len() implies uuid_parsed((#[trigger] less[i]).gateway_id@) is Ok && uuid_parsed(less[i].site_id@) is Ok && network_parsed(less[i].cidr@) is Some by {
                assert(items[i] == less[i]);
            }
        }
    }
}

/// The states of gateways are read where every one of them has an identifier.
pub proof fn law_states_of_gateways_are_read(items: Seq<GatewayStateRow>)
    ensures
        gateways_fault(items) is None <==> forall|i: int|
            0 <= i < items.len() ==> uuid_parsed((#[trigger] items[i]).id@) is Ok,
    decreases items.len(),
{
    if items.len() > 0 {
        let less = items.drop_last();
        law_states_of_gateways_are_read(less);
        assert(items[items.len() - 1] == items.last());
        assert forall|i: int| 0 <= i < less.len() implies #[trigger] less[i] == items[i] by {}
        if gateways_fault(items) is None {
            assert forall|i: int| 0 <= i < items.len() implies uuid_parsed((#[trigger] items[i]).id@) is Ok by {
                if i < less.len() {
                    assert(less[i] == items[i]);
                }
            }
        }
        if forall|i: int| 0 <= i < items.len() ==> uuid_parsed((#[trigger] items[i]).id@) is Ok {
            assert forall|i: int| 0 <= i < less.len() implies uuid_parsed((#[trigger] less[i]).id@) is Ok by {
                assert(items[i] == less[i]);
            }
        }
    }
}

/// A device is read where it and its user have identifiers, it has an address, and its groups have
/// identifiers.
pub proof fn law_devices_are_read(row: DeviceRow)
    ensures
        row.fault() is None <==> {
            &&& uuid_parsed(row.user_id@) is Ok
            &&& uuid_parsed(row.id@) is Ok
            &&& address_parsed(row.vpn_address@) is Some
            &&& forall|i: int|
                0 <= i < row.group_ids@.len() ==> uuid_parsed((#[trigger] row.group_ids@[i])@) is Ok
        },
{
    lemma_texts_are_read(row.group_ids@, "group"@);
}

proof fn lemma_texts_are_read(items: Seq<String>, field: Seq<char>)
    ensures
        ids_fault(texts(items), field) is None <==> forall|i: int|
            0 <= i < items.len() ==> uuid_parsed((#[trigger] items[i])@) is Ok,
{
    let list = texts(items);
    law_named_identifiers_are_read(list, field);
    assert forall|i: int| 0 <= i < items.len() implies #[trigger] list[i] == items[i]@ by {}
    if ids_fault(list, field) is None {
        assert forall|i: int| 0 <= i < items.len() implies uuid_parsed(
            (#[trigger] items[i])@,
        ) is Ok by {
            assert(uuid_parsed(list[i]) is Ok);
        }
    }
    if forall|i: int| 0 <= i < items.len() ==> uuid_parsed((#[trigger] items[i])@) is Ok {
        assert forall|i: int| 0 <= i < list.len() implies uuid_parsed(#[trigger] list[i]) is Ok by {
            assert(uuid_parsed(items[i]@) is Ok);
        }
    }
}

/// A rule is read where it has an identifier, those whom it is about have, its action and its
/// protocol are known, its destination is a network, and it has both ends of its ports, in order and
/// the first of them a port, or neither.
pub proof fn law_rules_are_read(row: RuleRow)
    ensures
        row.fault() is None <==> {
            &&& uuid_parsed(row.id@) is Ok
            &&& forall|i: int|
                0 <= i < row.users@.len() ==> uuid_parsed((#[trigger] row.users@[i])@) is Ok
            &&& forall|i: int|
                0 <= i < row.groups@.len() ==> uuid_parsed((#[trigger] row.groups@[i])@) is Ok
            &&& row.port_start is None && row.port_end is None || row.port_start is Some
                && row.port_end is Some && 0 <= row.port_start->0 && row.port_start->0 <= 65535
                && row.port_start->0 <= row.port_end->0
            &&& row.action@ == "allow"@ || row.action@ == "deny"@
            &&& network_parsed(row.destination@) is Some
            &&& row.protocol@ == "any"@ || row.protocol@ == "tcp"@ || row.protocol@ == "udp"@
                || row.protocol@ == "icmp"@
        },
{
    lemma_texts_are_read(row.users@, "ACL user"@);
    lemma_texts_are_read(row.groups@, "ACL group"@);
}

proof fn lemma_rules_are_read(items: Seq<RuleRow>)
    ensures
        rules_fault(items) is None <==> forall|i: int|
            0 <= i < items.len() ==> (#[trigger] items[i]).fault() is None,
    decreases items.len(),
{
    if items.len() > 0 {
        let less = items.drop_last();
        lemma_rules_are_read(less);
        assert(items[items.len() - 1] == items.last());
        assert forall|i: int| 0 <= i < less.len() implies #[trigger] less[i] == items[i] by {}
        if rules_fault(items) is None {
            assert forall|i: int| 0 <= i < items.len() implies (#[trigger] items[i]).fault() is None by {
                if i < less.len() {
                    assert(less[i] == items[i]);
                }
            }
        }
        if forall|i: int| 0 <= i < items.len() ==> (#[trigger] items[i]).fault() is None {
            assert forall|i: int| 0 <= i < less.len() implies (#[trigger] less[i]).fault() is None by {
                assert(items[i] == less[i]);
            }
        }
    }
}

proof fn lemma_devices_are_read(items: Seq<DeviceRow>, grants: Seq<Seq<char>>)
    ensures
        devices_fault(items, grants) is None <==> forall|i: int|
            0 <= i < items.len() ==> (!(#[trigger] items[i]).let_in(grants) || items[i].fault() is None),
    decreases items.len(),
{
    if items.len() > 0 {
        let less = items.drop_last();
        lemma_devices_are_read(less, grants);
        assert(items[items.len() - 1] == items.last());
        assert forall|i: int| 0 <= i < less.len() implies #[trigger] less[i] == items[i] by {}
        if devices_fault(items, grants) is None {
            assert forall|i: int| 0 <= i < items.len() implies (!(#[trigger] items[i]).let_in(grants) || items[i].fault() is None) by {
                if i < less.len() {
                    assert(less[i] == items[i]);
                }
            }
        }
        if forall|i: int| 0 <= i < items.len() ==> (!(#[trigger] items[i]).let_in(grants) || items[i].fault() is None) {
            assert forall|i: int| 0 <= i < less.len() implies (!(#[trigger] less[i]).let_in(grants) || less[i].fault() is None) by {
                assert(items[i] == less[i]);
            }
        }
    }
}

/// The state of a gateway is drawn up where there is such a gateway, of a site, and its routes, the
/// devices that are let in, the rules and what it does by default can be read; the clients' pool has
/// to be one only where the gateway gets an address in it.
pub proof fn law_states_are_drawn_up_from_what_can_be_read(s: GatewaySources)
    ensures
        sources_fault(s) is None <==> {
            &&& s.gateway is Some
            &&& uuid_parsed(s.gateway->0.site_id@) is Ok
            &&& forall|i: int|
                0 <= i < texts(s.routes@).len() ==> network_parsed(
                    #[trigger] texts(s.routes@)[i],
                ) is Some
            &&& forall|i: int|
                0 <= i < s.devices@.len() ==> ((#[trigger] s.devices@[i]).let_in(texts(s.grants@))
                    ==> s.devices@[i].fault() is None)
            &&& forall|i: int| 0 <= i < s.rules@.len() ==> (#[trigger] s.rules@[i]).fault() is None
            &&& s.gateway->0.compatibility_address && s.gateway->0.kind@ == "mikrotik"@
                ==> network_parsed(s.client_pool@) is Some
            &&& s.gateway->0.acl_default@ == "allow"@ || s.gateway->0.acl_default@ == "deny"@
        },
{
    law_routes_of_sites_are_read(texts(s.routes@), "site route"@);
    lemma_devices_are_read(s.devices@, texts(s.grants@));
    lemma_rules_are_read(s.rules@);
}

/// Devices are moved where the pool has room for each of them between its reserved addresses, and
/// each has an identifier and an address.
pub proof fn law_devices_are_moved_where_there_is_room(pool: ClientPool, rows: Seq<LeaseRow>)
    ensures
        moves_fault(pool, rows) is None <==> forall|i: int|
            0 <= i < rows.len() ==> uuid_parsed((#[trigger] rows[i]).id@) is Ok && address_parsed(
                rows[i].vpn_address@,
            ) is Some && pool.cidr.first() + 2 + i < pool.cidr.last(),
    decreases rows.len(),
{
    if rows.len() > 0 {
        let less = rows.drop_last();
        law_devices_are_moved_where_there_is_room(pool, less);
        assert(rows[rows.len() - 1] == rows.last());
        if moves_fault(pool, rows) is None {
            assert forall|i: int| 0 <= i < rows.len() implies uuid_parsed(
                (#[trigger] rows[i]).id@,
            ) is Ok && address_parsed(rows[i].vpn_address@) is Some && pool.cidr.first() + 2 + i
                < pool.cidr.last() by {
                if i < less.len() {
                    assert(less[i] == rows[i]);
                }
            }
        }
        if forall|i: int|
            0 <= i < rows.len() ==> uuid_parsed((#[trigger] rows[i]).id@) is Ok && address_parsed(
                rows[i].vpn_address@,
            ) is Some && pool.cidr.first() + 2 + i < pool.cidr.last() {
            assert forall|i: int| 0 <= i < less.len() implies uuid_parsed(
                (#[trigger] less[i]).id@,
            ) is Ok && address_parsed(less[i].vpn_address@) is Some && pool.cidr.first() + 2 + i
                < pool.cidr.last() by {
                assert(rows[i] == less[i]);
            }
        }
    }
}

/// A negative number has a sign before its digits.
pub proof fn law_numbers_have_signs(n: int)
    ensures
        n >= 0 ==> signed_decimal(n) == decimal(n as nat),
        n < 0 ==> signed_decimal(n) == "-"@ + decimal((0 - n) as nat),
{
}

} // verus!
