//! How a packet filter reads what it is told: addresses, networks, protocols and ports in texts.

use vstd::prelude::*;

use crate::acl::{port_admitted, IpProtocol, PortRange};
use crate::ipv4::{address_text, block_size, Ipv4Addr, Ipv4Net};
use crate::text::{decimal, is_digit, lemma_decimal, lemma_decimal_injective};
use crate::unambiguous::lemma_network_text;

verus! {

/// Whether a text names a network that holds an address.
pub open spec fn names_network_of(text: Seq<char>, address: Ipv4Addr) -> bool {
    exists|net: Ipv4Net| text == #[trigger] net.text() && net.first() <= address <= net.last()
}

/// Whether a text names a protocol.
pub open spec fn names_protocol(text: Seq<char>, protocol: IpProtocol) -> bool {
    ||| text == "tcp"@ && protocol == IpProtocol::Tcp
    ||| text == "udp"@ && protocol == IpProtocol::Udp
    ||| text == "icmp"@ && protocol == IpProtocol::Icmp
}

/// Whether a text names ports among which a port is: one port, or the first and the last of some
/// with a hyphen between them.
pub open spec fn names_port(text: Seq<char>, port: Option<u16>) -> bool {
    &&& port is Some
    &&& exists|start: u16, end: u16| #[trigger]
        names_ports(text, start, end) && start <= port->0 && port->0 <= end
}

/// Whether a text names ports by the first and the last of them.
pub open spec fn names_ports(text: Seq<char>, start: u16, end: u16) -> bool {
    text == ports_named(start, end) || text == decimal(start as nat) && start == end
}

/// How the first and the last of some ports are written.
pub open spec fn ports_named(start: u16, end: u16) -> Seq<char> {
    decimal(start as nat) + seq!['-'] + decimal(end as nat)
}

/// The text of a network names the network.
pub proof fn lemma_names_network(net: Ipv4Net, address: Ipv4Addr)
    ensures
        names_network_of(net.text(), address) == net.holds(address),
{
    assert forall|other: Ipv4Net| net.text() == #[trigger] other.text() implies other == net by {
        lemma_network_text(net, other);
    }
}

/// An address with all bits is the network of that address alone.
pub proof fn lemma_names_host(address: Ipv4Addr, other: Ipv4Addr)
    ensures
        address_text(address) + "/32"@ == Ipv4Net::of(address, 32).text(),
        names_network_of(address_text(address) + "/32"@, other) == (address == other),
{
    broadcast use Ipv4Net::lemma_of;

    reveal_strlit("/32");
    reveal_with_fuel(decimal, 3);
    let net = Ipv4Net::of(address, 32);
    assert(decimal(32) =~= seq!['3', '2']);
    assert("/32"@ =~= seq!['/'] + decimal(32));
    assert(address_text(address) + "/32"@ =~= net.text());
    vstd::arithmetic::power2::lemma2_to64();
    assert(block_size(32) == 1);
    lemma_names_network(net, other);
}

/// One port names itself, and a first and a last one the ports between them.
pub proof fn lemma_names_port(ports: PortRange, port: Option<u16>, text: Seq<char>)
    requires
        text == (if ports.start == ports.end {
            decimal(ports.start as nat)
        } else {
            ports_named(ports.start, ports.end)
        }),
    ensures
        names_port(text, port) == port_admitted(Some(ports), port),
{
    let a = decimal(ports.start as nat);
    let b = decimal(ports.end as nat);
    lemma_decimal(ports.start as nat);
    lemma_decimal(ports.end as nat);
    assert forall|start: u16, end: u16| #[trigger] names_ports(text, start, end) implies start == ports.start && end == ports.end by {
        let c = decimal(start as nat);
        let d = decimal(end as nat);
        lemma_decimal(start as nat);
        lemma_decimal(end as nat);
        if text == ports_named(start, end) {
            assert(text[c.len() as int] == '-');
            if ports.start == ports.end {
                assert(is_digit(a[c.len() as int]));
            } else {
                if a.len() < c.len() {
                    assert(text[a.len() as int] == '-');
                    assert(is_digit(c[a.len() as int]));
                    assert(text[a.len() as int] == c[a.len() as int]);
                }
                if c.len() < a.len() {
                    assert(is_digit(a[c.len() as int]));
                    assert(text[c.len() as int] == a[c.len() as int]);
                }
                assert(a =~= text.take(a.len() as int));
                assert(c =~= text.take(c.len() as int));
                assert(b =~= text.skip(a.len() as int + 1));
                assert(d =~= text.skip(c.len() as int + 1));
                lemma_decimal_injective(ports.start as nat, start as nat);
                lemma_decimal_injective(ports.end as nat, end as nat);
            }
        } else {
            if ports.start == ports.end {
                lemma_decimal_injective(ports.start as nat, start as nat);
            } else {
                assert(text[a.len() as int] == '-');
                assert(is_digit(c[a.len() as int]));
            }
        }
    }
    if names_port(text, port) {
        let (start, end) = choose|start: u16, end: u16| #[trigger]
            names_ports(text, start, end) && start <= port->0 && port->0 <= end;
        assert(start == ports.start && end == ports.end);
    }
    if port is Some && ports.start <= port->0 <= ports.end {
        assert(names_ports(text, ports.start, ports.end));
    }
}

} // verus!
