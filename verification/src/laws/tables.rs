//! What a gateway's nftables table promises, read as nftables reads it.

use vstd::prelude::*;

use crate::acl::{acl_outcome, AclAction, AclRule, IpProtocol, PacketContext};
use crate::config::network_texts;
use crate::ids::{uuid_digits, uuid_text, Uuid};
use crate::ipv4::{address_text, lemma_address_text_injective, Ipv4Addr, Ipv4Net};
use crate::laws::reading::{
    lemma_names_network, lemma_names_port, names_network_of, names_port, names_protocol,
};
use crate::linux::{
    has_stray_ports, is_interface_char, law_rendered_policy_is_the_acl, nft_default, nft_guards,
    nft_header, nft_policy, nft_ports, nft_protocol, nft_rule, nft_rules, nftables_text,
    peer_addresses, state_problem, table_text, verdict_text,
};
use crate::policy::{first_line, has_address, is_routed, policy_of, PolicyLine};
use crate::state::{PeerView, StateView};
use crate::text::{decimal, hex_digit, is_digit, joined, lemma_decimal};

verus! {

/// The parts of a text between separators.
pub open spec fn parts_of(s: Seq<char>, separator: char) -> Seq<Seq<char>>
    decreases s.len(),
{
    if s.len() == 0 {
        seq![s]
    } else {
        let before = parts_of(s.drop_last(), separator);
        if s.last() == separator {
            before.push(Seq::empty())
        } else {
            before.drop_last().push(before.last().push(s.last()))
        }
    }
}

/// Whether a text names an address, or a network that holds it.
pub open spec fn names_place(text: Seq<char>, address: Ipv4Addr) -> bool {
    text == address_text(address) || names_network_of(text, address)
}

/// Whether an element of a set names an address; all but the last end with a comma.
pub open spec fn element_names(element: Seq<char>, address: Ipv4Addr) -> bool {
    ||| names_place(element, address)
    ||| element.len() > 0 && element.last() == ',' && names_place(element.drop_last(), address)
}

/// Where the set ends that begins at a word.
pub open spec fn set_end(words: Seq<Seq<char>>, i: int) -> int
    decreases words.len() - i,
{
    if i < 0 || i >= words.len() || words[i] == "}"@ {
        i
    } else {
        set_end(words, i + 1)
    }
}

/// Whether what an address is held against at a word, a set or one network, names the address.
pub open spec fn operand_names(words: Seq<Seq<char>>, i: int, address: Ipv4Addr) -> bool {
    if words[i] == "{"@ {
        exists|k: int|
            i < k < set_end(words, i + 1) && element_names(#[trigger] words[k], address)
    } else {
        names_place(words[i], address)
    }
}

/// Where what an address is held against ends.
pub open spec fn operand_end(words: Seq<Seq<char>>, i: int) -> int {
    if words[i] == "{"@ {
        set_end(words, i + 1) + 1
    } else {
        i + 1
    }
}

/// A packet that arrives at a gateway.
pub struct Arrival {
    /// The interface at which it arrives.
    pub interface_name: Seq<char>,
    pub source: Ipv4Addr,
    pub packet: PacketContext,
    /// Whether it opens a connection; else it belongs to one that was let pass.
    pub opens: bool,
}

/// What the words of a rule say of a packet: the verdict at their end where all conditions before
/// it hold, and nothing where one does not.
pub open spec fn said(words: Seq<Seq<char>>, i: int, a: Arrival) -> Option<Seq<char>>
    decreases
            if i < words.len() {
                words.len() - i
            } else {
                0
            },
{
    if i < 0 || i >= words.len() {
        None
    } else if words[i] == "ip"@ {
        let place = if words[i + 1] == "saddr"@ {
            a.source
        } else {
            a.packet.destination
        };
        let negated = words[i + 2] == "!="@;
        let from = if negated {
            i + 3
        } else {
            i + 2
        };
        if (words[i + 1] == "saddr"@ || words[i + 1] == "daddr"@) && operand_end(words, from) > i
            && operand_names(words, from, place) != negated {
            said(words, operand_end(words, from), a)
        } else {
            None
        }
    } else if words[i] == "meta"@ {
        if words[i + 1] == "l4proto"@ && names_protocol(words[i + 2], a.packet.protocol) {
            said(words, i + 3, a)
        } else {
            None
        }
    } else if words[i] == "tcp"@ || words[i] == "udp"@ {
        if words[i + 1] == "dport"@ && names_protocol(words[i], a.packet.protocol) && names_port(
            words[i + 2],
            a.packet.destination_port,
        ) {
            said(words, i + 3, a)
        } else {
            None
        }
    } else if words[i] == "iifname"@ {
        if words[i + 1] == "!="@ && words[i + 2] != seq!['"'] + a.interface_name + seq!['"'] {
            said(words, i + 3, a)
        } else {
            None
        }
    } else if words[i] == "ct"@ {
        if words[i + 1] == "state"@ && words[i + 2] == "established,related"@ && !a.opens {
            said(words, i + 3, a)
        } else {
            None
        }
    } else {
        Some(words[i])
    }
}

/// What a line says of a packet, if it is a rule of a table's chain for forwarded packets.
pub open spec fn line_says(line: Seq<char>, table: Seq<char>, a: Arrival) -> Option<Seq<char>> {
    let start = "add rule inet "@ + table + " forward "@;
    if start.is_prefix_of(line) {
        said(parts_of(line.skip(start.len() as int), ' '), 0, a)
    } else {
        None
    }
}

/// What some lines say of a packet: what the first one says that says something.
pub open spec fn lines_say(lines: Seq<Seq<char>>, table: Seq<char>, a: Arrival) -> Option<Seq<char>>
    decreases lines.len(),
{
    if lines.len() == 0 {
        None
    } else {
        match lines_say(lines.drop_last(), table, a) {
            Some(verdict) => Some(verdict),
            None => line_says(lines.last(), table, a),
        }
    }
}

/// What a table does with a packet.
pub open spec fn table_says(text: Seq<char>, table: Seq<char>, a: Arrival) -> Option<Seq<char>> {
    lines_say(parts_of(text, '\n'), table, a)
}

proof fn lemma_parts_nonempty(s: Seq<char>, c: char)
    ensures
        parts_of(s, c).len() > 0,
    decreases s.len(),
{
    if s.len() > 0 {
        lemma_parts_nonempty(s.drop_last(), c);
    }
}

proof fn lemma_parts_add(x: Seq<char>, y: Seq<char>, c: char)
    ensures
        parts_of(x + seq![c] + y, c) == parts_of(x, c) + parts_of(y, c),
    decreases y.len(),
{
    let whole = x + seq![c] + y;
    lemma_parts_nonempty(x, c);
    lemma_parts_nonempty(y, c);
    if y.len() == 0 {
        assert(whole.drop_last() =~= x);
        assert(whole.last() == c);
        assert(y =~= Seq::<char>::empty());
        assert(parts_of(whole, c) =~= parts_of(x, c) + parts_of(y, c));
    } else {
        let less = y.drop_last();
        lemma_parts_add(x, less, c);
        lemma_parts_nonempty(less, c);
        assert(whole.drop_last() =~= x + seq![c] + less);
        assert(whole.last() == y.last());
        assert(parts_of(whole, c) =~= parts_of(x, c) + parts_of(y, c));
    }
}

proof fn lemma_one_part(s: Seq<char>, c: char)
    requires
        !s.contains(c),
    ensures
        parts_of(s, c) == seq![s],
    decreases s.len(),
{
    if s.len() > 0 {
        let less = s.drop_last();
        assert forall|i: int| 0 <= i < less.len() implies less[i] != c by {
            assert(s[i] == less[i]);
            assert(s.contains(s[i]));
        }
        lemma_one_part(less, c);
        assert(s.contains(s[s.len() - 1]));
        assert(less.push(s.last()) =~= s);
        assert(parts_of(s, c) =~= seq![s]);
    }
}

/// Words with a blank between neighbours.
spec fn spaced(words: Seq<Seq<char>>) -> Seq<char> {
    joined(words, seq![' '])
}

proof fn lemma_spaced_parts(words: Seq<Seq<char>>)
    requires
        words.len() > 0,
        forall|i: int| 0 <= i < words.len() ==> !(#[trigger] words[i]).contains(' '),
    ensures
        parts_of(spaced(words), ' ') == words,
    decreases words.len(),
{
    if words.len() == 1 {
        lemma_one_part(words[0], ' ');
        assert(words =~= seq![words[0]]);
    } else {
        let less = words.drop_last();
        assert forall|i: int| 0 <= i < less.len() implies !(#[trigger] less[i]).contains(' ') by {
            assert(less[i] == words[i]);
        }
        lemma_spaced_parts(less);
        lemma_parts_add(spaced(less), words.last(), ' ');
        assert(!words[words.len() - 1].contains(' '));
        lemma_one_part(words.last(), ' ');
        assert(less + seq![words.last()] =~= words);
    }
}

proof fn lemma_spaced_add(a: Seq<Seq<char>>, b: Seq<Seq<char>>)
    requires
        a.len() > 0,
    ensures
        spaced(a + b) == (if b.len() == 0 {
            spaced(a)
        } else {
            spaced(a) + seq![' '] + spaced(b)
        }),
    decreases b.len(),
{
    if b.len() == 0 {
        assert(a + b =~= a);
    } else {
        let less = b.drop_last();
        lemma_spaced_add(a, less);
        assert((a + b).drop_last() =~= a + less);
        assert((a + b).last() == b.last());
        if b.len() == 1 {
            assert(a + less =~= a);
            assert(spaced(b) == b[0]);
        } else {
            assert(spaced(b) == spaced(less) + seq![' '] + b.last());
            assert(spaced(a + b) =~= spaced(a) + seq![' '] + spaced(b));
        }
    }
}

/// The elements of a set as words: all but the last with a comma.
spec fn element_words(elements: Seq<Seq<char>>) -> Seq<Seq<char>> {
    Seq::new(
        elements.len(),
        |i: int|
            if i < elements.len() - 1 {
                elements[i].push(',')
            } else {
                elements[i]
            },
    )
}

proof fn lemma_elements_spaced(elements: Seq<Seq<char>>)
    requires
        elements.len() > 0,
    ensures
        joined(elements, ", "@) == spaced(element_words(elements)),
    decreases elements.len(),
{
    reveal_strlit(", ");
    assert(", "@ =~= seq![',', ' ']);
    let words = element_words(elements);
    if elements.len() == 1 {
        assert(words =~= seq![elements[0]]);
    } else {
        let less = elements.drop_last();
        lemma_elements_spaced(less);
        lemma_commas(less);
        let marked = words.drop_last();
        assert(marked =~= commas(less));
        assert(words.last() == elements.last());
        assert(joined(elements, ", "@) == joined(less, ", "@) + ", "@ + elements.last());
        assert(spaced(words) == spaced(marked) + seq![' '] + elements.last());
        assert(joined(elements, ", "@) =~= spaced(words));
    }
}

/// Elements as words, each with a comma.
spec fn commas(elements: Seq<Seq<char>>) -> Seq<Seq<char>> {
    Seq::new(elements.len(), |i: int| elements[i].push(','))
}

proof fn lemma_commas(elements: Seq<Seq<char>>)
    requires
        elements.len() > 0,
    ensures
        spaced(commas(elements)) == spaced(element_words(elements)).push(','),
{
    let n = elements.len() - 1;
    let words = element_words(elements);
    let marked = commas(elements);
    if n == 0 {
        assert(words[0] == elements[0]);
        assert(marked[0] == elements[0].push(','));
    } else {
        assert(marked.drop_last() =~= words.drop_last());
        assert(marked.last() == words.last().push(','));
        assert(spaced(marked) =~= spaced(words).push(','));
    }
}

proof fn lemma_set_end(words: Seq<Seq<char>>, i: int, end: int)
    requires
        0 <= i <= end < words.len(),
        forall|k: int| i <= k < end ==> #[trigger] words[k] != "}"@,
        words[end] == "}"@,
    ensures
        set_end(words, i) == end,
    decreases end - i,
{
    if i < end {
        assert(words[i] != "}"@);
        lemma_set_end(words, i + 1, end);
    }
}

/// Whether a text is one that an address or a network can have: it begins with a digit, and has
/// neither blanks nor commas nor line breaks.
spec fn is_place(text: Seq<char>) -> bool {
    &&& text.len() > 0
    &&& is_digit(text[0])
    &&& !text.contains(' ')
    &&& !text.contains(',')
    &&& !text.contains('\n')
}

proof fn lemma_address_is_place(a: Ipv4Addr)
    ensures
        is_place(address_text(a)),
        !address_text(a).contains('/'),
{
    let n = a as nat;
    let (p, q, r, s) = (
        decimal(n / 0x100_0000),
        decimal((n / 0x1_0000) % 0x100),
        decimal((n / 0x100) % 0x100),
        decimal(n % 0x100),
    );
    lemma_decimal(n / 0x100_0000);
    lemma_decimal((n / 0x1_0000) % 0x100);
    lemma_decimal((n / 0x100) % 0x100);
    lemma_decimal(n % 0x100);
    let text = address_text(a);
    assert(text =~= p + seq!['.'] + q + seq!['.'] + r + seq!['.'] + s);
    assert(text[0] == p[0]);
    assert forall|i: int| 0 <= i < text.len() implies is_digit(#[trigger] text[i]) || text[i]
        == '.' by {
        let (b, c, d) = (p.len() + 1, p.len() + 1 + q.len() + 1, p.len() + 1 + q.len() + 1 + r.len()
            + 1);
        if i < p.len() {
            assert(text[i] == p[i]);
        } else if b <= i < b + q.len() {
            assert(text[i] == q[i - b]);
        } else if c <= i < c + r.len() {
            assert(text[i] == r[i - c]);
        } else if d <= i {
            assert(text[i] == s[i - d]);
        }
    }
}

proof fn lemma_network_is_place(net: Ipv4Net)
    ensures
        is_place(net.text()),
        net.text().contains('/'),
{
    let base = address_text(net.base());
    let bits = decimal(net.bits() as nat);
    lemma_address_is_place(net.base());
    lemma_decimal(net.bits() as nat);
    let text = net.text();
    assert(text == base + seq!['/'] + bits);
    assert(text[base.len() as int] == '/');
    assert(text[0] == base[0]);
    assert forall|i: int| 0 <= i < text.len() implies (#[trigger] text[i]) != ' ' && text[i] != ','
        && text[i] != '\n' by {
        if i < base.len() {
            assert(text[i] == base[i]);
            assert(base.contains(base[i]));
        } else if i > base.len() {
            assert(text[i] == bits[i - base.len() - 1]);
            assert(is_digit(bits[i - base.len() - 1]));
        }
    }
}

/// What names a place has no comma.
proof fn lemma_places_have_no_comma(text: Seq<char>, address: Ipv4Addr)
    requires
        names_place(text, address),
    ensures
        !text.contains(','),
{
    lemma_address_is_place(address);
    if names_network_of(text, address) {
        let net = choose|net: Ipv4Net|
            text == #[trigger] net.text() && net.first() <= address <= net.last();
        lemma_network_is_place(net);
    }
}

proof fn lemma_address_names(p: Ipv4Addr, address: Ipv4Addr)
    ensures
        names_place(address_text(p), address) == (p == address),
{
    lemma_address_is_place(p);
    if address_text(p) == address_text(address) {
        lemma_address_text_injective(p, address);
    }
    assert forall|net: Ipv4Net| address_text(p) != #[trigger] net.text() by {
        lemma_network_is_place(net);
    }
}

proof fn lemma_network_names(net: Ipv4Net, address: Ipv4Addr)
    ensures
        names_place(net.text(), address) == net.holds(address),
{
    lemma_names_network(net, address);
    lemma_network_is_place(net);
    lemma_address_is_place(address);
}

/// An element names what it names without its comma.
proof fn lemma_element(elements: Seq<Seq<char>>, i: int, address: Ipv4Addr)
    requires
        0 <= i < elements.len(),
        is_place(elements[i]),
    ensures
        element_names(element_words(elements)[i], address) == names_place(elements[i], address),
        !element_words(elements)[i].contains(' '),
        element_words(elements)[i].len() > 0,
        is_digit(element_words(elements)[i][0]),
{
    let element = elements[i];
    let word = element_words(elements)[i];
    if i < elements.len() - 1 {
        assert(word == element.push(','));
        assert(word.drop_last() =~= element);
        assert(word[word.len() - 1] == ',');
        assert(word.contains(','));
        if names_place(word, address) {
            lemma_places_have_no_comma(word, address);
        }
        assert forall|k: int| 0 <= k < word.len() implies word[k] != ' ' by {
            if k < element.len() {
                assert(element[k] == word[k]);
                assert(element.contains(element[k]));
            }
        }
        assert(word[0] == element[0]);
    } else {
        assert(word == element);
        if element.last() == ',' {
            assert(element[element.len() - 1] == ',');
        }
    }
}

proof fn lemma_words()
    ensures
        "ip"@.len() == 2 && "ip"@[0] == 'i' && !"ip"@.contains(' '),
        "saddr"@.len() == 5 && "saddr"@[0] == 's' && !"saddr"@.contains(' '),
        "daddr"@.len() == 5 && "daddr"@[0] == 'd' && !"daddr"@.contains(' '),
        "!="@.len() == 2 && "!="@[0] == '!' && !"!="@.contains(' '),
        "{"@.len() == 1 && "{"@[0] == '{' && !"{"@.contains(' '),
        "}"@.len() == 1 && "}"@[0] == '}' && !"}"@.contains(' '),
        "meta"@.len() == 4 && "meta"@[0] == 'm' && !"meta"@.contains(' '),
        "l4proto"@.len() == 7 && !"l4proto"@.contains(' '),
        "tcp"@.len() == 3 && "tcp"@[0] == 't' && !"tcp"@.contains(' '),
        "udp"@.len() == 3 && "udp"@[0] == 'u' && !"udp"@.contains(' '),
        "icmp"@.len() == 4 && "icmp"@[0] == 'i' && !"icmp"@.contains(' '),
        "dport"@.len() == 5 && !"dport"@.contains(' '),
        "iifname"@.len() == 7 && "iifname"@[0] == 'i' && !"iifname"@.contains(' '),
        "ct"@.len() == 2 && "ct"@[0] == 'c' && !"ct"@.contains(' '),
        "state"@.len() == 5 && !"state"@.contains(' '),
        "established,related"@.len() == 19 && !"established,related"@.contains(' '),
        "accept"@.len() == 6 && "accept"@[0] == 'a' && !"accept"@.contains(' '),
        "drop"@.len() == 4 && "drop"@[0] == 'd' && !"drop"@.contains(' '),
        "return"@.len() == 6 && "return"@[0] == 'r' && !"return"@.contains(' '),
        "comment"@.len() == 7 && !"comment"@.contains(' '),
        "\"wiremesh"@.len() == 9 && !"\"wiremesh"@.contains(' '),
        "rule"@.len() == 4 && !"rule"@.contains(' '),
        "site"@.len() == 4 && !"site"@.contains(' '),
        "default\""@.len() == 8 && !"default\""@.contains(' '),
{
    reveal_strlit("ip");
    reveal_strlit("saddr");
    reveal_strlit("daddr");
    reveal_strlit("!=");
    reveal_strlit("{");
    reveal_strlit("}");
    reveal_strlit("meta");
    reveal_strlit("l4proto");
    reveal_strlit("tcp");
    reveal_strlit("udp");
    reveal_strlit("icmp");
    reveal_strlit("dport");
    reveal_strlit("iifname");
    reveal_strlit("ct");
    reveal_strlit("state");
    reveal_strlit("established,related");
    reveal_strlit("accept");
    reveal_strlit("drop");
    reveal_strlit("return");
    reveal_strlit("comment");
    reveal_strlit("\"wiremesh");
    reveal_strlit("rule");
    reveal_strlit("site");
    reveal_strlit("default\"");
}

proof fn lemma_spaced_few(a: Seq<char>, b: Seq<char>, c: Seq<char>, d: Seq<char>)
    ensures
        spaced(seq![a]) == a,
        spaced(seq![a, b]) == a + seq![' '] + b,
        spaced(seq![a, b, c]) == a + seq![' '] + b + seq![' '] + c,
        spaced(seq![a, b, c, d]) == a + seq![' '] + b + seq![' '] + c + seq![' '] + d,
{
    assert(seq![a, b].drop_last() =~= seq![a]);
    assert(spaced(seq![a]) == a);
    assert(spaced(seq![a, b]) == spaced(seq![a]) + seq![' '] + b);
    assert(seq![a, b, c].drop_last() =~= seq![a, b]);
    assert(spaced(seq![a, b, c]) == spaced(seq![a, b]) + seq![' '] + c);
    assert(seq![a, b, c, d].drop_last() =~= seq![a, b, c]);
    assert(spaced(seq![a, b, c, d]) == spaced(seq![a, b, c]) + seq![' '] + d);
}

/// The words that name a protocol.
spec fn protocol_words(protocol: IpProtocol) -> Seq<Seq<char>> {
    match protocol {
        IpProtocol::Any => Seq::empty(),
        IpProtocol::Tcp => seq!["meta"@, "l4proto"@, "tcp"@],
        IpProtocol::Udp => seq!["meta"@, "l4proto"@, "udp"@],
        IpProtocol::Icmp => seq!["meta"@, "l4proto"@, "icmp"@],
    }
}

/// The words that restrict ports.
spec fn port_words(rule: crate::state::RuleView) -> Seq<Seq<char>> {
    match rule.destination_ports {
        None => Seq::empty(),
        Some(ports) => seq![
            if rule.protocol == IpProtocol::Tcp {
                "tcp"@
            } else {
                "udp"@
            },
            "dport"@,
            if ports.start == ports.end {
                decimal(ports.start as nat)
            } else {
                crate::laws::reading::ports_named(ports.start, ports.end)
            },
        ],
    }
}

/// The words of a rule behind its beginning.
spec fn rule_words(line: PolicyLine) -> Seq<Seq<char>> {
    let rule = line.rule;
    seq!["ip"@, "saddr"@, "{"@] + element_words(peer_addresses(line.sources)) + seq![
        "}"@,
        "ip"@,
        "daddr"@,
        rule.destination.text(),
    ] + protocol_words(rule.protocol) + port_words(rule) + (seq![verdict_text(rule.action)] + seq![
        "comment"@,
        "\"wiremesh"@,
        "rule"@,
        uuid_text(rule.id) + seq!['"'],
    ])
}

proof fn lemma_protocol_spaced(protocol: IpProtocol)
    ensures
        nft_protocol(protocol) == (if protocol == IpProtocol::Any {
            Seq::empty()
        } else {
            seq![' '] + spaced(protocol_words(protocol))
        }),
        forall|i: int|
            0 <= i < protocol_words(protocol).len() ==> !(#[trigger] protocol_words(
                protocol,
            )[i]).contains(' '),
{
    lemma_words();
    reveal_strlit("meta");
    reveal_strlit("l4proto");
    reveal_strlit("tcp");
    reveal_strlit("udp");
    reveal_strlit("icmp");
    reveal_strlit(" meta l4proto tcp");
    reveal_strlit(" meta l4proto udp");
    reveal_strlit(" meta l4proto icmp");
    lemma_spaced_few("meta"@, "l4proto"@, "tcp"@, "tcp"@);
    lemma_spaced_few("meta"@, "l4proto"@, "udp"@, "udp"@);
    lemma_spaced_few("meta"@, "l4proto"@, "icmp"@, "icmp"@);
    assert(" meta l4proto tcp"@ =~= seq![' '] + ("meta"@ + seq![' '] + "l4proto"@ + seq![' ']
        + "tcp"@));
    assert(" meta l4proto udp"@ =~= seq![' '] + ("meta"@ + seq![' '] + "l4proto"@ + seq![' ']
        + "udp"@));
    assert(" meta l4proto icmp"@ =~= seq![' '] + ("meta"@ + seq![' '] + "l4proto"@ + seq![' ']
        + "icmp"@));
}

proof fn lemma_ports_spaced(rule: crate::state::RuleView)
    ensures
        nft_ports(rule.protocol, rule.destination_ports) == (if rule.destination_ports is None {
            Seq::empty()
        } else {
            seq![' '] + spaced(port_words(rule))
        }),
        forall|i: int|
            0 <= i < port_words(rule).len() ==> !(#[trigger] port_words(rule)[i]).contains(' '),
{
    lemma_words();
    reveal_strlit("tcp");
    reveal_strlit("udp");
    reveal_strlit(" tcp");
    reveal_strlit(" udp");
    reveal_strlit("dport");
    reveal_strlit(" dport ");
    reveal_strlit("-");
    assert("-"@ =~= seq!['-']);
    assert(" tcp"@ =~= seq![' '] + "tcp"@);
    assert(" udp"@ =~= seq![' '] + "udp"@);
    assert(" dport "@ =~= seq![' '] + "dport"@ + seq![' ']);
    if rule.destination_ports is Some {
        let ports = rule.destination_ports->0;
        let w = port_words(rule);
        lemma_spaced_few(w[0], w[1], w[2], w[2]);
        assert(w =~= seq![w[0], w[1], w[2]]);
        lemma_decimal(ports.start as nat);
        lemma_decimal(ports.end as nat);
        let start = decimal(ports.start as nat);
        let end = decimal(ports.end as nat);
        assert forall|k: int| 0 <= k < w[2].len() implies w[2][k] != ' ' by {
            if k < start.len() {
                assert(w[2][k] == start[k]);
                assert(is_digit(start[k]));
            } else if k > start.len() {
                assert(w[2][k] == end[k - start.len() - 1]);
                assert(is_digit(end[k - start.len() - 1]));
            }
        }
        assert(nft_ports(rule.protocol, rule.destination_ports) =~= seq![' '] + (w[0] + seq![' ']
            + w[1] + seq![' '] + w[2]));
    }
}

proof fn lemma_uuid_plain(id: Uuid)
    ensures
        !uuid_text(id).contains(' '),
        !uuid_text(id).contains('\n'),
        uuid_text(id).len() == 36,
{
    let text = uuid_text(id);
    assert forall|i: int| 0 <= i < text.len() implies (#[trigger] text[i]) != ' ' && text[i]
        != '\n' by {
        if !(i == 8 || i == 13 || i == 18 || i == 23) {
            let d = ((id as int / vstd::arithmetic::power::pow(
                16,
                (31 - crate::ids::digits_before(i)) as nat,
            )) % 16) as nat;
            assert(text[i] == hex_digit(d));
        }
    }
}

proof fn lemma_rule_regroup(
    start: Seq<char>,
    front: Seq<char>,
    sources: Seq<char>,
    mid: Seq<char>,
    net: Seq<char>,
    p: Seq<char>,
    q: Seq<char>,
    verdict: Seq<char>,
    tail: Seq<char>,
    id: Seq<char>,
)
    ensures
        start + (front + seq![' ']) + sources + (seq![' '] + mid + seq![' ']) + net + p + q + seq![
            ' ',
        ] + verdict + (seq![' '] + tail + seq![' ']) + id + seq!['"', '\n'] == start + (front + seq![
            ' ',
        ] + sources + seq![' '] + (mid + seq![' '] + net) + p + q + seq![' '] + (verdict + seq![' ']
            + (tail + seq![' '] + (id + seq!['"'])))) + seq!['\n'],
{
    assert(start + (front + seq![' ']) + sources + (seq![' '] + mid + seq![' ']) + net + p + q
        + seq![' '] + verdict + (seq![' '] + tail + seq![' ']) + id + seq!['"', '\n'] =~= start + (
    front + seq![' '] + sources + seq![' '] + (mid + seq![' '] + net) + p + q + seq![' '] + (verdict
        + seq![' '] + (tail + seq![' '] + (id + seq!['"'])))) + seq!['\n']);
}

/// The text of a rule behind its beginning, made of its parts.
proof fn lemma_rule_spaced(line: PolicyLine)
    requires
        line.sources.len() > 0,
    ensures
        ({
            let rule = line.rule;
            let front = "ip"@ + seq![' '] + "saddr"@ + seq![' '] + "{"@;
            let mid = "}"@ + seq![' '] + "ip"@ + seq![' '] + "daddr"@;
            let tail = "comment"@ + seq![' '] + "\"wiremesh"@ + seq![' '] + "rule"@;
            spaced(rule_words(line)) == front + seq![' '] + joined(
                peer_addresses(line.sources),
                ", "@,
            ) + seq![' '] + (mid + seq![' '] + rule.destination.text()) + nft_protocol(
                rule.protocol,
            ) + nft_ports(rule.protocol, rule.destination_ports) + seq![' '] + (verdict_text(
                rule.action,
            ) + seq![' '] + (tail + seq![' '] + (uuid_text(rule.id) + seq!['"'])))
        }),
{
    let rule = line.rule;
    let elements = peer_addresses(line.sources);
    let front = seq!["ip"@, "saddr"@, "{"@];
    let e = element_words(elements);
    let net = rule.destination.text();
    let mid = seq!["}"@, "ip"@, "daddr"@, net];
    let p = protocol_words(rule.protocol);
    let q = port_words(rule);
    let verdict = verdict_text(rule.action);
    let name = uuid_text(rule.id) + seq!['"'];
    let tail = seq!["comment"@, "\"wiremesh"@, "rule"@, name];
    let end = seq![verdict] + tail;
    lemma_elements_spaced(elements);
    lemma_protocol_spaced(rule.protocol);
    lemma_ports_spaced(rule);
    lemma_spaced_few("ip"@, "saddr"@, "{"@, "{"@);
    lemma_spaced_few("}"@, "ip"@, "daddr"@, net);
    lemma_spaced_few("comment"@, "\"wiremesh"@, "rule"@, name);
    lemma_spaced_few(verdict, verdict, verdict, verdict);
    lemma_spaced_add(seq![verdict], tail);
    lemma_spaced_add(front, e);
    let one = front + e;
    lemma_spaced_add(one, mid);
    let two = one + mid;
    lemma_spaced_add(two, p);
    let three = two + p;
    lemma_spaced_add(three, q);
    let four = three + q;
    lemma_spaced_add(four, end);
    assert(rule_words(line) == four + end);
    assert(spaced(three) =~= spaced(two) + nft_protocol(rule.protocol));
    assert(spaced(four) =~= spaced(three) + nft_ports(rule.protocol, rule.destination_ports));
}

proof fn lemma_rule_text(table: Seq<char>, line: PolicyLine)
    requires
        line.sources.len() > 0,
    ensures
        nft_rule(table, line) == "add rule inet "@ + table + " forward "@ + spaced(
            rule_words(line),
        ) + seq!['\n'],
{
    let rule = line.rule;
    let start = "add rule inet "@ + table + " forward "@;
    let front = "ip"@ + seq![' '] + "saddr"@ + seq![' '] + "{"@;
    let mid = "}"@ + seq![' '] + "ip"@ + seq![' '] + "daddr"@;
    let tail = "comment"@ + seq![' '] + "\"wiremesh"@ + seq![' '] + "rule"@;
    let sources = joined(peer_addresses(line.sources), ", "@);
    lemma_rule_spaced(line);
    lemma_pieces();
    lemma_rule_regroup(
        start,
        front,
        sources,
        mid,
        rule.destination.text(),
        nft_protocol(rule.protocol),
        nft_ports(rule.protocol, rule.destination_ports),
        verdict_text(rule.action),
        tail,
        uuid_text(rule.id),
    );
    assert("add rule inet "@ + table + " forward ip saddr { "@ =~= start + (front + seq![' ']));
    assert(" } ip daddr "@ =~= seq![' '] + mid + seq![' ']);
    assert(" comment \"wiremesh rule "@ =~= seq![' '] + tail + seq![' ']);
}

proof fn lemma_rule_words_plain(line: PolicyLine)
    requires
        line.sources.len() > 0,
    ensures
        forall|i: int|
            0 <= i < rule_words(line).len() ==> !(#[trigger] rule_words(line)[i]).contains(' '),
{
    let rule = line.rule;
    let elements = peer_addresses(line.sources);
    let e = element_words(elements);
    let p = protocol_words(rule.protocol);
    let q = port_words(rule);
    let name = uuid_text(rule.id) + seq!['"'];
    lemma_words();
    lemma_protocol_spaced(rule.protocol);
    lemma_ports_spaced(rule);
    lemma_network_is_place(rule.destination);
    lemma_uuid_plain(rule.id);
    assert(!name.contains(' ')) by {
        assert forall|k: int| 0 <= k < name.len() implies name[k] != ' ' by {
            if k < 36 {
                assert(name[k] == uuid_text(rule.id)[k]);
                assert(uuid_text(rule.id).contains(name[k]));
            }
        }
    }
    let w = rule_words(line);
    let a = 3 + e.len() as int;
    let b = a + 4;
    let c = b + p.len();
    let d = c + q.len();
    assert forall|i: int| 0 <= i < w.len() implies !(#[trigger] w[i]).contains(' ') by {
        if i < 3 {
            assert(w[0] == "ip"@ && w[1] == "saddr"@ && w[2] == "{"@);
        } else if i < a {
            assert(w[i] == e[i - 3]);
            lemma_address_is_place(line.sources[i - 3].allowed_address);
            assert(elements[i - 3] == address_text(line.sources[i - 3].allowed_address));
            lemma_element(elements, i - 3, 0);
        } else if i < b {
            assert(w[a] == "}"@ && w[a + 1] == "ip"@ && w[a + 2] == "daddr"@ && w[a + 3]
                == rule.destination.text());
        } else if i < c {
            assert(w[i] == p[i - b]);
        } else if i < d {
            assert(w[i] == q[i - c]);
        } else {
            assert(w[d] == verdict_text(rule.action) && w[d + 1] == "comment"@ && w[d + 2]
                == "\"wiremesh"@ && w[d + 3] == "rule"@ && w[d + 4] == name);
        }
    }
}

/// The fixed parts of lines, taken to their words.
proof fn lemma_pieces()
    ensures
        " forward ip saddr { "@ == " forward "@ + ("ip"@ + seq![' '] + "saddr"@ + seq![' '] + "{"@
            + seq![' ']),
        " } ip daddr "@ == seq![' '] + "}"@ + seq![' '] + "ip"@ + seq![' '] + "daddr"@ + seq![' '],
        " comment \"wiremesh rule "@ == seq![' '] + "comment"@ + seq![' '] + "\"wiremesh"@ + seq![
            ' ',
        ] + "rule"@ + seq![' '],
        "\"\n"@ == seq!['"', '\n'],
        " "@ == seq![' '],
        " forward ip saddr != { "@ == " forward "@ + ("ip"@ + seq![' '] + "saddr"@ + seq![' ']
            + "!="@ + seq![' '] + "{"@ + seq![' ']),
        " forward ip daddr != { "@ == " forward "@ + ("ip"@ + seq![' '] + "daddr"@ + seq![' ']
            + "!="@ + seq![' '] + "{"@ + seq![' ']),
        " } drop\n"@ == seq![' '] + "}"@ + seq![' '] + "drop"@ + seq!['\n'],
        " comment \"wiremesh site default\"\n"@ == seq![' '] + "comment"@ + seq![' ']
            + "\"wiremesh"@ + seq![' '] + "site"@ + seq![' '] + "default\""@ + seq!['\n'],
        " forward drop\n"@ == " forward "@ + "drop"@ + seq!['\n'],
{
    reveal_strlit("ip");
    reveal_strlit("saddr");
    reveal_strlit("daddr");
    reveal_strlit("!=");
    reveal_strlit("{");
    reveal_strlit("}");
    reveal_strlit("drop");
    reveal_strlit("comment");
    reveal_strlit("\"wiremesh");
    reveal_strlit("rule");
    reveal_strlit("site");
    reveal_strlit("default\"");
    reveal_strlit(" forward ");
    reveal_strlit(" ");
    reveal_strlit("\"\n");
    reveal_strlit(" forward ip saddr { ");
    reveal_strlit(" } ip daddr ");
    reveal_strlit(" comment \"wiremesh rule ");
    reveal_strlit(" forward ip saddr != { ");
    reveal_strlit(" forward ip daddr != { ");
    reveal_strlit(" } drop\n");
    reveal_strlit(" comment \"wiremesh site default\"\n");
    reveal_strlit(" forward drop\n");
    assert(" forward ip saddr { "@ =~= " forward "@ + ("ip"@ + seq![' '] + "saddr"@ + seq![' ']
        + "{"@ + seq![' ']));
    assert(" } ip daddr "@ =~= seq![' '] + "}"@ + seq![' '] + "ip"@ + seq![' '] + "daddr"@ + seq![
        ' ',
    ]);
    assert(" comment \"wiremesh rule "@ =~= seq![' '] + "comment"@ + seq![' '] + "\"wiremesh"@
        + seq![' '] + "rule"@ + seq![' ']);
    assert("\"\n"@ =~= seq!['"', '\n']);
    assert(" "@ =~= seq![' ']);
    assert(" forward ip saddr != { "@ =~= " forward "@ + ("ip"@ + seq![' '] + "saddr"@ + seq![' ']
        + "!="@ + seq![' '] + "{"@ + seq![' ']));
    assert(" forward ip daddr != { "@ =~= " forward "@ + ("ip"@ + seq![' '] + "daddr"@ + seq![' ']
        + "!="@ + seq![' '] + "{"@ + seq![' ']));
    assert(" } drop\n"@ =~= seq![' '] + "}"@ + seq![' '] + "drop"@ + seq!['\n']);
    assert(" comment \"wiremesh site default\"\n"@ =~= seq![' '] + "comment"@ + seq![' ']
        + "\"wiremesh"@ + seq![' '] + "site"@ + seq![' '] + "default\""@ + seq!['\n']);
    assert(" forward drop\n"@ =~= " forward "@ + "drop"@ + seq!['\n']);
}

/// A set of elements names an address where an element does.
proof fn lemma_set(words: Seq<Seq<char>>, i: int, elements: Seq<Seq<char>>, address: Ipv4Addr)
    requires
        0 <= i,
        i + 1 + elements.len() < words.len(),
        words[i] == "{"@,
        forall|k: int|
            0 <= k < elements.len() ==> #[trigger] words[i + 1 + k] == element_words(elements)[k],
        forall|k: int| 0 <= k < elements.len() ==> is_place(#[trigger] elements[k]),
        words[i + 1 + elements.len()] == "}"@,
    ensures
        operand_end(words, i) == i + 1 + elements.len() + 1,
        operand_names(words, i, address) == exists|k: int|
            0 <= k < elements.len() && names_place(#[trigger] elements[k], address),
{
    let end = i + 1 + elements.len();
    lemma_words();
    assert forall|k: int| i + 1 <= k < end implies #[trigger] words[k] != "}"@ by {
        let m = k - i - 1;
        assert(words[i + 1 + m] == element_words(elements)[m]);
        lemma_element(elements, m, address);
    }
    lemma_set_end(words, i + 1, end);
    if exists|k: int| 0 <= k < elements.len() && names_place(#[trigger] elements[k], address) {
        let k = choose|k: int|
            0 <= k < elements.len() && names_place(#[trigger] elements[k], address);
        lemma_element(elements, k, address);
        assert(element_names(words[i + 1 + k], address));
    }
    if operand_names(words, i, address) {
        let k = choose|k: int|
            i < k < set_end(words, i + 1) && element_names(#[trigger] words[k], address);
        let m = k - i - 1;
        assert(words[i + 1 + m] == element_words(elements)[m]);
        lemma_element(elements, m, address);
        assert(names_place(elements[m], address));
    }
}

proof fn lemma_said_sources(w: Seq<Seq<char>>, i: int, a: Arrival)
    requires
        0 <= i,
        i + 2 < w.len(),
        w[i] == "ip"@,
        w[i + 1] == "saddr"@,
        w[i + 2] == "{"@,
        operand_end(w, i + 2) > i,
    ensures
        said(w, i, a) == (if operand_names(w, i + 2, a.source) {
            said(w, operand_end(w, i + 2), a)
        } else {
            None
        }),
{
    lemma_words();
}

proof fn lemma_said_destination(w: Seq<Seq<char>>, i: int, net: Ipv4Net, a: Arrival)
    requires
        0 <= i,
        i + 2 < w.len(),
        w[i] == "ip"@,
        w[i + 1] == "daddr"@,
        w[i + 2] == net.text(),
    ensures
        said(w, i, a) == (if net.holds(a.packet.destination) {
            said(w, i + 3, a)
        } else {
            None
        }),
{
    lemma_words();
    lemma_network_is_place(net);
    lemma_network_names(net, a.packet.destination);
    assert(w[i + 2] != "!="@ && w[i + 2] != "{"@);
}

proof fn lemma_said_protocol(w: Seq<Seq<char>>, i: int, protocol: IpProtocol, a: Arrival)
    requires
        0 <= i,
        i + protocol_words(protocol).len() <= w.len(),
        forall|k: int|
            0 <= k < protocol_words(protocol).len() ==> #[trigger] w[i + k] == protocol_words(
                protocol,
            )[k],
    ensures
        said(w, i, a) == (if protocol == IpProtocol::Any || protocol == a.packet.protocol {
            said(w, i + protocol_words(protocol).len(), a)
        } else {
            None
        }),
{
    lemma_words();
    if protocol != IpProtocol::Any {
        assert(w[i + 0] == "meta"@);
        assert(w[i + 1] == "l4proto"@);
        assert(w[i + 2] == protocol_words(protocol)[2]);
    }
}

proof fn lemma_said_ports(w: Seq<Seq<char>>, i: int, rule: crate::state::RuleView, a: Arrival)
    requires
        !has_stray_ports(rule),
        rule.protocol == IpProtocol::Any || rule.protocol == a.packet.protocol,
        0 <= i,
        i + port_words(rule).len() <= w.len(),
        forall|k: int|
            0 <= k < port_words(rule).len() ==> #[trigger] w[i + k] == port_words(rule)[k],
    ensures
        said(w, i, a) == (if crate::acl::port_admitted(
            rule.destination_ports,
            a.packet.destination_port,
        ) {
            said(w, i + port_words(rule).len(), a)
        } else {
            None
        }),
{
    lemma_words();
    if rule.destination_ports is Some {
        assert(w[i + 0] == port_words(rule)[0]);
        assert(w[i + 1] == "dport"@);
        assert(w[i + 2] == port_words(rule)[2]);
        lemma_names_port(
            rule.destination_ports->0,
            a.packet.destination_port,
            port_words(rule)[2],
        );
    }
}

proof fn lemma_said_verdict(w: Seq<Seq<char>>, i: int, action: AclAction, a: Arrival)
    requires
        0 <= i < w.len(),
        w[i] == verdict_text(action),
    ensures
        said(w, i, a) == Some(verdict_text(action)),
{
    lemma_words();
}

/// Where the words of a rule stand.
proof fn lemma_rule_places(line: PolicyLine)
    ensures
        ({
            let w = rule_words(line);
            let e = element_words(peer_addresses(line.sources));
            let p = protocol_words(line.rule.protocol);
            let q = port_words(line.rule);
            let c = 3 + e.len() as int;
            let d = c + 4 + p.len();
            let f = d + q.len();
            &&& w.len() > f
            &&& w[0] == "ip"@ && w[1] == "saddr"@ && w[2] == "{"@
            &&& forall|k: int| 0 <= k < e.len() ==> #[trigger] w[2 + 1 + k] == e[k]
            &&& w[c] == "}"@ && w[c + 1] == "ip"@ && w[c + 2] == "daddr"@ && w[c + 3]
                == line.rule.destination.text()
            &&& forall|k: int| 0 <= k < p.len() ==> #[trigger] w[c + 4 + k] == p[k]
            &&& forall|k: int| 0 <= k < q.len() ==> #[trigger] w[d + k] == q[k]
            &&& w[f] == verdict_text(line.rule.action)
        }),
{
}

/// The words of a rule say what its rule says of a packet that its line speaks of, and nothing of
/// another.
proof fn lemma_rule_says(line: PolicyLine, a: Arrival)
    requires
        line.sources.len() > 0,
        !has_stray_ports(line.rule),
    ensures
        said(rule_words(line), 0, a) == (if line.matches(a.source, a.packet) {
            Some(verdict_text(line.rule.action))
        } else {
            None
        }),
{
    let w = rule_words(line);
    let rule = line.rule;
    let elements = peer_addresses(line.sources);
    let n = elements.len() as int;
    let p = protocol_words(rule.protocol);
    let q = port_words(rule);
    let c = 3 + n;
    let d = c + 4 + p.len();
    lemma_rule_places(line);
    assert forall|k: int| 0 <= k < n implies is_place(#[trigger] elements[k]) && names_place(
        elements[k],
        a.source,
    ) == (line.sources[k].allowed_address == a.source) by {
        lemma_address_is_place(line.sources[k].allowed_address);
        lemma_address_names(line.sources[k].allowed_address, a.source);
    }
    lemma_set(w, 2, elements, a.source);
    assert(operand_names(w, 2, a.source) == has_address(line.sources, a.source)) by {
        if has_address(line.sources, a.source) {
            let k = choose|k: int|
                0 <= k < line.sources.len() && (#[trigger] line.sources[k]).allowed_address
                    == a.source;
            assert(names_place(elements[k], a.source));
        }
        if operand_names(w, 2, a.source) {
            let k = choose|k: int|
                0 <= k < elements.len() && names_place(#[trigger] elements[k], a.source);
            assert(line.sources[k].allowed_address == a.source);
        }
    }
    lemma_said_sources(w, 0, a);
    lemma_said_destination(w, c + 1, rule.destination, a);
    lemma_said_protocol(w, c + 4, rule.protocol, a);
    if rule.protocol == IpProtocol::Any || rule.protocol == a.packet.protocol {
        lemma_said_ports(w, d, rule, a);
    }
    lemma_said_verdict(w, d + q.len(), rule.action, a);
}

/// What a line says that is a rule with some words.
proof fn lemma_line(table: Seq<char>, words: Seq<Seq<char>>, a: Arrival)
    requires
        words.len() > 0,
        forall|i: int| 0 <= i < words.len() ==> !(#[trigger] words[i]).contains(' '),
    ensures
        line_says("add rule inet "@ + table + " forward "@ + spaced(words), table, a) == said(
            words,
            0,
            a,
        ),
{
    let start = "add rule inet "@ + table + " forward "@;
    let line = start + spaced(words);
    assert(line.skip(start.len() as int) =~= spaced(words));
    assert(start.is_prefix_of(line)) by {
        assert(start =~= line.subrange(0, start.len() as int));
    }
    lemma_spaced_parts(words);
}

/// What lines say that say what others say before and behind each other.
proof fn lemma_lines_add(x: Seq<Seq<char>>, y: Seq<Seq<char>>, table: Seq<char>, a: Arrival)
    ensures
        lines_say(x + y, table, a) == (match lines_say(x, table, a) {
            Some(verdict) => Some(verdict),
            None => lines_say(y, table, a),
        }),
    decreases y.len(),
{
    if y.len() == 0 {
        assert(x + y =~= x);
    } else {
        lemma_lines_add(x, y.drop_last(), table, a);
        assert((x + y).drop_last() =~= x + y.drop_last());
        assert((x + y).last() == y.last());
    }
}

proof fn lemma_lines_one(line: Seq<char>, table: Seq<char>, a: Arrival)
    ensures
        lines_say(seq![line], table, a) == line_says(line, table, a),
{
    assert(seq![line].drop_last() =~= Seq::<Seq<char>>::empty());
    assert(lines_say(Seq::<Seq<char>>::empty(), table, a) is None);
}

/// What a text says that begins with a full line.
proof fn lemma_first_full_line(line: Seq<char>, rest: Seq<char>, table: Seq<char>, a: Arrival)
    requires
        !line.contains('\n'),
    ensures
        table_says(line + seq!['\n'] + rest, table, a) == (match line_says(line, table, a) {
            Some(verdict) => Some(verdict),
            None => table_says(rest, table, a),
        }),
{
    lemma_parts_add(line, rest, '\n');
    lemma_one_part(line, '\n');
    lemma_lines_one(line, table, a);
    lemma_lines_add(seq![line], parts_of(rest, '\n'), table, a);
}

/// What a text says that begins with a rule.
proof fn lemma_first_rule(
    table: Seq<char>,
    words: Seq<Seq<char>>,
    rest: Seq<char>,
    a: Arrival,
)
    requires
        words.len() > 0,
        forall|i: int| 0 <= i < words.len() ==> !(#[trigger] words[i]).contains(' '),
        forall|i: int| 0 <= i < words.len() ==> !(#[trigger] words[i]).contains('\n'),
        !table.contains('\n'),
    ensures
        table_says(
            "add rule inet "@ + table + " forward "@ + spaced(words) + seq!['\n'] + rest,
            table,
            a,
        ) == (match said(words, 0, a) {
            Some(verdict) => Some(verdict),
            None => table_says(rest, table, a),
        }),
{
    let line = "add rule inet "@ + table + " forward "@ + spaced(words);
    lemma_line(table, words, a);
    lemma_spaced_on_line(words);
    lemma_start_on_line();
    assert forall|i: int| 0 <= i < line.len() implies line[i] != '\n' by {
        let x = "add rule inet "@;
        let y = " forward "@;
        let (b, c) = (x.len() + table.len(), x.len() + table.len() + y.len());
        if i < x.len() {
            assert(line[i] == x[i]);
            assert(x.contains(x[i]));
        } else if i < b {
            assert(line[i] == table[i - x.len()]);
            assert(table.contains(table[i - x.len()]));
        } else if i < c {
            assert(line[i] == y[i - b]);
            assert(y.contains(y[i - b]));
        } else {
            assert(line[i] == spaced(words)[i - c]);
            assert(spaced(words).contains(spaced(words)[i - c]));
        }
    }
    lemma_first_full_line(line, rest, table, a);
}

proof fn lemma_start_on_line()
    ensures
        !"add rule inet "@.contains('\n'),
        !" forward "@.contains('\n'),
{
    reveal_strlit("add rule inet ");
    reveal_strlit(" forward ");
}

proof fn lemma_spaced_on_line(words: Seq<Seq<char>>)
    requires
        forall|i: int| 0 <= i < words.len() ==> !(#[trigger] words[i]).contains('\n'),
    ensures
        !spaced(words).contains('\n'),
    decreases words.len(),
{
    if words.len() > 1 {
        let less = words.drop_last();
        assert forall|i: int| 0 <= i < less.len() implies !(#[trigger] less[i]).contains('\n') by {
            assert(less[i] == words[i]);
        }
        lemma_spaced_on_line(less);
        let last = words.last();
        assert(!words[words.len() - 1].contains('\n'));
        let text = spaced(words);
        assert(text == spaced(less) + seq![' '] + last);
        assert forall|i: int| 0 <= i < text.len() implies text[i] != '\n' by {
            if i < spaced(less).len() {
                assert(text[i] == spaced(less)[i]);
                assert(spaced(less).contains(spaced(less)[i]));
            } else if i > spaced(less).len() {
                assert(text[i] == last[i - spaced(less).len() - 1]);
                assert(last.contains(last[i - spaced(less).len() - 1]));
            }
        }
    } else if words.len() == 1 {
        assert(spaced(words) == words[0]);
    }
}

proof fn lemma_words_on_line()
    ensures
        !"ip"@.contains('\n'),
        !"saddr"@.contains('\n'),
        !"daddr"@.contains('\n'),
        !"!="@.contains('\n'),
        !"{"@.contains('\n'),
        !"}"@.contains('\n'),
        !"meta"@.contains('\n'),
        !"l4proto"@.contains('\n'),
        !"tcp"@.contains('\n'),
        !"udp"@.contains('\n'),
        !"icmp"@.contains('\n'),
        !"dport"@.contains('\n'),
        !"iifname"@.contains('\n'),
        !"ct"@.contains('\n'),
        !"state"@.contains('\n'),
        !"established,related"@.contains('\n'),
        !"accept"@.contains('\n'),
        !"drop"@.contains('\n'),
        !"return"@.contains('\n'),
        !"comment"@.contains('\n'),
        !"\"wiremesh"@.contains('\n'),
        !"rule"@.contains('\n'),
        !"site"@.contains('\n'),
        !"default\""@.contains('\n'),
{
    reveal_strlit("ip");
    reveal_strlit("saddr");
    reveal_strlit("daddr");
    reveal_strlit("!=");
    reveal_strlit("{");
    reveal_strlit("}");
    reveal_strlit("meta");
    reveal_strlit("l4proto");
    reveal_strlit("tcp");
    reveal_strlit("udp");
    reveal_strlit("icmp");
    reveal_strlit("dport");
    reveal_strlit("iifname");
    reveal_strlit("ct");
    reveal_strlit("state");
    reveal_strlit("established,related");
    reveal_strlit("accept");
    reveal_strlit("drop");
    reveal_strlit("return");
    reveal_strlit("comment");
    reveal_strlit("\"wiremesh");
    reveal_strlit("rule");
    reveal_strlit("site");
    reveal_strlit("default\"");
}

proof fn lemma_element_on_line(elements: Seq<Seq<char>>, i: int)
    requires
        0 <= i < elements.len(),
        is_place(elements[i]),
    ensures
        !element_words(elements)[i].contains('\n'),
{
    let word = element_words(elements)[i];
    assert forall|k: int| 0 <= k < word.len() implies word[k] != '\n' by {
        if k < elements[i].len() {
            assert(word[k] == elements[i][k]);
            assert(elements[i].contains(elements[i][k]));
        }
    }
}

proof fn lemma_rule_words_on_line(line: PolicyLine)
    requires
        line.sources.len() > 0,
    ensures
        forall|i: int|
            0 <= i < rule_words(line).len() ==> !(#[trigger] rule_words(line)[i]).contains('\n'),
{
    let rule = line.rule;
    let elements = peer_addresses(line.sources);
    let e = element_words(elements);
    let p = protocol_words(rule.protocol);
    let q = port_words(rule);
    let name = uuid_text(rule.id) + seq!['"'];
    lemma_words_on_line();
    lemma_network_is_place(rule.destination);
    lemma_uuid_plain(rule.id);
    assert(!name.contains('\n')) by {
        assert forall|k: int| 0 <= k < name.len() implies name[k] != '\n' by {
            if k < 36 {
                assert(name[k] == uuid_text(rule.id)[k]);
                assert(uuid_text(rule.id).contains(name[k]));
            }
        }
    }
    if rule.destination_ports is Some {
        let ports = rule.destination_ports->0;
        lemma_decimal(ports.start as nat);
        lemma_decimal(ports.end as nat);
        let start = decimal(ports.start as nat);
        let end = decimal(ports.end as nat);
        assert forall|k: int| 0 <= k < q[2].len() implies q[2][k] != '\n' by {
            if k < start.len() {
                assert(q[2][k] == start[k]);
                assert(is_digit(start[k]));
            } else if k > start.len() {
                assert(q[2][k] == end[k - start.len() - 1]);
                assert(is_digit(end[k - start.len() - 1]));
            }
        }
    }
    let w = rule_words(line);
    let a = 3 + e.len() as int;
    let b = a + 4;
    let c = b + p.len();
    let d = c + q.len();
    assert forall|i: int| 0 <= i < w.len() implies !(#[trigger] w[i]).contains('\n') by {
        if i < 3 {
            assert(w[0] == "ip"@ && w[1] == "saddr"@ && w[2] == "{"@);
        } else if i < a {
            assert(w[i] == e[i - 3]);
            lemma_address_is_place(line.sources[i - 3].allowed_address);
            assert(elements[i - 3] == address_text(line.sources[i - 3].allowed_address));
            lemma_element_on_line(elements, i - 3);
        } else if i < b {
            assert(w[a] == "}"@ && w[a + 1] == "ip"@ && w[a + 2] == "daddr"@ && w[a + 3]
                == rule.destination.text());
        } else if i < c {
            assert(w[i] == p[i - b]);
        } else if i < d {
            assert(w[i] == q[i - c]);
        } else {
            assert(w[d] == verdict_text(rule.action) && w[d + 1] == "comment"@ && w[d + 2]
                == "\"wiremesh"@ && w[d + 3] == "rule"@ && w[d + 4] == name);
        }
    }
}

/// What a text says that begins with the rules of some lines.
proof fn lemma_first_rules(
    table: Seq<char>,
    lines: Seq<PolicyLine>,
    rest: Seq<char>,
    a: Arrival,
)
    requires
        !table.contains('\n'),
        forall|i: int| 0 <= i < lines.len() ==> (#[trigger] lines[i]).sources.len() > 0,
        forall|i: int| 0 <= i < lines.len() ==> !has_stray_ports((#[trigger] lines[i]).rule),
    ensures
        table_says(nft_rules(table, lines) + rest, table, a) == (match first_line(
            lines,
            a.source,
            a.packet,
        ) {
            Some(i) => Some(verdict_text(lines[i].rule.action)),
            None => table_says(rest, table, a),
        }),
        first_line(lines, a.source, a.packet) matches Some(i) ==> 0 <= i < lines.len(),
    decreases lines.len(),
{
    if lines.len() == 0 {
        assert(nft_rules(table, lines) + rest =~= rest);
    } else {
        let less = lines.drop_last();
        let last = lines.last();
        assert(lines[lines.len() - 1] == last);
        assert forall|i: int| 0 <= i < less.len() implies (#[trigger] less[i]).sources.len() > 0
            && !has_stray_ports(less[i].rule) by {
            assert(less[i] == lines[i]);
        }
        let words = rule_words(last);
        lemma_rule_text(table, last);
        lemma_rule_words_plain(last);
        lemma_rule_words_on_line(last);
        lemma_rule_says(last, a);
        let behind = nft_rule(table, last) + rest;
        lemma_first_rule(table, words, rest, a);
        lemma_first_rules(table, less, behind, a);
        assert(nft_rules(table, lines) + rest =~= nft_rules(table, less) + behind);
    }
}

/// The words of a guard behind its beginning.
spec fn guard_words(which: Seq<char>, elements: Seq<Seq<char>>) -> Seq<Seq<char>> {
    seq!["ip"@, which, "!="@, "{"@] + element_words(elements) + seq!["}"@, "drop"@]
}

proof fn lemma_guard_words(which: Seq<char>, elements: Seq<Seq<char>>, a: Arrival)
    requires
        elements.len() > 0,
        forall|i: int| 0 <= i < elements.len() ==> is_place(#[trigger] elements[i]),
        which == "saddr"@ || which == "daddr"@,
    ensures
        forall|i: int|
            0 <= i < guard_words(which, elements).len() ==> !(#[trigger] guard_words(
                which,
                elements,
            )[i]).contains(' ') && !guard_words(which, elements)[i].contains('\n'),
        spaced(guard_words(which, elements)) == "ip"@ + seq![' '] + which + seq![' '] + "!="@
            + seq![' '] + "{"@ + seq![' '] + joined(elements, ", "@) + seq![' '] + ("}"@ + seq![' ']
            + "drop"@),
        said(guard_words(which, elements), 0, a) == (if exists|k: int|
            0 <= k < elements.len() && names_place(
                #[trigger] elements[k],
                if which == "saddr"@ {
                    a.source
                } else {
                    a.packet.destination
                },
            ) {
            None
        } else {
            Some("drop"@)
        }),
{
    let w = guard_words(which, elements);
    let front = seq!["ip"@, which, "!="@, "{"@];
    let e = element_words(elements);
    let back = seq!["}"@, "drop"@];
    let n = e.len() as int;
    lemma_words();
    lemma_words_on_line();
    lemma_elements_spaced(elements);
    lemma_spaced_few("ip"@, which, "!="@, "{"@);
    lemma_spaced_few("}"@, "drop"@, "drop"@, "drop"@);
    lemma_spaced_add(front, e);
    lemma_spaced_add(front + e, back);
    assert(w[0] == "ip"@ && w[1] == which && w[2] == "!="@ && w[3] == "{"@);
    assert forall|k: int| 0 <= k < n implies #[trigger] w[3 + 1 + k] == e[k] by {}
    assert(w[4 + n] == "}"@ && w[5 + n] == "drop"@);
    assert forall|i: int| 0 <= i < w.len() implies !(#[trigger] w[i]).contains(' ')
        && !w[i].contains('\n') by {
        if 4 <= i < 4 + n {
            assert(w[3 + 1 + (i - 4)] == e[i - 4]);
            lemma_element(elements, i - 4, 0);
            lemma_element_on_line(elements, i - 4);
        }
    }
    let place = if which == "saddr"@ {
        a.source
    } else {
        a.packet.destination
    };
    lemma_set(w, 3, elements, place);
    assert(said(w, 5 + n, a) == Some("drop"@));
}

proof fn lemma_guards_say(
    table: Seq<char>,
    peers: Seq<PeerView>,
    routes: Seq<Ipv4Net>,
    rest: Seq<char>,
    a: Arrival,
)
    requires
        !table.contains('\n'),
        peers.len() > 0,
        routes.len() > 0,
    ensures
        table_says(nft_guards(table, peers, routes) + rest, table, a) == (if has_address(
            peers,
            a.source,
        ) && is_routed(routes, a.packet.destination) {
            table_says(rest, table, a)
        } else {
            Some("drop"@)
        }),
{
    let start = "add rule inet "@ + table + " forward "@;
    let sources = peer_addresses(peers);
    let nets = network_texts(routes);
    assert forall|i: int| 0 <= i < sources.len() implies is_place(#[trigger] sources[i])
        && names_place(sources[i], a.source) == (peers[i].allowed_address == a.source) by {
        lemma_address_is_place(peers[i].allowed_address);
        lemma_address_names(peers[i].allowed_address, a.source);
    }
    assert forall|i: int| 0 <= i < nets.len() implies is_place(#[trigger] nets[i]) && names_place(
        nets[i],
        a.packet.destination,
    ) == routes[i].holds(a.packet.destination) by {
        lemma_network_is_place(routes[i]);
        lemma_network_names(routes[i], a.packet.destination);
    }
    if has_address(peers, a.source) {
        let k = choose|k: int|
            0 <= k < peers.len() && (#[trigger] peers[k]).allowed_address == a.source;
        assert(names_place(sources[k], a.source));
    }
    if is_routed(routes, a.packet.destination) {
        let k = choose|k: int|
            0 <= k < routes.len() && (#[trigger] routes[k]).holds(a.packet.destination);
        assert(names_place(nets[k], a.packet.destination));
    }
    lemma_words();
    lemma_guard_words("saddr"@, sources, a);
    lemma_guard_words("daddr"@, nets, a);
    let one = guard_words("saddr"@, sources);
    let two = guard_words("daddr"@, nets);
    let second = start + spaced(two) + seq!['\n'] + rest;
    lemma_first_rule(table, one, second, a);
    lemma_first_rule(table, two, rest, a);
    lemma_guards_text(table, peers, routes);
    lemma_regroup(start + spaced(one) + seq!['\n'], start + spaced(two) + seq!['\n'], rest);
}

proof fn lemma_regroup(a: Seq<char>, b: Seq<char>, c: Seq<char>)
    ensures
        a + b + c == a + (b + c),
{
    assert(a + b + c =~= a + (b + c));
}

/// The text of the guards is two rules.
#[verifier::rlimit(40)]
proof fn lemma_guards_text(table: Seq<char>, peers: Seq<PeerView>, routes: Seq<Ipv4Net>)
    requires
        spaced(guard_words("saddr"@, peer_addresses(peers))) == "ip"@ + seq![' '] + "saddr"@ + seq![
            ' ',
        ] + "!="@ + seq![' '] + "{"@ + seq![' '] + joined(peer_addresses(peers), ", "@) + seq![' ']
            + ("}"@ + seq![' '] + "drop"@),
        spaced(guard_words("daddr"@, network_texts(routes))) == "ip"@ + seq![' '] + "daddr"@ + seq![
            ' ',
        ] + "!="@ + seq![' '] + "{"@ + seq![' '] + joined(network_texts(routes), ", "@) + seq![' ']
            + ("}"@ + seq![' '] + "drop"@),
    ensures
        ({
            let start = "add rule inet "@ + table + " forward "@;
            nft_guards(table, peers, routes) == (start + spaced(
                guard_words("saddr"@, peer_addresses(peers)),
            ) + seq!['\n']) + (start + spaced(guard_words("daddr"@, network_texts(routes)))
                + seq!['\n'])
        }),
{
    let start = "add rule inet "@ + table + " forward "@;
    let sources = peer_addresses(peers);
    let nets = network_texts(routes);
    let one = guard_words("saddr"@, sources);
    let two = guard_words("daddr"@, nets);
    lemma_pieces();
    lemma_guard_regroup(
        "add rule inet "@ + table,
        " forward "@,
        "ip"@ + seq![' '] + "saddr"@ + seq![' '] + "!="@ + seq![' '] + "{"@,
        joined(sources, ", "@),
        "}"@ + seq![' '] + "drop"@,
    );
    lemma_guard_regroup(
        "add rule inet "@ + table,
        " forward "@,
        "ip"@ + seq![' '] + "daddr"@ + seq![' '] + "!="@ + seq![' '] + "{"@,
        joined(nets, ", "@),
        "}"@ + seq![' '] + "drop"@,
    );
    assert(" forward ip saddr != { "@ =~= " forward "@ + ("ip"@ + seq![' '] + "saddr"@ + seq![' ']
        + "!="@ + seq![' '] + "{"@ + seq![' ']));
    assert(" } drop\n"@ =~= seq![' '] + ("}"@ + seq![' '] + "drop"@) + seq!['\n']);
    let first_text = "add rule inet "@ + table + " forward ip saddr != { "@ + joined(
        sources,
        ", "@,
    ) + " } drop\n"@;
    let second_text = "add rule inet "@ + table + " forward ip daddr != { "@ + joined(nets, ", "@)
        + " } drop\n"@;
    assert(first_text == start + spaced(one) + seq!['\n']);
    assert(second_text == start + spaced(two) + seq!['\n']);
    assert(nft_guards(table, peers, routes) =~= first_text + second_text);
}

proof fn lemma_guard_regroup(
    start: Seq<char>,
    forward: Seq<char>,
    front: Seq<char>,
    list: Seq<char>,
    back: Seq<char>,
)
    ensures
        start + (forward + (front + seq![' '])) + list + (seq![' '] + back + seq!['\n']) == start
            + forward + (front + seq![' '] + list + seq![' '] + back) + seq!['\n'],
{
    assert(start + (forward + (front + seq![' '])) + list + (seq![' '] + back + seq!['\n'])
        =~= start + forward + (front + seq![' '] + list + seq![' '] + back) + seq!['\n']);
}

proof fn lemma_header_regroup(
    l0: Seq<char>,
    l1: Seq<char>,
    l2: Seq<char>,
    start: Seq<char>,
    w3: Seq<char>,
    w4: Seq<char>,
    rest: Seq<char>,
)
    ensures
        l0 + seq!['\n'] + l1 + seq!['\n'] + l2 + seq!['\n'] + start + w3 + seq!['\n'] + start + w4
            + seq!['\n'] + rest == l0 + seq!['\n'] + (l1 + seq!['\n'] + (l2 + seq!['\n'] + (start
            + w3 + seq!['\n'] + (start + w4 + seq!['\n'] + rest)))),
{
    assert(l0 + seq!['\n'] + l1 + seq!['\n'] + l2 + seq!['\n'] + start + w3 + seq!['\n'] + start
        + w4 + seq!['\n'] + rest =~= l0 + seq!['\n'] + (l1 + seq!['\n'] + (l2 + seq!['\n'] + (start
        + w3 + seq!['\n'] + (start + w4 + seq!['\n'] + rest)))));
}

proof fn lemma_header_text(table: Seq<char>, name: Seq<char>)
    ensures
        ({
            let start = "add rule inet "@ + table + " forward "@;
            let quoted = seq!['"'] + name + seq!['"'];
            nft_header(table, name) == ("destroy table inet "@ + table) + seq!['\n'] + (
            "add table inet "@ + table) + seq!['\n'] + ("add chain inet "@ + table
                + " forward { type filter hook forward priority filter; policy accept; }"@) + seq![
                '\n',
            ] + start + spaced(seq!["iifname"@, "!="@, quoted, "return"@]) + seq!['\n'] + start
                + spaced(seq!["ct"@, "state"@, "established,related"@, "accept"@]) + seq!['\n']
        }),
{
    let quoted = seq!['"'] + name + seq!['"'];
    lemma_spaced_few("iifname"@, "!="@, quoted, "return"@);
    lemma_spaced_few("ct"@, "state"@, "established,related"@, "accept"@);
    let chain_end = " forward { type filter hook forward priority filter; policy accept; }"@;
    reveal_strlit("\nadd table inet ");
    reveal_strlit("add table inet ");
    assert("\nadd table inet "@ =~= seq!['\n'] + "add table inet "@);
    reveal_strlit("\nadd chain inet ");
    reveal_strlit("add chain inet ");
    assert("\nadd chain inet "@ =~= seq!['\n'] + "add chain inet "@);
    reveal_strlit("add rule inet ");
    assert(" forward { type filter hook forward priority filter; policy accept; }\nadd rule inet "@
        == chain_end + seq!['\n'] + "add rule inet "@) by {
        reveal_strlit(
            " forward { type filter hook forward priority filter; policy accept; }\nadd rule inet ",
        );
        reveal_strlit(" forward { type filter hook forward priority filter; policy accept; }");
        assert(" forward { type filter hook forward priority filter; policy accept; }\nadd rule inet "@
            =~= chain_end + seq!['\n'] + "add rule inet "@);
    }
    reveal_strlit(" forward ");
    reveal_strlit("iifname");
    reveal_strlit("!=");
    reveal_strlit(" forward iifname != \"");
    assert(" forward iifname != \""@ =~= " forward "@ + "iifname"@ + seq![' '] + "!="@ + seq![' ']
        + seq!['"']);
    reveal_strlit("return");
    reveal_strlit("\" return\nadd rule inet ");
    assert("\" return\nadd rule inet "@ =~= seq!['"'] + seq![' '] + "return"@ + seq!['\n']
        + "add rule inet "@);
    reveal_strlit("ct");
    reveal_strlit("state");
    reveal_strlit("established,related");
    reveal_strlit("accept");
    reveal_strlit(" forward ct state established,related accept\n");
    assert(" forward ct state established,related accept\n"@ =~= " forward "@ + "ct"@ + seq![' ']
        + "state"@ + seq![' '] + "established,related"@ + seq![' '] + "accept"@ + seq!['\n']);
    lemma_header_pieces(
        "destroy table inet "@,
        table,
        "add table inet "@,
        "add chain inet "@,
        chain_end,
        "add rule inet "@,
        " forward "@,
        "iifname"@,
        "!="@,
        name,
        "return"@,
        "ct"@,
        "state"@,
        "established,related"@,
        "accept"@,
    );
}

#[verifier::rlimit(60)]
proof fn lemma_header_pieces(
    a: Seq<char>,
    t: Seq<char>,
    b: Seq<char>,
    c: Seq<char>,
    e: Seq<char>,
    r: Seq<char>,
    f: Seq<char>,
    i: Seq<char>,
    u: Seq<char>,
    n: Seq<char>,
    v: Seq<char>,
    k: Seq<char>,
    s: Seq<char>,
    g: Seq<char>,
    y: Seq<char>,
)
    ensures
        a + t + (seq!['\n'] + b) + t + (seq!['\n'] + c) + t + (e + seq!['\n'] + r) + t + (f + i
            + seq![' '] + u + seq![' '] + seq!['"']) + n + (seq!['"'] + seq![' '] + v + seq!['\n']
            + r) + t + (f + k + seq![' '] + s + seq![' '] + g + seq![' '] + y + seq!['\n']) == (a
            + t) + seq!['\n'] + (b + t) + seq!['\n'] + (c + t + e) + seq!['\n'] + (r + t + f) + (i
            + seq![' '] + u + seq![' '] + (seq!['"'] + n + seq!['"']) + seq![' '] + v) + seq!['\n']
            + (r + t + f) + (k + seq![' '] + s + seq![' '] + g + seq![' '] + y) + seq!['\n'],
{
    assert(a + t + (seq!['\n'] + b) + t + (seq!['\n'] + c) + t + (e + seq!['\n'] + r) + t + (f + i
        + seq![' '] + u + seq![' '] + seq!['"']) + n + (seq!['"'] + seq![' '] + v + seq!['\n'] + r)
        + t + (f + k + seq![' '] + s + seq![' '] + g + seq![' '] + y + seq!['\n']) =~= (a + t)
        + seq!['\n'] + (b + t) + seq!['\n'] + (c + t + e) + seq!['\n'] + (r + t + f) + (i + seq![
        ' ',
    ] + u + seq![' '] + (seq!['"'] + n + seq!['"']) + seq![' '] + v) + seq!['\n'] + (r + t + f) + (k
        + seq![' '] + s + seq![' '] + g + seq![' '] + y) + seq!['\n']);
}

/// A line that begins otherwise is no rule.
proof fn lemma_no_rule(line: Seq<char>, table: Seq<char>, a: Arrival)
    requires
        line.len() > 4,
        line[0] != 'a' || line[4] != 'r',
    ensures
        line_says(line, table, a) is None,
{
    let start = "add rule inet "@ + table + " forward "@;
    reveal_strlit("add rule inet ");
    assert(start[0] == 'a' && start[4] == 'r');
    if start.is_prefix_of(line) {
        assert(start == line.subrange(0, start.len() as int));
        assert(start[0] == line[0] && start[4] == line[4]);
    }
}

proof fn lemma_joins_on_line(x: Seq<char>, y: Seq<char>)
    requires
        !x.contains('\n'),
        !y.contains('\n'),
    ensures
        !(x + y).contains('\n'),
{
    assert forall|i: int| 0 <= i < (x + y).len() implies (x + y)[i] != '\n' by {
        if i < x.len() {
            assert(x.contains(x[i]));
        } else {
            assert(y.contains(y[i - x.len()]));
        }
    }
}

/// What a table says that begins as every table does: packets of other interfaces are left alone,
/// and those of connections that were let pass go on passing.
proof fn lemma_header_says(table: Seq<char>, name: Seq<char>, rest: Seq<char>, a: Arrival)
    requires
        !table.contains('\n'),
        !name.contains('\n'),
        !name.contains(' '),
    ensures
        table_says(nft_header(table, name) + rest, table, a) == (if a.interface_name != name {
            Some("return"@)
        } else if !a.opens {
            Some("accept"@)
        } else {
            table_says(rest, table, a)
        }),
{
    let start = "add rule inet "@ + table + " forward "@;
    let quoted = seq!['"'] + name + seq!['"'];
    let w3 = seq!["iifname"@, "!="@, quoted, "return"@];
    let w4 = seq!["ct"@, "state"@, "established,related"@, "accept"@];
    let chain_end = " forward { type filter hook forward priority filter; policy accept; }"@;
    let l0 = "destroy table inet "@ + table;
    let l1 = "add table inet "@ + table;
    let l2 = "add chain inet "@ + table + chain_end;
    lemma_header_text(table, name);
    lemma_header_regroup(l0, l1, l2, start, spaced(w3), spaced(w4), rest);
    let t4 = start + spaced(w4) + seq!['\n'] + rest;
    let t3 = start + spaced(w3) + seq!['\n'] + t4;
    let t2 = l2 + seq!['\n'] + t3;
    let t1 = l1 + seq!['\n'] + t2;
    assert(nft_header(table, name) + rest == l0 + seq!['\n'] + t1);
    lemma_words();
    lemma_words_on_line();
    assert(!quoted.contains(' ') && !quoted.contains('\n')) by {
        assert forall|k: int| 0 <= k < quoted.len() implies quoted[k] != ' ' && quoted[k]
            != '\n' by {
            if 0 < k <= name.len() {
                assert(quoted[k] == name[k - 1]);
                assert(name.contains(name[k - 1]));
            }
        }
    }
    reveal_strlit("destroy table inet ");
    reveal_strlit("add table inet ");
    reveal_strlit("add chain inet ");
    assert(!chain_end.contains('\n')) by {
        reveal_strlit(" forward { type filter hook forward priority filter; policy accept; }");
    }
    lemma_joins_on_line("destroy table inet "@, table);
    lemma_joins_on_line("add table inet "@, table);
    lemma_joins_on_line("add chain inet "@, table);
    lemma_joins_on_line("add chain inet "@ + table, chain_end);
    assert(l0[0] == 'd' && l1[4] == 't' && l2[4] == 'c');
    lemma_no_rule(l0, table, a);
    lemma_no_rule(l1, table, a);
    lemma_no_rule(l2, table, a);
    lemma_first_full_line(l0, t1, table, a);
    lemma_first_full_line(l1, t2, table, a);
    lemma_first_full_line(l2, t3, table, a);
    lemma_first_rule(table, w3, t4, a);
    lemma_first_rule(table, w4, rest, a);
    assert(w3[0] == "iifname"@ && w3[1] == "!="@ && w3[2] == quoted && w3[3] == "return"@);
    assert(said(w3, 3, a) == Some("return"@));
    assert(said(w3, 0, a) == (if quoted != seq!['"'] + a.interface_name + seq!['"'] {
        Some("return"@)
    } else {
        None
    }));
    if quoted == seq!['"'] + a.interface_name + seq!['"'] {
        let other = seq!['"'] + a.interface_name + seq!['"'];
        assert(name =~= quoted.subrange(1, quoted.len() - 1));
        assert(a.interface_name =~= other.subrange(1, other.len() - 1));
    }
    assert(w4[0] == "ct"@ && w4[1] == "state"@ && w4[2] == "established,related"@ && w4[3]
        == "accept"@);
    assert(said(w4, 3, a) == Some("accept"@));
}

proof fn lemma_default_says(table: Seq<char>, action: AclAction, a: Arrival)
    requires
        !table.contains('\n'),
    ensures
        table_says(nft_default(table, action), table, a) == Some(verdict_text(action)),
{
    let verdict = verdict_text(action);
    let tail = seq!["comment"@, "\"wiremesh"@, "site"@, "default\""@];
    let words = seq![verdict] + tail;
    let start = "add rule inet "@ + table + " forward "@;
    lemma_words();
    lemma_words_on_line();
    lemma_pieces();
    lemma_spaced_few("comment"@, "\"wiremesh"@, "site"@, "default\""@);
    lemma_spaced_few(verdict, verdict, verdict, verdict);
    lemma_spaced_add(seq![verdict], tail);
    let none = Seq::<char>::empty();
    assert(nft_default(table, action) =~= start + spaced(words) + seq!['\n'] + none);
    assert(words[0] == verdict && words[1] == "comment"@ && words[2] == "\"wiremesh"@ && words[3]
        == "site"@ && words[4] == "default\""@);
    lemma_first_rule(table, words, none, a);
    lemma_said_verdict(words, 0, action, a);
}

proof fn lemma_closed_table_says(table: Seq<char>, a: Arrival)
    requires
        !table.contains('\n'),
    ensures
        table_says("add rule inet "@ + table + " forward drop\n"@, table, a) == Some("drop"@),
{
    let start = "add rule inet "@ + table + " forward "@;
    let words = seq!["drop"@];
    let none = Seq::<char>::empty();
    lemma_words();
    lemma_words_on_line();
    lemma_pieces();
    lemma_spaced_few("drop"@, "drop"@, "drop"@, "drop"@);
    assert("add rule inet "@ + table + " forward drop\n"@ =~= start + spaced(words) + seq!['\n']
        + none);
    lemma_first_rule(table, words, none, a);
    assert(words[0] == "drop"@);
    assert(said(words, 0, a) == Some("drop"@));
}

proof fn lemma_table_name_on_line(gateway_id: Uuid)
    ensures
        !table_text(gateway_id).contains('\n'),
{
    let text = table_text(gateway_id);
    reveal_strlit("wm_");
    assert forall|i: int| 0 <= i < text.len() implies text[i] != '\n' by {
        if i >= 3 {
            let k = i - 3;
            let d = ((gateway_id as int / vstd::arithmetic::power::pow(16, (31 - k) as nat))
                % 16) as nat;
            assert(text[i] == uuid_digits(gateway_id)[k]);
            assert(text[i] == hex_digit(d));
        }
    }
}

/// Every line of a policy has devices.
proof fn lemma_lines_have_sources(
    rules: Seq<crate::state::RuleView>,
    peers: Seq<PeerView>,
    i: int,
)
    requires
        0 <= i < crate::policy::policy_lines(rules, peers).len(),
    ensures
        crate::policy::policy_lines(rules, peers)[i].sources.len() > 0,
    decreases rules.len(),
{
    if rules.len() > 0 && i < crate::policy::policy_lines(rules.drop_last(), peers).len() {
        lemma_lines_have_sources(rules.drop_last(), peers, i);
    }
}

/// Read line by line, a gateway's table leaves packets of other interfaces alone and lets packets
/// of connections pass that were let pass. Of a packet that opens a connection, the first rule
/// whose conditions hold accepts or drops it as the access rules say: from a device to a protected
/// network, as they say for the user of the device and its groups; any other packet is dropped.
pub proof fn law_tables_say_what_the_rules_say(state: StateView, rules: Seq<AclRule>, a: Arrival)
    requires
        state_problem(state) is None,
        state.acl_rules == rules.map_values(|r: AclRule| r@),
    ensures
        ({
            let verdict = table_says(nftables_text(state), table_text(state.gateway_id), a);
            &&& a.interface_name != state.interface_name ==> verdict == Some("return"@)
            &&& a.interface_name == state.interface_name && !a.opens ==> verdict == Some("accept"@)
            &&& a.interface_name == state.interface_name && a.opens ==> {
                &&& forall|peer: int, action: AclAction|
                    {
                        &&& 0 <= peer < state.peers.len()
                        &&& (#[trigger] state.peers[peer]).allowed_address == a.source
                        &&& a.packet.user_id == state.peers[peer].user_id
                        &&& a.packet.group_ids@ == state.peers[peer].group_ids
                        &&& is_routed(state.routes, a.packet.destination)
                        &&& #[trigger] acl_outcome(rules, state.acl_default, a.packet, action)
                    } ==> verdict == Some(
                        match action {
                            AclAction::Allow => "accept"@,
                            AclAction::Deny => "drop"@,
                        },
                    )
                &&& !has_address(state.peers, a.source) || !is_routed(
                    state.routes,
                    a.packet.destination,
                ) ==> verdict == Some("drop"@)
            }
        }),
{
    let table = table_text(state.gateway_id);
    let policy = policy_of(state);
    let name = state.interface_name;
    lemma_table_name_on_line(state.gateway_id);
    assert forall|i: int| 0 <= i < name.len() implies name[i] != '\n' && name[i] != ' ' by {
        assert(is_interface_char(name[i]));
    }
    lemma_header_says(table, name, nft_policy(table, policy), a);
    law_rendered_policy_is_the_acl(state, rules, a.packet, a.source);
    let verdict = policy.verdict(a.source, a.packet);
    if state.peers.len() == 0 {
        lemma_closed_table_says(table, a);
    } else {
        let lines = policy.lines;
        assert forall|i: int| 0 <= i < lines.len() implies (#[trigger] lines[i]).sources.len() > 0
            && !has_stray_ports(lines[i].rule) by {
            lemma_lines_have_sources(crate::policy::in_turn(state.acl_rules), state.peers, i);
            crate::policy::lemma_lines_have_rules(state.acl_rules, state.peers, i);
            let k = choose|k: int|
                0 <= k < state.acl_rules.len() && state.acl_rules[k] == lines[i].rule;
            assert(!has_stray_ports(state.acl_rules[k]));
        }
        let last = nft_default(table, policy.otherwise);
        let behind = nft_rules(table, lines) + last;
        lemma_guards_say(table, state.peers, state.routes, behind, a);
        lemma_first_rules(table, lines, last, a);
        lemma_default_says(table, policy.otherwise, a);
        assert(nft_policy(table, policy) =~= nft_guards(table, state.peers, state.routes) + behind);
    }
}

/// The port clause of a rule names both ends of its range: rules that differ only in the last port
/// are rendered as different texts.
pub proof fn law_port_ranges_are_rendered_whole(
    table: Seq<char>,
    a: PolicyLine,
    b: PolicyLine,
    start: u16,
    end: u16,
    other: u16,
)
    requires
        a.sources.len() > 0,
        a.rule.protocol == IpProtocol::Tcp || a.rule.protocol == IpProtocol::Udp,
        a.rule.destination_ports == Some(crate::acl::PortRange { start, end }),
        b == (PolicyLine {
            rule: crate::state::RuleView {
                destination_ports: Some(crate::acl::PortRange { start, end: other }),
                ..a.rule
            },
            ..a
        }),
        start <= end < other,
    ensures
        nft_rule(table, a) != nft_rule(table, b),
{
    if nft_rule(table, a) == nft_rule(table, b) {
        lemma_rule_text(table, a);
        lemma_rule_text(table, b);
        let head = "add rule inet "@ + table + " forward "@;
        let (x, y) = (spaced(rule_words(a)), spaced(rule_words(b)));
        assert(x =~= nft_rule(table, a).subrange(
            head.len() as int,
            nft_rule(table, a).len() - 1,
        ));
        assert(y =~= nft_rule(table, b).subrange(
            head.len() as int,
            nft_rule(table, b).len() - 1,
        ));
        lemma_rule_words_plain(a);
        lemma_rule_words_plain(b);
        lemma_spaced_parts(rule_words(a));
        lemma_spaced_parts(rule_words(b));
        lemma_rule_places(a);
        lemma_rule_places(b);
        let d = 3 + element_words(peer_addresses(a.sources)).len() as int + 4 + protocol_words(
            a.rule.protocol,
        ).len();
        assert(rule_words(a)[d + 2] == port_words(a.rule)[2]);
        assert(rule_words(b)[d + 2] == port_words(b.rule)[2]);
        lemma_names_port(
            crate::acl::PortRange { start, end },
            Some(other),
            port_words(a.rule)[2],
        );
        lemma_names_port(
            crate::acl::PortRange { start, end: other },
            Some(other),
            port_words(b.rule)[2],
        );
    }
}

} // verus!
