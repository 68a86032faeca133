//! The commands by which the Linux backend brings about a state and looks at a gateway.

use vstd::prelude::*;
use vstd::string::*;

use crate::agent::{ApplyOutcome, DriverError, ObservedGateway};
use crate::ids::{uuid_text, uuid_to_text, Uuid};
use crate::ipv4::{address_text, address_to_text, Ipv4Addr};
use crate::lines::{
    ends_with, first_word, first_word_of, is_suffix, lines, lines_of, lossy_text,
    sort_unique_texts, utf8_lossy,
};
use crate::linux::{
    nft_table_name, nftables_text, render_nftables, render_wireguard, state_problem, table_text,
    validate_state, wireguard_sections, CommandSpec, CommandView,
};
use crate::scrub::{has_text, word_texts, words};
use crate::sort::{stable_sorted, without_repeats};
use crate::state::{DesiredGatewayState, DesiredPeer, PeerView, StateView};
use crate::text::{decimal, decimal_text, push_text, texts, trim, trimmed};
use crate::walk::{fits, walked, Progress, Report, Stepwise};

verus! {

/// A command without input.
pub open spec fn plain(program: Seq<char>, arguments: Seq<Seq<char>>) -> CommandView {
    CommandView { program, arguments, stdin: None }
}

/// A command with input.
pub open spec fn fed(program: Seq<char>, arguments: Seq<Seq<char>>, input: Seq<char>) -> CommandView {
    CommandView { program, arguments, stdin: Some(input) }
}

fn command(program: &str, arguments: &[&str]) -> (r: CommandSpec)
    ensures
        r@ == plain(program@, word_texts(arguments@)),
{
    CommandSpec { program: program.to_owned(), arguments: words(arguments), stdin: None }
}

fn command_with_input(program: &str, arguments: &[&str], input: String) -> (r: CommandSpec)
    ensures
        r@ == fed(program@, word_texts(arguments@), input@),
{
    CommandSpec { program: program.to_owned(), arguments: words(arguments), stdin: Some(input) }
}

/// Lets the kernel forward packets.
pub fn forwarding_command() -> (r: CommandSpec)
    ensures
        r@ == plain("sysctl"@, seq!["-q"@, "-w"@, "net.ipv4.ip_forward=1"@]),
{
    let args: Vec<&str> = vec!["-q", "-w", "net.ipv4.ip_forward=1"];
    let r = command("sysctl", args.as_slice());
    assert(r@.arguments =~= seq!["-q"@, "-w"@, "net.ipv4.ip_forward=1"@]);
    r
}

/// Asks whether an interface exists.
pub fn probe_command(interface: &str) -> (r: CommandSpec)
    ensures
        r@ == plain("ip"@, seq!["link"@, "show"@, "dev"@, interface@]),
{
    let args: Vec<&str> = vec!["link", "show", "dev", interface];
    let r = command("ip", args.as_slice());
    assert(r@.arguments =~= seq!["link"@, "show"@, "dev"@, interface@]);
    r
}

/// Creates a WireGuard interface.
pub fn create_command(interface: &str) -> (r: CommandSpec)
    ensures
        r@ == plain("ip"@, seq!["link"@, "add"@, "dev"@, interface@, "type"@, "wireguard"@]),
{
    let args: Vec<&str> = vec!["link", "add", "dev", interface, "type", "wireguard"];
    let r = command("ip", args.as_slice());
    assert(r@.arguments =~= seq!["link"@, "add"@, "dev"@, interface@, "type"@, "wireguard"@]);
    r
}

/// Makes a private key.
pub fn genkey_command() -> (r: CommandSpec)
    ensures
        r@ == plain("wg"@, seq!["genkey"@]),
{
    let args: Vec<&str> = vec!["genkey"];
    let r = command("wg", args.as_slice());
    assert(r@.arguments =~= seq!["genkey"@]);
    r
}

/// Brings an interface up.
pub fn up_command(interface: &str) -> (r: CommandSpec)
    ensures
        r@ == plain("ip"@, seq!["link"@, "set"@, "dev"@, interface@, "up"@]),
{
    let args: Vec<&str> = vec!["link", "set", "dev", interface, "up"];
    let r = command("ip", args.as_slice());
    assert(r@.arguments =~= seq!["link"@, "set"@, "dev"@, interface@, "up"@]);
    r
}

/// Lists the routes of an interface.
pub fn list_routes_command(interface: &str) -> (r: CommandSpec)
    ensures
        r@ == plain("ip"@, seq!["-4"@, "route"@, "show"@, "dev"@, interface@]),
{
    let args: Vec<&str> = vec!["-4", "route", "show", "dev", interface];
    let r = command("ip", args.as_slice());
    assert(r@.arguments =~= seq!["-4"@, "route"@, "show"@, "dev"@, interface@]);
    r
}

/// Lists an interface and its devices.
pub fn dump_command(interface: &str) -> (r: CommandSpec)
    ensures
        r@ == plain("wg"@, seq!["show"@, interface@, "dump"@]),
{
    let args: Vec<&str> = vec!["show", interface, "dump"];
    let r = command("wg", args.as_slice());
    assert(r@.arguments =~= seq!["show"@, interface@, "dump"@]);
    r
}

/// Asks for the public key of an interface.
pub fn public_key_command(interface: &str) -> (r: CommandSpec)
    ensures
        r@ == plain("wg"@, seq!["show"@, interface@, "public-key"@]),
{
    let args: Vec<&str> = vec!["show", interface, "public-key"];
    let r = command("wg", args.as_slice());
    assert(r@.arguments =~= seq!["show"@, interface@, "public-key"@]);
    r
}

/// Asks for the version of the WireGuard tools.
pub fn version_command() -> (r: CommandSpec)
    ensures
        r@ == plain("wg"@, seq!["--version"@]),
{
    let args: Vec<&str> = vec!["--version"];
    let r = command("wg", args.as_slice());
    assert(r@.arguments =~= seq!["--version"@]);
    r
}

/// Removes a route from an interface.
pub fn delete_route_command(cidr: &str, interface: &str) -> (r: CommandSpec)
    ensures
        r@ == plain("ip"@, seq!["-4"@, "route"@, "delete"@, cidr@, "dev"@, interface@]),
{
    let args: Vec<&str> = vec!["-4", "route", "delete", cidr, "dev", interface];
    let r = command("ip", args.as_slice());
    assert(r@.arguments =~= seq!["-4"@, "route"@, "delete"@, cidr@, "dev"@, interface@]);
    r
}

/// Adds a route to an interface or replaces it.
pub fn replace_route_command(cidr: &str, interface: &str) -> (r: CommandSpec)
    ensures
        r@ == plain("ip"@, seq!["-4"@, "route"@, "replace"@, cidr@, "dev"@, interface@]),
{
    let args: Vec<&str> = vec!["-4", "route", "replace", cidr, "dev", interface];
    let r = command("ip", args.as_slice());
    assert(r@.arguments =~= seq!["-4"@, "route"@, "replace"@, cidr@, "dev"@, interface@]);
    r
}

/// Sets the MTU of an interface.
pub fn mtu_command(interface: &str, mtu: u16) -> (r: CommandSpec)
    ensures
        r@ == plain(
            "ip"@,
            seq!["link"@, "set"@, "dev"@, interface@, "mtu"@, decimal(mtu as nat)],
        ),
{
    let number = decimal_text(mtu as u64);
    let args: Vec<&str> = vec!["link", "set", "dev", interface, "mtu", number.as_str()];
    let r = command("ip", args.as_slice());
    assert(r@.arguments =~= seq!["link"@, "set"@, "dev"@, interface@, "mtu"@, decimal(mtu as nat)]);
    r
}

/// Gives an interface its private key and port.
pub fn identity_command(interface: &str, key_path: &str, listen_port: u16) -> (r: CommandSpec)
    ensures
        r@ == plain(
            "wg"@,
            seq![
                "set"@,
                interface@,
                "private-key"@,
                key_path@,
                "listen-port"@,
                decimal(listen_port as nat),
            ],
        ),
{
    let number = decimal_text(listen_port as u64);
    let args: Vec<&str> = vec![
        "set",
        interface,
        "private-key",
        key_path,
        "listen-port",
        number.as_str(),
    ];
    let r = command("wg", args.as_slice());
    assert(r@.arguments =~= seq![
        "set"@,
        interface@,
        "private-key"@,
        key_path@,
        "listen-port"@,
        decimal(listen_port as nat),
    ]);
    r
}

/// Lists a gateway's table.
pub fn list_table_command(gateway_id: Uuid) -> (r: CommandSpec)
    ensures
        r@ == plain(
            "nft"@,
            seq!["-j"@, "-s"@, "list"@, "table"@, "inet"@, table_text(gateway_id)],
        ),
{
    let table = nft_table_name(gateway_id);
    let args: Vec<&str> = vec!["-j", "-s", "list", "table", "inet", table.as_str()];
    let r = command("nft", args.as_slice());
    assert(r@.arguments =~= seq!["-j"@, "-s"@, "list"@, "table"@, "inet"@, table_text(gateway_id)]);
    r
}

/// Drops the connections of a source.
pub fn flush_command(source: Ipv4Addr) -> (r: CommandSpec)
    ensures
        r@ == plain("conntrack"@, seq!["-D"@, "-s"@, address_text(source)]),
{
    let text = address_to_text(source);
    let args: Vec<&str> = vec!["-D", "-s", text.as_str()];
    let r = command("conntrack", args.as_slice());
    assert(r@.arguments =~= seq!["-D"@, "-s"@, address_text(source)]);
    r
}

/// The name of the file that keeps a gateway's private key.
pub fn key_file_name(gateway_id: Uuid) -> (r: String)
    ensures
        r@ == uuid_text(gateway_id) + ".key"@,
{
    uuid_to_text(gateway_id).concat(".key")
}

/// The name of the file that keeps what is needed to look at a gateway.
pub fn metadata_file_name(gateway_id: Uuid) -> (r: String)
    ensures
        r@ == uuid_text(gateway_id) + ".metadata.json"@,
{
    uuid_to_text(gateway_id).concat(".metadata.json")
}

/// The contents of some commands.
pub open spec fn command_views(commands: Seq<CommandSpec>) -> Seq<CommandView> {
    commands.map_values(|c: CommandSpec| c@)
}

fn push_command(commands: &mut Vec<CommandSpec>, command: CommandSpec)
    ensures
        command_views(final(commands)@) == command_views(old(commands)@).push(command@),
{
    commands.push(command);
    assert(command_views(commands@) =~= command_views(old(commands)@).push(command@));
}

/// The commands that give an interface its identity, its devices and its MTU and bring it up.
pub open spec fn tunnel_plan(state: StateView, key_path: Seq<char>) -> Seq<CommandView> {
    let name = state.interface_name;
    let identity = plain(
        "wg"@,
        seq![
            "set"@,
            name,
            "private-key"@,
            key_path,
            "listen-port"@,
            decimal(state.listen_port as nat),
        ],
    );
    let devices = fed(
        "wg"@,
        seq!["syncconf"@, name, "/dev/stdin"@],
        "[Interface]\n"@ + wireguard_sections(state.peers),
    );
    let up = plain("ip"@, seq!["link"@, "set"@, "dev"@, name, "up"@]);
    match state.mtu {
        None => seq![identity, devices, up],
        Some(mtu) => seq![
            identity,
            devices,
            plain("ip"@, seq!["link"@, "set"@, "dev"@, name, "mtu"@, decimal(mtu as nat)]),
            up,
        ],
    }
}

/// The commands that give an interface its identity, its devices and its MTU and bring it up.
pub fn tunnel_commands(desired: &DesiredGatewayState, key_path: &str) -> (r: Vec<CommandSpec>)
    ensures
        command_views(r@) == tunnel_plan(desired@, key_path@),
{
    let interface = desired.interface_name.as_str();
    let mut out: Vec<CommandSpec> = Vec::new();
    push_command(&mut out, identity_command(interface, key_path, desired.listen_port));
    let args: Vec<&str> = vec!["syncconf", interface, "/dev/stdin"];
    let sync = command_with_input("wg", args.as_slice(), render_wireguard(desired));
    assert(sync@.arguments =~= seq!["syncconf"@, interface@, "/dev/stdin"@]);
    push_command(&mut out, sync);
    match desired.mtu {
        Some(mtu) => push_command(&mut out, mtu_command(interface, mtu)),
        None => {},
    }
    push_command(&mut out, up_command(interface));
    assert(command_views(out@) =~= tunnel_plan(desired@, key_path@));
    out
}

/// The host routes that the devices of a state need, each once and in order.
pub open spec fn wanted_routes(peers: Seq<PeerView>) -> Seq<Seq<char>> {
    without_repeats(
        stable_sorted(
            peers.map_values(|p: PeerView| address_text(p.allowed_address) + "/32"@),
        ),
    )
}

/// The host routes in a listing that no device needs any more, in the order of the listing.
pub open spec fn stale_routes(lines: Seq<Seq<char>>, wanted: Seq<Seq<char>>) -> Seq<Seq<char>>
    decreases lines.len(),
{
    if lines.len() == 0 {
        Seq::empty()
    } else {
        let rest = stale_routes(lines.drop_last(), wanted);
        let cidr = first_word_of(lines.last());
        if is_suffix("/32"@, cidr) && !wanted.contains(cidr) {
            rest.push(cidr)
        } else {
            rest
        }
    }
}

/// The commands that bring the routes of an interface from a listing to what a state needs.
pub open spec fn route_plan(state: StateView, listing: Seq<u8>) -> Seq<CommandView> {
    let name = state.interface_name;
    let wanted = wanted_routes(state.peers);
    stale_routes(lines_of(utf8_lossy(listing)), wanted).map_values(
        |cidr: Seq<char>|
            plain("ip"@, seq!["-4"@, "route"@, "delete"@, cidr, "dev"@, name]),
    ) + wanted.map_values(
        |cidr: Seq<char>| plain("ip"@, seq!["-4"@, "route"@, "replace"@, cidr, "dev"@, name]),
    )
}

/// Only host routes are removed, and none that a device needs.
pub proof fn law_needed_routes_stay(lines: Seq<Seq<char>>, wanted: Seq<Seq<char>>, cidr: Seq<char>)
    requires
        stale_routes(lines, wanted).contains(cidr),
    ensures
        is_suffix("/32"@, cidr),
        !wanted.contains(cidr),
    decreases lines.len(),
{
    let all = stale_routes(lines, wanted);
    let rest = stale_routes(lines.drop_last(), wanted);
    let k = choose|k: int| 0 <= k < all.len() && all[k] == cidr;
    if k < rest.len() {
        assert(rest[k] == cidr);
        law_needed_routes_stay(lines.drop_last(), wanted, cidr);
    }
}

fn wanted(peers: &[DesiredPeer]) -> (r: Vec<String>)
    ensures
        texts(r@) == wanted_routes(peers@.map_values(|p: DesiredPeer| p@)),
{
    let ghost goal = peers@.map_values(|p: DesiredPeer| p@).map_values(
        |p: PeerView| address_text(p.allowed_address) + "/32"@,
    );
    let mut out: Vec<String> = Vec::new();
    let mut i: usize = 0;
    while i < peers.len()
        invariant
            i <= peers@.len(),
            goal == peers@.map_values(|p: DesiredPeer| p@).map_values(
                |p: PeerView| address_text(p.allowed_address) + "/32"@,
            ),
            texts(out@) =~= goal.take(i as int),
        decreases peers@.len() - i,
    {
        push_text(&mut out, address_to_text(peers[i].allowed_address).concat("/32"));
        assert(goal.take(i + 1) =~= goal.take(i as int).push(goal[i as int]));
        i = i + 1;
    }
    assert(goal.take(i as int) =~= goal);
    sort_unique_texts(&mut out);
    out
}

fn stale(listing: &[u8], wanted: &[String]) -> (r: Vec<String>)
    ensures
        texts(r@) == stale_routes(lines_of(utf8_lossy(listing@)), texts(wanted@)),
{
    let text = lossy_text(listing);
    let all = lines(text.as_str());
    let ghost views = texts(all@);
    let mut out: Vec<String> = Vec::new();
    let mut i: usize = 0;
    assert(views.take(0) =~= Seq::<Seq<char>>::empty());
    assert(texts(out@) =~= Seq::<Seq<char>>::empty());
    while i < all.len()
        invariant
            i <= all@.len(),
            views == texts(all@),
            texts(out@) == stale_routes(views.take(i as int), texts(wanted@)),
        decreases all@.len() - i,
    {
        let ghost next = views.take(i + 1);
        assert(next.drop_last() =~= views.take(i as int));
        assert(next.last() == all@[i as int]@);
        let cidr = first_word(all[i].as_str());
        if ends_with(cidr.as_str(), "/32") && !has_text(wanted, cidr.as_str()) {
            push_text(&mut out, cidr);
        }
        i = i + 1;
    }
    assert(views.take(i as int) =~= views);
    out
}

/// The commands that bring the routes of an interface from a listing to what a state needs:
/// stale host routes go, then every device's route is set.
pub fn route_commands(desired: &DesiredGatewayState, listing: &[u8]) -> (r: Vec<CommandSpec>)
    ensures
        command_views(r@) == route_plan(desired@, listing@),
{
    let interface = desired.interface_name.as_str();
    let needed = wanted(desired.peers.as_slice());
    let gone = stale(listing, needed.as_slice());
    let ghost deletes = texts(gone@).map_values(
        |cidr: Seq<char>|
            plain("ip"@, seq!["-4"@, "route"@, "delete"@, cidr, "dev"@, interface@]),
    );
    let ghost replaces = texts(needed@).map_values(
        |cidr: Seq<char>|
            plain("ip"@, seq!["-4"@, "route"@, "replace"@, cidr, "dev"@, interface@]),
    );
    let mut out: Vec<CommandSpec> = Vec::new();
    let mut i: usize = 0;
    while i < gone.len()
        invariant
            i <= gone@.len(),
            deletes == texts(gone@).map_values(
                |cidr: Seq<char>|
                    plain("ip"@, seq!["-4"@, "route"@, "delete"@, cidr, "dev"@, interface@]),
            ),
            command_views(out@) =~= deletes.take(i as int),
        decreases gone@.len() - i,
    {
        push_command(&mut out, delete_route_command(gone[i].as_str(), interface));
        assert(deletes[i as int] == plain(
            "ip"@,
            seq!["-4"@, "route"@, "delete"@, gone@[i as int]@, "dev"@, interface@],
        ));
        assert(deletes.take(i + 1) =~= deletes.take(i as int).push(deletes[i as int]));
        i = i + 1;
    }
    assert(deletes.take(i as int) =~= deletes);
    let mut j: usize = 0;
    while j < needed.len()
        invariant
            j <= needed@.len(),
            replaces == texts(needed@).map_values(
                |cidr: Seq<char>|
                    plain("ip"@, seq!["-4"@, "route"@, "replace"@, cidr, "dev"@, interface@]),
            ),
            command_views(out@) =~= deletes + replaces.take(j as int),
        decreases needed@.len() - j,
    {
        push_command(&mut out, replace_route_command(needed[j].as_str(), interface));
        assert(replaces[j as int] == plain(
            "ip"@,
            seq!["-4"@, "route"@, "replace"@, needed@[j as int]@, "dev"@, interface@],
        ));
        assert(replaces.take(j + 1) =~= replaces.take(j as int).push(replaces[j as int]));
        j = j + 1;
    }
    assert(replaces.take(j as int) =~= replaces);
    assert(command_views(out@) =~= route_plan(desired@, listing@));
    out
}

/// The command that installs a gateway's table.
pub fn table_command(desired: &DesiredGatewayState) -> (r: Result<CommandSpec, DriverError>)
    ensures
        match state_problem(desired@) {
            None => r matches Ok(c) && c@ == fed(
                "nft"@,
                seq!["-f"@, "-"@],
                nftables_text(desired@),
            ),
            Some(message) => r matches Err(DriverError::Invalid(m)) && m@ == message,
        },
{
    match render_nftables(desired) {
        Ok(text) => {
            let args: Vec<&str> = vec!["-f", "-"];
            let c = command_with_input("nft", args.as_slice(), text);
            assert(c@.arguments =~= seq!["-f"@, "-"@]);
            Ok(c)
        },
        Err(error) => Err(error),
    }
}

/// The stages in which the backend brings about a state.
#[derive(Debug, Clone, Copy, PartialEq, Eq, Structural)]
pub enum LinuxStage {
    Directory,
    Forwarding,
    Interface,
    Key,
    Tunnel,
    Routes,
    Table,
    Observe,
    Record,
}

/// A state that the backend is bringing about, and the stage that is next. The digest is that of
/// what was observed, once it was.
pub struct LinuxRun {
    pub stage: LinuxStage,
    pub revision: u64,
    pub digest: String,
}

impl LinuxRun {
    /// The same state, before another stage.
    pub open spec fn before(self, stage: LinuxStage, digest: String) -> LinuxRun {
        LinuxRun { stage, revision: self.revision, digest }
    }
}

impl Stepwise for LinuxRun {
    type Step = LinuxStage;

    type Told = String;

    type Outcome = ApplyOutcome;

    type Error = DriverError;

    open spec fn valid(self) -> bool {
        true
    }

    open spec fn steps(self) -> Seq<LinuxStage> {
        seq![
            LinuxStage::Directory,
            LinuxStage::Forwarding,
            LinuxStage::Interface,
            LinuxStage::Key,
            LinuxStage::Tunnel,
            LinuxStage::Routes,
            LinuxStage::Table,
            LinuxStage::Observe,
            LinuxStage::Record,
        ]
    }

    open spec fn taken(self) -> nat {
        match self.stage {
            LinuxStage::Directory => 0,
            LinuxStage::Forwarding => 1,
            LinuxStage::Interface => 2,
            LinuxStage::Key => 3,
            LinuxStage::Tunnel => 4,
            LinuxStage::Routes => 5,
            LinuxStage::Table => 6,
            LinuxStage::Observe => 7,
            LinuxStage::Record => 8,
        }
    }

    /// Only the look at the gateway tells something: the digest of what it is.
    open spec fn tells(self) -> bool {
        self.stage == LinuxStage::Observe
    }

    open spec fn advanced(self, report: Report<String, DriverError>) -> Progress<
        LinuxRun,
        ApplyOutcome,
        DriverError,
    > {
        let digest = match report {
            Report::Told(digest) => digest,
            _ => self.digest,
        };
        match report {
            Report::Failed(error) => Progress::Failed(error),
            _ => if self.stage == LinuxStage::Record {
                Progress::Finished(
                    ApplyOutcome { revision: self.revision, actual_state_hash: digest },
                )
            } else {
                Progress::Next(self.before(self.steps()[(self.taken() + 1) as int], digest))
            },
        }
    }

    proof fn lemma_failure_ends(self, error: DriverError) {
    }

    proof fn lemma_success_goes_on(self, report: Report<String, DriverError>) {
    }
}

impl LinuxRun {
    /// Begins to bring about a state that the backend can take.
    pub fn begin(desired: &DesiredGatewayState) -> (r: Result<LinuxRun, DriverError>)
        ensures
            match state_problem(desired@) {
                None => r matches Ok(run) && run.stage == LinuxStage::Directory && run.revision
                    == desired.revision,
                Some(message) => r matches Err(DriverError::Invalid(m)) && m@ == message,
            },
    {
        match validate_state(desired) {
            Ok(_) => Ok(
                LinuxRun {
                    stage: LinuxStage::Directory,
                    revision: desired.revision,
                    digest: String::from_str(""),
                },
            ),
            Err(error) => Err(error),
        }
    }

    /// Goes on with what the stage that was next has come to. The first failure is the end.
    pub fn advance(self, report: Report<String, DriverError>) -> (r: Progress<
        LinuxRun,
        ApplyOutcome,
        DriverError,
    >)
        requires
            fits(self, report),
        ensures
            r == self.advanced(report),
    {
        let digest = match report {
            Report::Done => self.digest,
            Report::Told(digest) => digest,
            Report::Failed(error) => return Progress::Failed(error),
        };
        let stage = match self.stage {
            LinuxStage::Directory => LinuxStage::Forwarding,
            LinuxStage::Forwarding => LinuxStage::Interface,
            LinuxStage::Interface => LinuxStage::Key,
            LinuxStage::Key => LinuxStage::Tunnel,
            LinuxStage::Tunnel => LinuxStage::Routes,
            LinuxStage::Routes => LinuxStage::Table,
            LinuxStage::Table => LinuxStage::Observe,
            LinuxStage::Observe => LinuxStage::Record,
            LinuxStage::Record => return Progress::Finished(
                ApplyOutcome { revision: self.revision, actual_state_hash: digest },
            ),
        };
        Progress::Next(LinuxRun { stage, revision: self.revision, digest })
    }
}

/// Before the look at the gateway, every success leads to the next stage; the digest that the
/// look told is kept until the end.
proof fn lemma_digest_is_kept(run: LinuxRun, reports: Seq<Report<String, DriverError>>)
    requires
        run.taken() == 0,
        reports.len() < run.steps().len(),
        forall|i: int|
            0 <= i < reports.len() ==> (#[trigger] reports[i] is Told) == (i == 7) && !(
            reports[i] is Failed),
    ensures
        walked(run, reports) matches Progress::Next(next) && next.taken() == reports.len()
            && next.revision == run.revision && (reports.len() > 7 ==> next.digest
            == reports[7]->Told_0),
    decreases reports.len(),
{
    if reports.len() > 0 {
        let before = reports.drop_last();
        assert forall|i: int| 0 <= i < before.len() implies (#[trigger] before[i] is Told) == (i
            == 7) && !(before[i] is Failed) by {
            assert(before[i] == reports[i]);
        }
        lemma_digest_is_kept(run, before);
        assert(reports.last() == reports[reports.len() - 1]);
    }
}

/// The outcome of a state that was brought about is its revision and the digest of what was
/// observed after the last change.
pub proof fn law_outcome_is_what_was_observed(
    run: LinuxRun,
    reports: Seq<Report<String, DriverError>>,
)
    requires
        run.stage == LinuxStage::Directory,
        reports.len() == run.steps().len(),
        reports[7] is Told,
        forall|i: int| 0 <= i < reports.len() && i != 7 ==> #[trigger] reports[i] is Done,
    ensures
        walked(run, reports) == Progress::<LinuxRun, ApplyOutcome, DriverError>::Finished(
            ApplyOutcome { revision: run.revision, actual_state_hash: reports[7]->Told_0 },
        ),
{
    let before = reports.drop_last();
    assert forall|i: int| 0 <= i < before.len() implies (#[trigger] before[i] is Told) == (i == 7)
        && !(before[i] is Failed) by {
        assert(before[i] == reports[i]);
    }
    lemma_digest_is_kept(run, before);
    assert(reports.last() == reports[8]);
}

/// The commands of a stage. The interface is created where a probe did not find it; the routes
/// depend on a listing; the stages that only read or write files have no commands here.
pub open spec fn stage_plan(
    stage: LinuxStage,
    state: StateView,
    interface_exists: bool,
    key_path: Seq<char>,
    listing: Seq<u8>,
) -> Seq<CommandView> {
    match stage {
        LinuxStage::Forwarding => seq![
            plain("sysctl"@, seq!["-q"@, "-w"@, "net.ipv4.ip_forward=1"@]),
        ],
        LinuxStage::Interface => if interface_exists {
            Seq::empty()
        } else {
            seq![
                plain(
                    "ip"@,
                    seq!["link"@, "add"@, "dev"@, state.interface_name, "type"@, "wireguard"@],
                ),
            ]
        },
        LinuxStage::Tunnel => tunnel_plan(state, key_path),
        LinuxStage::Routes => route_plan(state, listing),
        LinuxStage::Table => seq![fed("nft"@, seq!["-f"@, "-"@], nftables_text(state))],
        _ => Seq::empty(),
    }
}

/// The commands of a stage of bringing about a state, or why the state cannot be brought about.
pub fn stage_commands(
    stage: LinuxStage,
    desired: &DesiredGatewayState,
    interface_exists: bool,
    key_path: &str,
    listing: &[u8],
) -> (r: Result<Vec<CommandSpec>, DriverError>)
    ensures
        stage == LinuxStage::Table && state_problem(desired@) is Some ==> (r matches Err(
            DriverError::Invalid(m),
        ) && m@ == state_problem(desired@)->0),
        stage != LinuxStage::Table || state_problem(desired@) is None ==> (r matches Ok(list)
            && command_views(list@) == stage_plan(
            stage,
            desired@,
            interface_exists,
            key_path@,
            listing@,
        )),
{
    let mut out: Vec<CommandSpec> = Vec::new();
    assert(command_views(out@) =~= Seq::<CommandView>::empty());
    match stage {
        LinuxStage::Forwarding => {
            push_command(&mut out, forwarding_command());
        },
        LinuxStage::Interface => {
            if !interface_exists {
                push_command(&mut out, create_command(desired.interface_name.as_str()));
            }
        },
        LinuxStage::Tunnel => {
            return Ok(tunnel_commands(desired, key_path));
        },
        LinuxStage::Routes => {
            return Ok(route_commands(desired, listing));
        },
        LinuxStage::Table => {
            match table_command(desired) {
                Ok(c) => push_command(&mut out, c),
                Err(error) => return Err(error),
            }
        },
        _ => {},
    }
    assert(command_views(out@) =~= stage_plan(
        stage,
        desired@,
        interface_exists,
        key_path@,
        listing@,
    ));
    Ok(out)
}

/// What the commands that look at a gateway say of it.
pub fn observed(
    gateway_id: Uuid,
    listen_port: u16,
    public_key: &[u8],
    version: &[u8],
    actual_state_hash: String,
) -> (r: ObservedGateway)
    ensures
        r.gateway_id == gateway_id,
        r.listen_port == listen_port,
        r.public_key@ == trimmed(utf8_lossy(public_key@)),
        r.backend_version@ == trimmed(utf8_lossy(version@)),
        r.actual_state_hash@ == actual_state_hash@,
{
    let key = lossy_text(public_key);
    let tools = lossy_text(version);
    ObservedGateway {
        gateway_id,
        public_key: trim(key.as_str()),
        listen_port,
        actual_state_hash,
        backend_version: trim(tools.as_str()),
    }
}

} // verus!
