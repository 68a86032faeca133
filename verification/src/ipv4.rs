//! IPv4 addresses and networks.

use vstd::arithmetic::div_mod::*;
use vstd::arithmetic::mul::*;
use vstd::arithmetic::power2::*;
use vstd::prelude::*;
use vstd::string::*;

use crate::text::{
    chars_of, decimal, decimal_text, digits_value, is_digit, lemma_decimal,
    lemma_decimal_injective, lemma_split_first, push_char, same_text, split_first, split_once,
};

verus! {

/// An IPv4 address: its four octets, the first the most significant.
pub type Ipv4Addr = u32;

/// The dotted-decimal text of an address.
pub open spec fn address_text(a: u32) -> Seq<char> {
    decimal(a as nat / 0x100_0000) + seq!['.'] + (decimal((a as nat / 0x1_0000) % 0x100) + seq!['.']
        + (decimal((a as nat / 0x100) % 0x100) + seq!['.'] + decimal(a as nat % 0x100)))
}

/// The address with the given octets.
pub fn address_of(a: u8, b: u8, c: u8, d: u8) -> (r: Ipv4Addr)
    ensures
        r == a * 0x100_0000 + b * 0x1_0000 + c * 0x100 + d,
{
    a as u32 * 0x100_0000 + b as u32 * 0x1_0000 + c as u32 * 0x100 + d as u32
}

/// The dotted-decimal text of an address.
pub fn address_to_text(a: Ipv4Addr) -> (r: String)
    ensures
        r@ == address_text(a),
{
    let mut out = decimal_text((a / 0x100_0000) as u64);
    push_char(&mut out, '.');
    out.append(decimal_text(((a / 0x1_0000) % 0x100) as u64).as_str());
    push_char(&mut out, '.');
    out.append(decimal_text(((a / 0x100) % 0x100) as u64).as_str());
    push_char(&mut out, '.');
    out.append(decimal_text((a % 0x100) as u64).as_str());
    assert(out@ =~= address_text(a));
    out
}

/// The value of a text of one to three digits.
fn octet_candidate(s: &str) -> (r: Option<u32>)
    ensures
        r is Some ==> r->0 < 1000,
        forall|n: nat| n < 256 && s@ == #[trigger] decimal(n) ==> r == Some(n as u32),
{
    let chars = chars_of(s);
    proof {
        assert forall|n: nat| n < 256 && s@ == #[trigger] decimal(n) implies s@.len() <= 3 by {
            reveal_with_fuel(decimal, 4);
            if n >= 100 {
                assert(n / 10 < 100);
                assert(n / 10 / 10 < 10);
            }
        }
        assert forall|n: nat| s@ == #[trigger] decimal(n) implies digits_value(s@) == n && (forall|
            i: int,
        |
            0 <= i < s@.len() ==> is_digit(#[trigger] s@[i])) by {
            lemma_decimal(n);
        }
    }
    if chars.len() > 3 {
        return None;
    }
    let mut value: u32 = 0;
    let mut i: usize = 0;
    assert(chars@.take(0) =~= Seq::<char>::empty());
    while i < chars.len()
        invariant
            i <= chars@.len() <= 3,
            chars@ == s@,
            value == digits_value(chars@.take(i as int)),
            i == 0 ==> value == 0,
            i == 1 ==> value < 10,
            i == 2 ==> value < 100,
            i == 3 ==> value < 1000,
            forall|n: nat|
                s@ == #[trigger] decimal(n) ==> (forall|j: int|
                    0 <= j < s@.len() ==> is_digit(#[trigger] s@[j])),
        decreases chars@.len() - i,
    {
        let c = chars[i];
        if !('0' <= c && c <= '9') {
            assert(!is_digit(s@[i as int]));
            return None;
        }
        assert(chars@.take(i + 1).drop_last() =~= chars@.take(i as int));
        value = value * 10 + (c as u32 - '0' as u32);
        i = i + 1;
    }
    assert(chars@.take(i as int) =~= s@);
    Some(value)
}

proof fn lemma_decimal_has_no(n: nat, c: char)
    requires
        !is_digit(c),
    ensures
        !decimal(n).contains(c),
{
    lemma_decimal(n);
}

/// The parts of a dotted-decimal text between its dots.
pub proof fn lemma_address_text_splits(a: u32)
    ensures
        split_first(address_text(a), '.') == Some(
            (
                decimal(a as nat / 0x100_0000),
                decimal((a as nat / 0x1_0000) % 0x100) + seq!['.'] + (decimal(
                    (a as nat / 0x100) % 0x100,
                ) + seq!['.'] + decimal(a as nat % 0x100)),
            ),
        ),
        split_first(
            decimal((a as nat / 0x1_0000) % 0x100) + seq!['.'] + (decimal((a as nat / 0x100) % 0x100)
                + seq!['.'] + decimal(a as nat % 0x100)),
            '.',
        ) == Some(
            (
                decimal((a as nat / 0x1_0000) % 0x100),
                decimal((a as nat / 0x100) % 0x100) + seq!['.'] + decimal(a as nat % 0x100),
            ),
        ),
        split_first(
            decimal((a as nat / 0x100) % 0x100) + seq!['.'] + decimal(a as nat % 0x100),
            '.',
        ) == Some((decimal((a as nat / 0x100) % 0x100), decimal(a as nat % 0x100))),
{
    let (p, q, r, s) = (
        decimal(a as nat / 0x100_0000),
        decimal((a as nat / 0x1_0000) % 0x100),
        decimal((a as nat / 0x100) % 0x100),
        decimal(a as nat % 0x100),
    );
    lemma_decimal_has_no(a as nat / 0x100_0000, '.');
    lemma_decimal_has_no((a as nat / 0x1_0000) % 0x100, '.');
    lemma_decimal_has_no((a as nat / 0x100) % 0x100, '.');
    lemma_split_first(p, '.', q + seq!['.'] + (r + seq!['.'] + s));
    lemma_split_first(q, '.', r + seq!['.'] + s);
    lemma_split_first(r, '.', s);
}

/// An address is made of its four octets.
proof fn lemma_octets(a: nat)
    ensures
        a == (a / 0x100_0000) * 0x100_0000 + ((a / 0x1_0000) % 0x100) * 0x1_0000 + ((a / 0x100)
            % 0x100) * 0x100 + a % 0x100,
{
    assert(a / 0x1_0000 == (a / 0x100) / 0x100);
    assert(a / 0x100_0000 == (a / 0x1_0000) / 0x100);
}

/// Addresses with the same dotted-decimal text are equal.
pub proof fn lemma_address_text_injective(a: u32, b: u32)
    requires
        address_text(a) == address_text(b),
    ensures
        a == b,
{
    lemma_address_text_splits(a);
    lemma_address_text_splits(b);
    lemma_octets(a as nat);
    lemma_octets(b as nat);
    lemma_decimal_injective(a as nat / 0x100_0000, b as nat / 0x100_0000);
    lemma_decimal_injective((a as nat / 0x1_0000) % 0x100, (b as nat / 0x1_0000) % 0x100);
    lemma_decimal_injective((a as nat / 0x100) % 0x100, (b as nat / 0x100) % 0x100);
    lemma_decimal_injective(a as nat % 0x100, b as nat % 0x100);
}

/// The address that a text writes in dotted decimal, where it does: four numbers up to 255
/// without leading zeros, separated by dots.
pub open spec fn address_parsed(s: Seq<char>) -> Option<u32> {
    if exists|a: u32| s == #[trigger] address_text(a) {
        Some(choose|a: u32| s == #[trigger] address_text(a))
    } else {
        None
    }
}

/// The text of an address is read back as that address.
pub proof fn law_addresses_are_read_back(a: u32)
    ensures
        address_parsed(address_text(a)) == Some(a),
{
    let b = choose|b: u32| address_text(a) == #[trigger] address_text(b);
    lemma_address_text_injective(a, b);
}

/// The address that a text writes in dotted decimal, where it does.
pub fn parse_address(s: &str) -> (r: Option<Ipv4Addr>)
    ensures
        r == address_parsed(s@),
        r is Some ==> s@ == address_text(r->0),
        forall|a: u32| s@ == #[trigger] address_text(a) ==> r == Some(a),
{
    let candidate = address_candidate(s);
    match candidate {
        Some(a) => {
            let text = address_to_text(a);
            if same_text(text.as_str(), s) {
                proof {
                    assert forall|b: u32| s@ == #[trigger] address_text(b) implies b == a by {
                        lemma_address_text_injective(a, b);
                    }
                }
                Some(a)
            } else {
                None
            }
        },
        None => None,
    }
}

fn address_candidate(s: &str) -> (r: Option<Ipv4Addr>)
    ensures
        forall|a: u32| s@ == #[trigger] address_text(a) ==> r == Some(a),
{
    let ghost written = exists|a: u32| s@ == #[trigger] address_text(a);
    let ghost a0 = choose|a: u32| s@ == #[trigger] address_text(a);
    proof {
        lemma_address_text_splits(a0);
        assert forall|a: u32| s@ == #[trigger] address_text(a) implies a == a0 by {
            lemma_address_text_injective(a, a0);
        }
    }
    let (first, rest) = match split_once(s, '.') {
        Some(parts) => parts,
        None => return None,
    };
    let (second, rest2) = match split_once(rest.as_str(), '.') {
        Some(parts) => parts,
        None => return None,
    };
    let (third, fourth) = match split_once(rest2.as_str(), '.') {
        Some(parts) => parts,
        None => return None,
    };
    let octets = (
        octet_candidate(first.as_str()),
        octet_candidate(second.as_str()),
        octet_candidate(third.as_str()),
        octet_candidate(fourth.as_str()),
    );
    proof {
        if written {
            let n = a0 as nat;
            assert(octets.0 == Some((n / 0x100_0000) as u32));
            assert(octets.1 == Some(((n / 0x1_0000) % 0x100) as u32));
            assert(octets.2 == Some(((n / 0x100) % 0x100) as u32));
            assert(octets.3 == Some((n % 0x100) as u32));
            lemma_octets(n);
        }
    }
    combine_octets(octets.0, octets.1, octets.2, octets.3)
}

/// The address made of four octets, where all four are there and fit a byte.
fn combine_octets(p: Option<u32>, q: Option<u32>, r: Option<u32>, t: Option<u32>) -> (address:
    Option<Ipv4Addr>)
    ensures
        p is Some && q is Some && r is Some && t is Some && p->0 < 256 && q->0 < 256 && r->0 < 256
            && t->0 < 256 ==> address == Some(
            (p->0 * 0x100_0000 + q->0 * 0x1_0000 + r->0 * 0x100 + t->0) as u32,
        ),
{
    match (p, q, r, t) {
        (Some(p), Some(q), Some(r), Some(t)) => {
            if p < 256 && q < 256 && r < 256 && t < 256 {
                Some(p * 0x100_0000 + q * 0x1_0000 + r * 0x100 + t)
            } else {
                None
            }
        },
        _ => None,
    }
}

/// How many addresses a network with the given prefix length holds.
pub open spec fn block_size(prefix_len: u8) -> int {
    pow2((32 - prefix_len) as nat) as int
}

/// The first address of the network of `prefix_len` bits that holds `addr`.
pub open spec fn block_first(addr: u32, prefix_len: u8) -> int {
    addr as int - addr as int % block_size(prefix_len)
}

/// The last address of the network of `prefix_len` bits that holds `addr`.
pub open spec fn block_last(addr: u32, prefix_len: u8) -> int {
    block_first(addr, prefix_len) + block_size(prefix_len) - 1
}

/// The address and prefix length that `ipnet` reads in a text such as `10.0.0.0/8`.
pub uninterp spec fn network_parsed(s: Seq<char>) -> Option<(u32, u8)>;

/// Calls `ipnet::Ipv4Net::network`: the address with its host bits cleared.
#[verifier::external_body]
fn network_address(addr: u32, prefix_len: u8) -> (r: u32)
    requires
        prefix_len <= 32,
    ensures
        r == block_first(addr, prefix_len),
{
    ipnet::Ipv4Net::new_assert(addr.into(), prefix_len).network().into()
}

/// Calls `ipnet::Ipv4Net::broadcast`: the address with its host bits set.
#[verifier::external_body]
fn broadcast_address(addr: u32, prefix_len: u8) -> (r: u32)
    requires
        prefix_len <= 32,
    ensures
        r == block_last(addr, prefix_len),
{
    ipnet::Ipv4Net::new_assert(addr.into(), prefix_len).broadcast().into()
}

/// Calls `ipnet::Ipv4Net::contains` on an address: it lies between the network address and
/// the broadcast address, both included.
#[verifier::external_body]
fn network_contains(addr: u32, prefix_len: u8, other: u32) -> (r: bool)
    requires
        prefix_len <= 32,
    ensures
        r == (block_first(addr, prefix_len) <= other <= block_last(addr, prefix_len)),
{
    let other = ipnet::Ipv4Net::new_assert(other.into(), 32).addr();
    ipnet::Ipv4Net::new_assert(addr.into(), prefix_len).contains(&other)
}

/// Calls `ipnet::Ipv4Net::to_string`: the address, a slash and the prefix length.
#[verifier::external_body]
fn render_network(addr: u32, prefix_len: u8) -> (r: String)
    requires
        prefix_len <= 32,
    ensures
        r@ == network_text(addr, prefix_len),
{
    ipnet::Ipv4Net::new_assert(addr.into(), prefix_len).to_string()
}

/// Calls `ipnet`'s parser of IPv4 networks: its result is [`network_parsed`] of the text, a
/// prefix length is at most 32, and the text of a network is read back as that network.
#[verifier::external_body]
fn read_network(s: &str) -> (r: Option<(u32, u8)>)
    ensures
        r == network_parsed(s@),
        r matches Some(net) ==> net.1 <= 32,
        forall|addr: u32, prefix_len: u8|
            prefix_len <= 32 && s@ == #[trigger] network_text(addr, prefix_len) ==> r == Some(
                (addr, prefix_len),
            ),
{
    let parsed: Option<ipnet::Ipv4Net> = s.parse().ok();
    parsed.map(|net| (net.addr().into(), net.prefix_len()))
}

/// The text of a network: its address, a slash and its prefix length.
pub open spec fn network_text(addr: u32, prefix_len: u8) -> Seq<char> {
    address_text(addr) + seq!['/'] + decimal(prefix_len as nat)
}

/// The prefix length of an IPv4 network is at most 32.
#[derive(Debug, Clone, Copy, PartialEq, Eq, Structural)]
pub struct PrefixLenError;

/// An IPv4 network: an address and how many of its leading bits name the network. The
/// address may have host bits set.
#[derive(Debug, Clone, Copy, PartialEq, Eq, Structural)]
pub struct Ipv4Net {
    addr: u32,
    prefix_len: u8,
}

impl Ipv4Net {
    #[verifier::type_invariant]
    spec fn prefix_fits(self) -> bool {
        self.prefix_len <= 32
    }

    /// The address that the network was written with.
    pub closed spec fn base(self) -> u32 {
        self.addr
    }

    /// The prefix length.
    pub closed spec fn bits(self) -> u8 {
        self.prefix_len
    }

    /// The prefix length is one that a network can have.
    pub open spec fn wf(self) -> bool {
        self.bits() <= 32
    }

    /// The network with an address and a prefix length.
    pub closed spec fn of(addr: u32, prefix_len: u8) -> Self {
        Ipv4Net { addr, prefix_len }
    }

    /// A network is made of its address and prefix length.
    pub broadcast proof fn lemma_of(addr: u32, prefix_len: u8)
        ensures
            (#[trigger] Self::of(addr, prefix_len)).base() == addr,
            Self::of(addr, prefix_len).bits() == prefix_len,
    {
    }

    /// The lowest address of the network.
    pub open spec fn first(self) -> int {
        block_first(self.base(), self.bits())
    }

    /// The highest address of the network.
    pub open spec fn last(self) -> int {
        block_last(self.base(), self.bits())
    }

    /// Whether the network holds an address.
    pub open spec fn holds(self, address: u32) -> bool {
        self.first() <= address <= self.last()
    }

    /// The text of the network.
    pub open spec fn text(self) -> Seq<char> {
        network_text(self.base(), self.bits())
    }

    /// The order of networks: by address, then by prefix length.
    pub open spec fn precedes(self, other: Self) -> bool {
        self.base() < other.base() || (self.base() == other.base() && self.bits() <= other.bits())
    }

    /// The network with an address and a prefix length.
    pub fn new(addr: Ipv4Addr, prefix_len: u8) -> (r: Result<Self, PrefixLenError>)
        ensures
            r is Ok <==> prefix_len <= 32,
            r is Ok ==> r->Ok_0.base() == addr && r->Ok_0.bits() == prefix_len,
    {
        if prefix_len > 32 {
            Err(PrefixLenError)
        } else {
            Ok(Ipv4Net { addr, prefix_len })
        }
    }

    /// The address that the network was written with.
    pub fn addr(&self) -> (r: Ipv4Addr)
        ensures
            r == self.base(),
    {
        self.addr
    }

    /// The prefix length.
    pub fn prefix_len(&self) -> (r: u8)
        ensures
            r == self.bits(),
            self.wf(),
    {
        proof {
            use_type_invariant(*self);
        }
        self.prefix_len
    }

    /// The lowest address of the network.
    pub fn network(&self) -> (r: Ipv4Addr)
        ensures
            r == self.first(),
            self.wf(),
    {
        proof {
            use_type_invariant(*self);
        }
        network_address(self.addr, self.prefix_len)
    }

    /// The highest address of the network.
    pub fn broadcast(&self) -> (r: Ipv4Addr)
        ensures
            r == self.last(),
            self.wf(),
    {
        proof {
            use_type_invariant(*self);
        }
        broadcast_address(self.addr, self.prefix_len)
    }

    /// Whether the network holds an address.
    pub fn contains(&self, address: Ipv4Addr) -> (r: bool)
        ensures
            r == self.holds(address),
    {
        proof {
            use_type_invariant(*self);
        }
        network_contains(self.addr, self.prefix_len, address)
    }

    /// The network that a text such as `10.0.0.0/8` writes.
    pub fn parse(s: &str) -> (r: Option<Self>)
        ensures
            match r {
                Some(net) => network_parsed(s@) == Some((net.base(), net.bits())) && net.wf(),
                None => network_parsed(s@) is None,
            },
            forall|net: Ipv4Net| net.wf() && s@ == #[trigger] net.text() ==> r == Some(net),
    {
        match read_network(s) {
            Some((addr, prefix_len)) => {
                let r = Ipv4Net { addr, prefix_len };
                assert forall|net: Ipv4Net| net.wf() && s@ == #[trigger] net.text() implies net
                    == r by {
                    assert(s@ == network_text(net.addr, net.prefix_len));
                }
                Some(r)
            },
            None => {
                assert forall|net: Ipv4Net| net.wf() implies s@ != #[trigger] net.text() by {
                    if s@ == net.text() {
                        assert(s@ == network_text(net.addr, net.prefix_len));
                    }
                }
                None
            },
        }
    }

    /// The text of the network.
    pub fn to_text(&self) -> (r: String)
        ensures
            r@ == self.text(),
            self.wf(),
    {
        proof {
            use_type_invariant(*self);
        }
        render_network(self.addr, self.prefix_len)
    }

    /// Whether the network comes no later than another in the order of networks.
    pub fn at_most(&self, other: &Ipv4Net) -> (r: bool)
        ensures
            r == self.precedes(*other),
    {
        self.addr < other.addr || (self.addr == other.addr && self.prefix_len <= other.prefix_len)
    }

    /// Networks with the same address and prefix length are equal.
    pub proof fn lemma_equal(self, other: Self)
        requires
            self.base() == other.base(),
            self.bits() == other.bits(),
        ensures
            self == other,
    {
    }
}

/// The size of a network divides the number of all addresses.
pub proof fn lemma_block(addr: u32, prefix_len: u8)
    requires
        prefix_len <= 32,
    ensures
        1 <= block_size(prefix_len) <= 0x1_0000_0000,
        block_size(prefix_len) * pow2(prefix_len as nat) == 0x1_0000_0000,
        0 <= block_first(addr, prefix_len) <= addr <= block_last(addr, prefix_len) <= u32::MAX,
        block_first(addr, prefix_len) % block_size(prefix_len) == 0,
{
    let size = block_size(prefix_len);
    let count = pow2(prefix_len as nat) as int;
    lemma_pow2_adds((32 - prefix_len) as nat, prefix_len as nat);
    lemma2_to64();
    lemma_pow2_pos((32 - prefix_len) as nat);
    lemma_pow2_pos(prefix_len as nat);
    assert(size * count == 0x1_0000_0000);
    assert(size <= 0x1_0000_0000) by (nonlinear_arith)
        requires
            size * count == 0x1_0000_0000,
            count >= 1,
            size >= 1,
    ;
    let q = addr as int / size;
    lemma_fundamental_div_mod(addr as int, size);
    assert(block_first(addr, prefix_len) == size * q);
    lemma_mod_bound(addr as int, size);
    assert(q < count) by (nonlinear_arith)
        requires
            size * q <= addr,
            addr < size * count,
            size >= 1,
    ;
    assert(size * q + size <= size * count) by (nonlinear_arith)
        requires
            q < count,
            size >= 1,
    ;
    lemma_mod_multiples_basic(q, size);
    lemma_mul_is_commutative(q, size);
}

/// Two networks that share an address: the larger holds all of the smaller.
pub proof fn lemma_blocks_nest(a: Ipv4Net, b: Ipv4Net)
    requires
        a.wf(),
        b.wf(),
        a.bits() <= b.bits(),
        a.first() <= b.last(),
        b.first() <= a.last(),
    ensures
        a.first() <= b.first(),
        b.last() <= a.last(),
{
    let sa = block_size(a.bits());
    let sb = block_size(b.bits());
    lemma_block(a.base(), a.bits());
    lemma_block(b.base(), b.bits());
    lemma_pow2_adds((32 - b.bits()) as nat, (b.bits() - a.bits()) as nat);
    let k = pow2((b.bits() - a.bits()) as nat) as int;
    lemma_pow2_pos((b.bits() - a.bits()) as nat);
    assert(sa == sb * k);
    let p = a.first() / sa;
    let q = b.first() / sb;
    lemma_fundamental_div_mod(a.first(), sa);
    lemma_fundamental_div_mod(b.first(), sb);
    assert(a.first() == sa * p && b.first() == sb * q);
    assert(a.first() == sb * (k * p)) by (nonlinear_arith)
        requires
            a.first() == sa * p,
            sa == sb * k,
    ;
    let kp = k * p;
    assert(kp <= q) by (nonlinear_arith)
        requires
            sb * kp <= sb * q + sb - 1,
            sb >= 1,
    ;
    assert(a.last() == sb * (kp + k) - 1) by (nonlinear_arith)
        requires
            a.last() == sb * kp + sa - 1,
            sa == sb * k,
    ;
    assert(q < kp + k) by (nonlinear_arith)
        requires
            sb * q <= sb * (kp + k) - 1,
            sb >= 1,
    ;
    assert(sb * kp <= sb * q && sb * q + sb <= sb * (kp + k)) by (nonlinear_arith)
        requires
            kp <= q,
            q < kp + k,
            sb >= 1,
    ;
}

/// A socket address: an IPv4 address and a port.
#[derive(Debug, Clone, Copy, PartialEq, Eq, Structural)]
pub struct SocketAddrV4 {
    pub ip: Ipv4Addr,
    pub port: u16,
}

} // verus!
