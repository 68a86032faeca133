//! The JSON of gateway states is unambiguous: different states are written as different texts.

use vstd::arithmetic::div_mod::{lemma_div_denominator, lemma_fundamental_div_mod};
use vstd::arithmetic::power::{lemma_pow0, lemma_pow1, lemma_pow_adds, lemma_pow_positive, pow};
use vstd::prelude::*;

use crate::acl::{AclAction, IpProtocol, PortRange};
use crate::config::{address_texts, network_texts};
use crate::crypto::text_fingerprint;
use crate::fingerprint::{
    bool_json, device_json, ids_json, opt_address_json, ports_json, rule_json, state_json,
};
use crate::ids::{digits_before, uuid_text, Uuid};
use crate::ipv4::{address_text, lemma_address_text_injective, Ipv4Addr, Ipv4Net};
use crate::json::{
    all_quoted, json_array, json_char, json_chars, json_opt_number, json_quoted,
};
use crate::protocol::{action_text, id_texts, protocol_text};
use crate::sets::{ascending, lemma_ascending, listable};
use crate::sort::{lemma_stable_sorted, stable_sorted, Ranked};
use crate::state::{canonical, PeerView, RuleView, StateView};
use crate::text::{
    decimal, hex_digit, is_digit, joined, lemma_decimal, lemma_decimal_injective,
};

verus! {

proof fn lemma_strip(start: Seq<char>, r: Seq<char>, s: Seq<char>)
    requires
        start + r == start + s,
    ensures
        r == s,
{
    let n = start.len() as int;
    assert((start + r).skip(n) =~= r);
    assert((start + s).skip(n) =~= s);
}

proof fn lemma_regroup(x: Seq<char>, y: Seq<char>, z: Seq<char>)
    ensures
        (x + y) + z == x + (y + z),
{
    assert((x + y) + z =~= x + (y + z));
}

/// Some texts one after another.
spec fn flat(parts: Seq<Seq<char>>) -> Seq<char>
    decreases parts.len(),
{
    if parts.len() == 0 {
        Seq::empty()
    } else {
        flat(parts.drop_last()) + parts.last()
    }
}

/// Some texts one after another and then another, read from the front.
spec fn glued(parts: Seq<Seq<char>>, r: Seq<char>) -> Seq<char>
    decreases parts.len(),
{
    if parts.len() == 0 {
        r
    } else {
        parts[0] + glued(parts.drop_first(), r)
    }
}

proof fn lemma_glued_push(parts: Seq<Seq<char>>, last: Seq<char>, r: Seq<char>)
    ensures
        glued(parts.push(last), r) == glued(parts, last + r),
    decreases parts.len(),
{
    let all = parts.push(last);
    if parts.len() == 0 {
        assert(all.drop_first() =~= parts);
        assert(glued(parts, r) == r);
        assert(all[0] == last);
    } else {
        lemma_glued_push(parts.drop_first(), last, r);
        assert(all.drop_first() =~= parts.drop_first().push(last));
        assert(all[0] == parts[0]);
    }
}

proof fn lemma_glued(parts: Seq<Seq<char>>, r: Seq<char>)
    ensures
        flat(parts) + r == glued(parts, r),
    decreases parts.len(),
{
    if parts.len() == 0 {
        assert(flat(parts) + r =~= r);
    } else {
        let before = parts.drop_last();
        lemma_glued(before, parts.last() + r);
        lemma_glued_push(before, parts.last(), r);
        assert(before.push(parts.last()) =~= parts);
        lemma_regroup(flat(before), parts.last(), r);
    }
}

/// One more text.
proof fn lemma_flat(parts: Seq<Seq<char>>, k: int)
    requires
        0 <= k < parts.len(),
    ensures
        flat(parts.take(k + 1)) == flat(parts.take(k)) + parts[k],
        k == 0 ==> flat(parts.take(k + 1)) == parts[k],
        k == parts.len() - 1 ==> flat(parts.take(k + 1)) == flat(parts),
{
    assert(parts.take(k + 1).drop_last() =~= parts.take(k));
    assert(parts.take(k + 1).last() == parts[k]);
    if k == 0 {
        assert(flat(parts.take(0)) + parts[0] =~= parts[0]);
    }
    if k == parts.len() - 1 {
        assert(parts.take(k + 1) =~= parts);
    }
}

proof fn lemma_glued_skip(parts: Seq<Seq<char>>, k: int, r: Seq<char>)
    requires
        0 <= k < parts.len(),
    ensures
        glued(parts.skip(k), r) == parts[k] + glued(parts.skip(k + 1), r),
{
    assert(parts.skip(k)[0] == parts[k]);
    assert(parts.skip(k).drop_first() =~= parts.skip(k + 1));
}

/// Behind the same label stand the same value and what follows.
proof fn lemma_field(x: Seq<Seq<char>>, y: Seq<Seq<char>>, k: int, r: Seq<char>, s: Seq<char>)
    requires
        0 <= k < x.len() - 2,
        x.len() == y.len(),
        x[k] == y[k],
        glued(x.skip(k), r) == glued(y.skip(k), s),
    ensures
        x[k + 1] + glued(x.skip(k + 2), r) == y[k + 1] + glued(y.skip(k + 2), s),
        ends_number(x[k + 2]) ==> ends_number(glued(x.skip(k + 2), r)),
        ends_number(y[k + 2]) ==> ends_number(glued(y.skip(k + 2), s)),
{
    lemma_glued_skip(x, k, r);
    lemma_glued_skip(y, k, s);
    lemma_strip(x[k], glued(x.skip(k + 1), r), glued(y.skip(k + 1), s));
    lemma_glued_skip(x, k + 1, r);
    lemma_glued_skip(y, k + 1, s);
    lemma_glued_skip(x, k + 2, r);
    lemma_glued_skip(y, k + 2, s);
}

/// Behind the same end stands what follows.
proof fn lemma_end(x: Seq<Seq<char>>, y: Seq<Seq<char>>, r: Seq<char>, s: Seq<char>)
    requires
        0 < x.len() == y.len(),
        x.last() == y.last(),
        glued(x.skip(x.len() - 1), r) == glued(y.skip(y.len() - 1), s),
    ensures
        r == s,
{
    lemma_glued_skip(x, x.len() - 1, r);
    lemma_glued_skip(y, y.len() - 1, s);
    assert(x.skip(x.len() as int) =~= Seq::<Seq<char>>::empty());
    assert(y.skip(y.len() as int) =~= Seq::<Seq<char>>::empty());
    lemma_strip(x.last(), r, s);
}

proof fn lemma_hex_digit(a: nat, b: nat)
    requires
        a < 16,
        b < 16,
        hex_digit(a) == hex_digit(b),
    ensures
        a == b,
{
}

/// A character that was written is told from what follows.
proof fn lemma_char(c: char, d: char, r: Seq<char>, s: Seq<char>)
    requires
        json_char(c) + r == json_char(d) + s,
    ensures
        c == d,
        r == s,
{
    let x = json_char(c) + r;
    let y = json_char(d) + s;
    assert(x[0] == json_char(c)[0]);
    assert(y[0] == json_char(d)[0]);
    if json_char(c).len() > 1 {
        assert(x[1] == json_char(c)[1]);
    }
    if json_char(d).len() > 1 {
        assert(y[1] == json_char(d)[1]);
    }
    if json_char(c).len() == 6 && json_char(d).len() == 6 {
        assert(x[4] == json_char(c)[4]);
        assert(y[4] == json_char(d)[4]);
        assert(x[5] == json_char(c)[5]);
        assert(y[5] == json_char(d)[5]);
        lemma_hex_digit(c as nat / 16, d as nat / 16);
        lemma_hex_digit(c as nat % 16, d as nat % 16);
    }
    assert(c == d);
    lemma_strip(json_char(c), r, s);
}

proof fn lemma_chars(a: Seq<char>, b: Seq<char>, r: Seq<char>, s: Seq<char>)
    requires
        json_chars(a) + (seq!['"'] + r) == json_chars(b) + (seq!['"'] + s),
    ensures
        a == b,
        r == s,
    decreases a.len(),
{
    let x = json_chars(a) + (seq!['"'] + r);
    let y = json_chars(b) + (seq!['"'] + s);
    if a.len() > 0 {
        assert(x[0] == json_char(a[0])[0]);
    } else {
        assert(x[0] == '"');
    }
    if b.len() > 0 {
        assert(y[0] == json_char(b[0])[0]);
    } else {
        assert(y[0] == '"');
    }
    if a.len() > 0 && b.len() > 0 {
        let (c, d) = (a.drop_first(), b.drop_first());
        lemma_regroup(json_char(a[0]), json_chars(c), seq!['"'] + r);
        lemma_regroup(json_char(b[0]), json_chars(d), seq!['"'] + s);
        lemma_char(
            a[0],
            b[0],
            json_chars(c) + (seq!['"'] + r),
            json_chars(d) + (seq!['"'] + s),
        );
        lemma_chars(c, d, r, s);
        assert(a =~= seq![a[0]] + c);
        assert(b =~= seq![b[0]] + d);
    } else {
        assert(a =~= b);
        lemma_strip(json_chars(a), seq!['"'] + r, seq!['"'] + s);
        lemma_strip(seq!['"'], r, s);
    }
}

/// A text that was written is told from what follows.
proof fn lemma_quoted(a: Seq<char>, b: Seq<char>, r: Seq<char>, s: Seq<char>)
    requires
        json_quoted(a) + r == json_quoted(b) + s,
    ensures
        a == b,
        r == s,
{
    let quote = seq!['"'];
    assert(json_quoted(a) + r =~= quote + (json_chars(a) + (quote + r)));
    assert(json_quoted(b) + s =~= quote + (json_chars(b) + (quote + s)));
    lemma_strip(quote, json_chars(a) + (quote + r), json_chars(b) + (quote + s));
    lemma_chars(a, b, r, s);
}

proof fn lemma_quoted_start(a: Seq<char>)
    ensures
        json_quoted(a).len() > 0,
        json_quoted(a)[0] == '"',
{
}

/// Whether no digit follows.
spec fn ends_number(s: Seq<char>) -> bool {
    s.len() > 0 && !is_digit(s[0])
}

/// A number that was written is told from what follows, where that is no digit.
proof fn lemma_number(m: nat, n: nat, r: Seq<char>, s: Seq<char>)
    requires
        decimal(m) + r == decimal(n) + s,
        ends_number(r),
        ends_number(s),
    ensures
        m == n,
        r == s,
{
    lemma_decimal(m);
    lemma_decimal(n);
    let (a, b) = (decimal(m), decimal(n));
    let (x, y) = (a + r, b + s);
    if a.len() < b.len() {
        assert(x[a.len() as int] == r[0]);
        assert(y[a.len() as int] == b[a.len() as int]);
        assert(is_digit(b[a.len() as int]));
    }
    if b.len() < a.len() {
        assert(y[b.len() as int] == s[0]);
        assert(x[b.len() as int] == a[b.len() as int]);
        assert(is_digit(a[b.len() as int]));
    }
    assert(a =~= x.take(a.len() as int));
    assert(b =~= y.take(b.len() as int));
    lemma_decimal_injective(m, n);
    lemma_strip(a, r, s);
}

proof fn lemma_optional_number(m: Option<u16>, n: Option<u16>, r: Seq<char>, s: Seq<char>)
    requires
        json_opt_number(m) + r == json_opt_number(n) + s,
        ends_number(r),
        ends_number(s),
    ensures
        m == n,
        r == s,
{
    reveal_strlit("null");
    let x = json_opt_number(m) + r;
    let y = json_opt_number(n) + s;
    if let Some(v) = m {
        lemma_decimal(v as nat);
        assert(x[0] == decimal(v as nat)[0]);
    } else {
        assert(x[0] == 'n');
    }
    if let Some(v) = n {
        lemma_decimal(v as nat);
        assert(y[0] == decimal(v as nat)[0]);
    } else {
        assert(y[0] == 'n');
    }
    match (m, n) {
        (Some(a), Some(b)) => {
            lemma_number(a as nat, b as nat, r, s);
        },
        (None, None) => {
            lemma_strip("null"@, r, s);
        },
        _ => {},
    }
}

proof fn lemma_optional_address(
    a: Option<Ipv4Addr>,
    b: Option<Ipv4Addr>,
    r: Seq<char>,
    s: Seq<char>,
)
    requires
        opt_address_json(a) + r == opt_address_json(b) + s,
    ensures
        a == b,
        r == s,
{
    reveal_strlit("null");
    let x = opt_address_json(a) + r;
    let y = opt_address_json(b) + s;
    if let Some(v) = a {
        lemma_quoted_start(address_text(v));
        assert(x[0] == '"');
    } else {
        assert(x[0] == 'n');
    }
    if let Some(v) = b {
        lemma_quoted_start(address_text(v));
        assert(y[0] == '"');
    } else {
        assert(y[0] == 'n');
    }
    match (a, b) {
        (Some(v), Some(w)) => {
            lemma_address(v, w, r, s);
        },
        (None, None) => {
            lemma_strip("null"@, r, s);
        },
        _ => {},
    }
}

proof fn lemma_truth(a: bool, b: bool, r: Seq<char>, s: Seq<char>)
    requires
        bool_json(a) + r == bool_json(b) + s,
    ensures
        a == b,
        r == s,
{
    reveal_strlit("true");
    reveal_strlit("false");
    assert((bool_json(a) + r)[0] == bool_json(a)[0]);
    assert((bool_json(b) + s)[0] == bool_json(b)[0]);
    lemma_strip(bool_json(a), r, s);
}

pub proof fn lemma_network_text(a: Ipv4Net, b: Ipv4Net)
    requires
        a.text() == b.text(),
    ensures
        a == b,
{
    let (x, y) = (address_text(a.base()), address_text(b.base()));
    lemma_address_chars(a.base());
    lemma_address_chars(b.base());
    let (p, q) = (decimal(a.bits() as nat), decimal(b.bits() as nat));
    assert(a.text() == x + seq!['/'] + p);
    assert(b.text() == y + seq!['/'] + q);
    if x.len() < y.len() {
        assert(a.text()[x.len() as int] == '/');
        assert(b.text()[x.len() as int] == y[x.len() as int]);
    }
    if y.len() < x.len() {
        assert(b.text()[y.len() as int] == '/');
        assert(a.text()[y.len() as int] == x[y.len() as int]);
    }
    assert(x =~= a.text().take(x.len() as int));
    assert(y =~= b.text().take(y.len() as int));
    lemma_address_text_injective(a.base(), b.base());
    assert(p =~= a.text().skip(x.len() as int + 1));
    assert(q =~= b.text().skip(y.len() as int + 1));
    lemma_decimal_injective(a.bits() as nat, b.bits() as nat);
    a.lemma_equal(b);
}

pub proof fn lemma_address_chars(address: Ipv4Addr)
    ensures
        forall|i: int| 0 <= i < address_text(address).len() ==> #[trigger] address_text(address)[i] != '/',
{
    let a = address as nat;
    lemma_decimal(a / 0x100_0000);
    lemma_decimal((a / 0x1_0000) % 0x100);
    lemma_decimal((a / 0x100) % 0x100);
    lemma_decimal(a % 0x100);
    let (p, q, r, s) = (
        decimal(a / 0x100_0000),
        decimal((a / 0x1_0000) % 0x100),
        decimal((a / 0x100) % 0x100),
        decimal(a % 0x100),
    );
    let third = r + seq!['.'] + s;
    let second = q + seq!['.'] + third;
    assert forall|i: int| 0 <= i < third.len() implies #[trigger] third[i] != '/' by {
        if i < r.len() {
            assert(is_digit(r[i]));
        } else if i > r.len() {
            assert(is_digit(s[i - r.len() - 1]));
        }
    }
    assert forall|i: int| 0 <= i < second.len() implies #[trigger] second[i] != '/' by {
        if i < q.len() {
            assert(is_digit(q[i]));
        } else if i > q.len() {
            assert(second[i] == third[i - q.len() - 1]);
        }
    }
    assert forall|i: int| 0 <= i < address_text(address).len() implies #[trigger] address_text(
        address,
    )[i] != '/' by {
        if i < p.len() {
            assert(is_digit(p[i]));
        } else if i > p.len() {
            assert(address_text(address)[i] == second[i - p.len() - 1]);
        }
    }
}

/// Numbers that agree in their higher digits agree.
proof fn lemma_digits(a: int, b: int, k: nat)
    requires
        0 <= a < pow(16, 32),
        0 <= b < pow(16, 32),
        k <= 32,
        forall|j: nat|
            k <= j < 32 ==> (a / #[trigger] pow(16, j)) % 16 == (b / pow(16, j)) % 16,
    ensures
        a / pow(16, k) == b / pow(16, k),
    decreases 32 - k,
{
    lemma_pow_positive(16, k);
    if k == 32 {
        vstd::arithmetic::div_mod::lemma_basic_div(a, pow(16, 32));
        vstd::arithmetic::div_mod::lemma_basic_div(b, pow(16, 32));
    } else {
        lemma_digits(a, b, k + 1);
        lemma_pow_adds(16, k, 1);
        lemma_pow1(16);
        let p = pow(16, k);
        assert(pow(16, k + 1) == p * 16);
        lemma_div_denominator(a, p, 16);
        lemma_div_denominator(b, p, 16);
        lemma_fundamental_div_mod(a / p, 16);
        lemma_fundamental_div_mod(b / p, 16);
    }
}

proof fn lemma_uuid_bound(a: Uuid)
    ensures
        0 <= a < pow(16, 32),
{
    lemma_pow1(16);
    lemma_pow_adds(16, 1, 1);
    lemma_pow_adds(16, 2, 2);
    lemma_pow_adds(16, 4, 4);
    lemma_pow_adds(16, 8, 8);
    lemma_pow_adds(16, 16, 16);
    let (p, q, r, s) = (pow(16, 2), pow(16, 4), pow(16, 8), pow(16, 16));
    assert(p == 0x100);
    assert(p * p == 0x1_0000) by (nonlinear_arith)
        requires
            p == 0x100,
    ;
    assert(q * q == 0x1_0000_0000) by (nonlinear_arith)
        requires
            q == 0x1_0000,
    ;
    assert(r * r == 0x1_0000_0000_0000_0000) by (nonlinear_arith)
        requires
            r == 0x1_0000_0000,
    ;
    assert(s * s == 0x1_0000_0000_0000_0000_0000_0000_0000_0000) by (nonlinear_arith)
        requires
            s == 0x1_0000_0000_0000_0000,
    ;
}

/// The place of the digit with weight 16 to the power `j`.
spec fn place_of(j: int) -> int {
    let n = 31 - j;
    if n < 8 {
        n
    } else if n < 12 {
        n + 1
    } else if n < 16 {
        n + 2
    } else if n < 20 {
        n + 3
    } else {
        n + 4
    }
}

proof fn lemma_uuid_text(a: Uuid, b: Uuid)
    requires
        uuid_text(a) == uuid_text(b),
    ensures
        a == b,
{
    lemma_uuid_bound(a);
    lemma_uuid_bound(b);
    assert forall|j: nat| 0 <= j < 32 implies (a as int / #[trigger] pow(16, j)) % 16 == (b as int
        / pow(16, j)) % 16 by {
        let i = place_of(j as int);
        assert(digits_before(i) == 31 - j);
        assert((31 - digits_before(i)) as nat == j);
        assert(uuid_text(a)[i] == hex_digit(((a as int / pow(16, j)) % 16) as nat));
        assert(uuid_text(b)[i] == hex_digit(((b as int / pow(16, j)) % 16) as nat));
        lemma_hex_digit(
            ((a as int / pow(16, j)) % 16) as nat,
            ((b as int / pow(16, j)) % 16) as nat,
        );
    }
    lemma_digits(a as int, b as int, 0);
    lemma_pow0(16);
}

proof fn lemma_id(a: Uuid, b: Uuid, r: Seq<char>, s: Seq<char>)
    requires
        json_quoted(uuid_text(a)) + r == json_quoted(uuid_text(b)) + s,
    ensures
        a == b,
        r == s,
{
    lemma_quoted(uuid_text(a), uuid_text(b), r, s);
    lemma_uuid_text(a, b);
}

proof fn lemma_address(a: Ipv4Addr, b: Ipv4Addr, r: Seq<char>, s: Seq<char>)
    requires
        json_quoted(address_text(a)) + r == json_quoted(address_text(b)) + s,
    ensures
        a == b,
        r == s,
{
    lemma_quoted(address_text(a), address_text(b), r, s);
    lemma_address_text_injective(a, b);
}

proof fn lemma_network(a: Ipv4Net, b: Ipv4Net, r: Seq<char>, s: Seq<char>)
    requires
        json_quoted(a.text()) + r == json_quoted(b.text()) + s,
    ensures
        a == b,
        r == s,
{
    lemma_quoted(a.text(), b.text(), r, s);
    lemma_network_text(a, b);
}

proof fn lemma_action(a: AclAction, b: AclAction, r: Seq<char>, s: Seq<char>)
    requires
        json_quoted(action_text(a)) + r == json_quoted(action_text(b)) + s,
    ensures
        a == b,
        r == s,
{
    lemma_quoted(action_text(a), action_text(b), r, s);
    reveal_strlit("allow");
    reveal_strlit("deny");
    assert("allow"@[0] == 'a');
    assert("deny"@[0] == 'd');
    assert(action_text(a)[0] == action_text(b)[0]);
}

proof fn lemma_protocol(a: IpProtocol, b: IpProtocol, r: Seq<char>, s: Seq<char>)
    requires
        json_quoted(protocol_text(a)) + r == json_quoted(protocol_text(b)) + s,
    ensures
        a == b,
        r == s,
{
    lemma_quoted(protocol_text(a), protocol_text(b), r, s);
    reveal_strlit("any");
    reveal_strlit("tcp");
    reveal_strlit("udp");
    reveal_strlit("icmp");
    assert("any"@[0] == 'a');
    assert("tcp"@[0] == 't');
    assert("udp"@[0] == 'u');
    assert("icmp"@[0] == 'i');
    assert(protocol_text(a)[0] == protocol_text(b)[0]);
}

/// Some texts, each behind a comma.
spec fn commas(parts: Seq<Seq<char>>) -> Seq<char>
    decreases parts.len(),
{
    if parts.len() == 0 {
        Seq::empty()
    } else {
        ","@ + parts[0] + commas(parts.drop_first())
    }
}

proof fn lemma_commas_push(parts: Seq<Seq<char>>, last: Seq<char>)
    ensures
        commas(parts.push(last)) == commas(parts) + ","@ + last,
    decreases parts.len(),
{
    let all = parts.push(last);
    if parts.len() == 0 {
        assert(all.drop_first() =~= parts);
        assert(commas(parts) =~= Seq::<char>::empty());
        assert(commas(all) =~= commas(parts) + ","@ + last);
    } else {
        let rest = parts.drop_first();
        lemma_commas_push(rest, last);
        assert(all.drop_first() =~= rest.push(last));
        assert(commas(all) =~= commas(parts) + ","@ + last);
    }
}

proof fn lemma_joined_front(parts: Seq<Seq<char>>)
    requires
        parts.len() > 0,
    ensures
        joined(parts, ","@) == parts[0] + commas(parts.drop_first()),
    decreases parts.len(),
{
    let rest = parts.drop_first();
    if parts.len() == 1 {
        assert(rest =~= Seq::<Seq<char>>::empty());
        assert(commas(rest) =~= Seq::<char>::empty());
        assert(joined(parts, ","@) =~= parts[0] + commas(rest));
    } else {
        let before = parts.drop_last();
        lemma_joined_front(before);
        assert(rest =~= before.drop_first().push(parts.last()));
        lemma_commas_push(before.drop_first(), parts.last());
        assert(joined(parts, ","@) =~= parts[0] + commas(rest));
    }
}

/// Whether the texts of values of a sort are told from each other and from what follows.
spec fn tells_apart<T>(f: spec_fn(T) -> Seq<char>, ok: spec_fn(T) -> bool) -> bool {
    &&& forall|a: T, b: T, r: Seq<char>, s: Seq<char>|
        ok(a) && ok(b) && #[trigger] (f(a) + r) == #[trigger] (f(b) + s) ==> a == b && r == s
    &&& forall|a: T| (#[trigger] f(a)).len() > 0 && f(a)[0] != ']'
}

proof fn lemma_tail<T>(
    x: Seq<T>,
    y: Seq<T>,
    f: spec_fn(T) -> Seq<char>,
    ok: spec_fn(T) -> bool,
    r: Seq<char>,
    s: Seq<char>,
)
    requires
        tells_apart(f, ok),
        forall|i: int| 0 <= i < x.len() ==> ok(#[trigger] x[i]),
        forall|i: int| 0 <= i < y.len() ==> ok(#[trigger] y[i]),
        commas(x.map_values(f)) + ("]"@ + r) == commas(y.map_values(f)) + ("]"@ + s),
    ensures
        x == y,
        r == s,
    decreases x.len(),
{
    reveal_strlit(",");
    reveal_strlit("]");
    let (xs, ys) = (x.map_values(f), y.map_values(f));
    let left = commas(xs) + ("]"@ + r);
    let right = commas(ys) + ("]"@ + s);
    assert(left[0] == if x.len() > 0 {
        ','
    } else {
        ']'
    });
    assert(right[0] == if y.len() > 0 {
        ','
    } else {
        ']'
    });
    if x.len() > 0 && y.len() > 0 {
        let (p, q) = (x.drop_first(), y.drop_first());
        assert(xs.drop_first() =~= p.map_values(f));
        assert(ys.drop_first() =~= q.map_values(f));
        let (u, v) = (
            commas(p.map_values(f)) + ("]"@ + r),
            commas(q.map_values(f)) + ("]"@ + s),
        );
        assert(left =~= ","@ + (f(x[0]) + u));
        assert(right =~= ","@ + (f(y[0]) + v));
        lemma_strip(","@, f(x[0]) + u, f(y[0]) + v);
        assert(x[0] == y[0] && u == v);
        assert forall|i: int| 0 <= i < p.len() implies ok(#[trigger] p[i]) by {
            assert(p[i] == x[i + 1]);
        }
        assert forall|i: int| 0 <= i < q.len() implies ok(#[trigger] q[i]) by {
            assert(q[i] == y[i + 1]);
        }
        lemma_tail(p, q, f, ok, r, s);
        assert(x =~= seq![x[0]] + p);
        assert(y =~= seq![y[0]] + q);
    } else {
        assert(x =~= y);
        lemma_strip(commas(xs), "]"@ + r, "]"@ + s);
        lemma_strip("]"@, r, s);
    }
}

/// Values that were written as an array are told from what follows.
proof fn lemma_array<T>(
    x: Seq<T>,
    y: Seq<T>,
    f: spec_fn(T) -> Seq<char>,
    ok: spec_fn(T) -> bool,
    r: Seq<char>,
    s: Seq<char>,
)
    requires
        tells_apart(f, ok),
        forall|i: int| 0 <= i < x.len() ==> ok(#[trigger] x[i]),
        forall|i: int| 0 <= i < y.len() ==> ok(#[trigger] y[i]),
        json_array(x.map_values(f)) + r == json_array(y.map_values(f)) + s,
    ensures
        x == y,
        r == s,
{
    reveal_strlit("[");
    reveal_strlit("]");
    let (xs, ys) = (x.map_values(f), y.map_values(f));
    let (end, stop) = ("]"@ + r, "]"@ + s);
    let (m, n) = (joined(xs, ","@) + end, joined(ys, ","@) + stop);
    assert(json_array(xs) + r =~= "["@ + m);
    assert(json_array(ys) + s =~= "["@ + n);
    lemma_strip("["@, m, n);
    if x.len() > 0 {
        lemma_joined_front(xs);
        assert(xs[0] == f(x[0]));
        assert(m[0] == f(x[0])[0]);
        assert(f(x[0])[0] != ']');
    } else {
        assert(m[0] == ']');
    }
    if y.len() > 0 {
        lemma_joined_front(ys);
        assert(ys[0] == f(y[0]));
        assert(n[0] == f(y[0])[0]);
        assert(f(y[0])[0] != ']');
    } else {
        assert(n[0] == ']');
    }
    if x.len() > 0 && y.len() > 0 {
        let (p, q) = (x.drop_first(), y.drop_first());
        assert(xs.drop_first() =~= p.map_values(f));
        assert(ys.drop_first() =~= q.map_values(f));
        let (u, v) = (commas(p.map_values(f)) + end, commas(q.map_values(f)) + stop);
        assert(m =~= f(x[0]) + u);
        assert(n =~= f(y[0]) + v);
        assert(x[0] == y[0] && u == v);
        assert forall|i: int| 0 <= i < p.len() implies ok(#[trigger] p[i]) by {
            assert(p[i] == x[i + 1]);
        }
        assert forall|i: int| 0 <= i < q.len() implies ok(#[trigger] q[i]) by {
            assert(q[i] == y[i + 1]);
        }
        lemma_tail(p, q, f, ok, r, s);
        assert(x =~= seq![x[0]] + p);
        assert(y =~= seq![y[0]] + q);
    } else {
        assert(x =~= y);
        lemma_strip(joined(xs, ","@), end, stop);
        lemma_strip("]"@, r, s);
    }
}

proof fn lemma_ids(a: Set<Uuid>, b: Set<Uuid>, r: Seq<char>, s: Seq<char>)
    requires
        listable(a),
        listable(b),
        ids_json(a) + r == ids_json(b) + s,
    ensures
        a == b,
        r == s,
{
    let f = |id: Uuid| json_quoted(uuid_text(id));
    let ok = |id: Uuid| true;
    assert forall|x: Uuid, y: Uuid, u: Seq<char>, v: Seq<char>|
        ok(x) && ok(y) && #[trigger] (f(x) + u) == #[trigger] (f(y) + v) implies x == y && u == v by {
        lemma_id(x, y, u, v);
    }
    assert forall|x: Uuid| (#[trigger] f(x)).len() > 0 && f(x)[0] != ']' by {
        lemma_quoted_start(uuid_text(x));
    }
    let (p, q) = (ascending(a), ascending(b));
    assert(all_quoted(id_texts(p)) =~= p.map_values(f));
    assert(all_quoted(id_texts(q)) =~= q.map_values(f));
    lemma_array(p, q, f, ok, r, s);
    lemma_ascending(a);
    lemma_ascending(b);
}

proof fn lemma_networks(a: Seq<Ipv4Net>, b: Seq<Ipv4Net>, r: Seq<char>, s: Seq<char>)
    requires
        json_array(all_quoted(network_texts(a))) + r == json_array(all_quoted(network_texts(b))) + s,
    ensures
        a == b,
        r == s,
{
    let f = |n: Ipv4Net| json_quoted(n.text());
    let ok = |n: Ipv4Net| true;
    assert forall|x: Ipv4Net, y: Ipv4Net, u: Seq<char>, v: Seq<char>|
        ok(x) && ok(y) && #[trigger] (f(x) + u) == #[trigger] (f(y) + v) implies x == y && u == v by {
        lemma_network(x, y, u, v);
    }
    assert forall|x: Ipv4Net| (#[trigger] f(x)).len() > 0 && f(x)[0] != ']' by {
        lemma_quoted_start(x.text());
    }
    assert(all_quoted(network_texts(a)) =~= a.map_values(f));
    assert(all_quoted(network_texts(b)) =~= b.map_values(f));
    lemma_array(a, b, f, ok, r, s);
}

proof fn lemma_addresses(a: Seq<Ipv4Addr>, b: Seq<Ipv4Addr>, r: Seq<char>, s: Seq<char>)
    requires
        json_array(all_quoted(address_texts(a))) + r == json_array(all_quoted(address_texts(b))) + s,
    ensures
        a == b,
        r == s,
{
    let f = |n: Ipv4Addr| json_quoted(address_text(n));
    let ok = |n: Ipv4Addr| true;
    assert forall|x: Ipv4Addr, y: Ipv4Addr, u: Seq<char>, v: Seq<char>|
        ok(x) && ok(y) && #[trigger] (f(x) + u) == #[trigger] (f(y) + v) implies x == y && u == v by {
        lemma_address(x, y, u, v);
    }
    assert forall|x: Ipv4Addr| (#[trigger] f(x)).len() > 0 && f(x)[0] != ']' by {
        lemma_quoted_start(address_text(x));
    }
    assert(all_quoted(address_texts(a)) =~= a.map_values(f));
    assert(all_quoted(address_texts(b)) =~= b.map_values(f));
    lemma_array(a, b, f, ok, r, s);
}

/// The parts of a device in JSON: labels, values and the end.
spec fn device_parts(v: PeerView) -> Seq<Seq<char>> {
    seq![
        "{\"device_id\":"@,
        json_quoted(uuid_text(v.device_id)),
        ",\"user_id\":"@,
        json_quoted(uuid_text(v.user_id)),
        ",\"public_key\":"@,
        json_quoted(v.public_key),
        ",\"allowed_address\":"@,
        json_quoted(address_text(v.allowed_address)),
        ",\"group_ids\":"@,
        ids_json(v.group_ids),
        "}"@,
    ]
}

proof fn lemma_device_parts(v: PeerView, r: Seq<char>)
    ensures
        device_json(v) + r == glued(device_parts(v).skip(0), r),
{
    let parts = device_parts(v);
    lemma_flat(parts, 0);
    lemma_flat(parts, 1);
    lemma_flat(parts, 2);
    lemma_flat(parts, 3);
    lemma_flat(parts, 4);
    lemma_flat(parts, 5);
    lemma_flat(parts, 6);
    lemma_flat(parts, 7);
    lemma_flat(parts, 8);
    lemma_flat(parts, 9);
    lemma_flat(parts, 10);
    lemma_glued(parts, r);
    assert(parts.skip(0) =~= parts);
}

/// A device that was written is told from what follows.
proof fn lemma_device(a: PeerView, b: PeerView, r: Seq<char>, s: Seq<char>)
    requires
        listable(a.group_ids),
        listable(b.group_ids),
        device_json(a) + r == device_json(b) + s,
    ensures
        a == b,
        r == s,
{
    let (x, y) = (device_parts(a), device_parts(b));
    lemma_device_parts(a, r);
    lemma_device_parts(b, s);
    lemma_field(x, y, 0, r, s);
    lemma_id(a.device_id, b.device_id, glued(x.skip(2), r), glued(y.skip(2), s));
    lemma_field(x, y, 2, r, s);
    lemma_id(a.user_id, b.user_id, glued(x.skip(4), r), glued(y.skip(4), s));
    lemma_field(x, y, 4, r, s);
    lemma_quoted(a.public_key, b.public_key, glued(x.skip(6), r), glued(y.skip(6), s));
    lemma_field(x, y, 6, r, s);
    lemma_address(a.allowed_address, b.allowed_address, glued(x.skip(8), r), glued(y.skip(8), s));
    lemma_field(x, y, 8, r, s);
    lemma_ids(a.group_ids, b.group_ids, glued(x.skip(10), r), glued(y.skip(10), s));
    lemma_end(x, y, r, s);
}

/// A port range as an object.
spec fn range_json(range: PortRange) -> Seq<char> {
    "{\"start\":"@ + decimal(range.start as nat) + ",\"end\":"@ + decimal(range.end as nat) + "}"@
}

/// The parts of a port range in JSON: labels, values and the end.
spec fn range_parts(v: PortRange) -> Seq<Seq<char>> {
    seq![
        "{\"start\":"@,
        decimal(v.start as nat),
        ",\"end\":"@,
        decimal(v.end as nat),
        "}"@,
    ]
}

proof fn lemma_range_parts(v: PortRange, r: Seq<char>)
    ensures
        range_json(v) + r == glued(range_parts(v).skip(0), r),
{
    let parts = range_parts(v);
    lemma_flat(parts, 0);
    lemma_flat(parts, 1);
    lemma_flat(parts, 2);
    lemma_flat(parts, 3);
    lemma_flat(parts, 4);
    lemma_glued(parts, r);
    assert(parts.skip(0) =~= parts);
}

/// A port range that was written is told from what follows.
proof fn lemma_range(a: PortRange, b: PortRange, r: Seq<char>, s: Seq<char>)
    requires
        range_json(a) + r == range_json(b) + s,
    ensures
        a == b,
        r == s,
{
    reveal_strlit(",\"end\":");
    reveal_strlit("}");
    let (x, y) = (range_parts(a), range_parts(b));
    lemma_range_parts(a, r);
    lemma_range_parts(b, s);
    lemma_field(x, y, 0, r, s);
    lemma_number(a.start as nat, b.start as nat, glued(x.skip(2), r), glued(y.skip(2), s));
    lemma_field(x, y, 2, r, s);
    lemma_number(a.end as nat, b.end as nat, glued(x.skip(4), r), glued(y.skip(4), s));
    lemma_end(x, y, r, s);
}

proof fn lemma_ports(a: Option<PortRange>, b: Option<PortRange>, r: Seq<char>, s: Seq<char>)
    requires
        ports_json(a) + r == ports_json(b) + s,
    ensures
        a == b,
        r == s,
{
    reveal_strlit("null");
    reveal_strlit("{\"start\":");
    let x = ports_json(a) + r;
    let y = ports_json(b) + s;
    assert(x[0] == if a is Some {
        '{'
    } else {
        'n'
    });
    assert(y[0] == if b is Some {
        '{'
    } else {
        'n'
    });
    match (a, b) {
        (Some(v), Some(w)) => {
            lemma_range(v, w, r, s);
        },
        (None, None) => {
            lemma_strip("null"@, r, s);
        },
        _ => {},
    }
}

/// The parts of an access rule in JSON: labels, values and the end.
spec fn rule_parts(v: RuleView) -> Seq<Seq<char>> {
    seq![
        "{\"id\":"@,
        json_quoted(uuid_text(v.id)),
        ",\"position\":"@,
        decimal(v.position as nat),
        ",\"action\":"@,
        json_quoted(action_text(v.action)),
        ",\"destination\":"@,
        json_quoted(v.destination.text()),
        ",\"protocol\":"@,
        json_quoted(protocol_text(v.protocol)),
        ",\"destination_ports\":"@,
        ports_json(v.destination_ports),
        ",\"subjects\":{\"users\":"@,
        ids_json(v.users),
        ",\"groups\":"@,
        ids_json(v.groups),
        "},\"enabled\":"@,
        bool_json(v.enabled),
        "}"@,
    ]
}

proof fn lemma_rule_parts(v: RuleView, r: Seq<char>)
    ensures
        rule_json(v) + r == glued(rule_parts(v).skip(0), r),
{
    let parts = rule_parts(v);
    lemma_flat(parts, 0);
    lemma_flat(parts, 1);
    lemma_flat(parts, 2);
    lemma_flat(parts, 3);
    lemma_flat(parts, 4);
    lemma_flat(parts, 5);
    lemma_flat(parts, 6);
    lemma_flat(parts, 7);
    lemma_flat(parts, 8);
    lemma_flat(parts, 9);
    lemma_flat(parts, 10);
    lemma_flat(parts, 11);
    lemma_flat(parts, 12);
    lemma_flat(parts, 13);
    lemma_flat(parts, 14);
    lemma_flat(parts, 15);
    lemma_flat(parts, 16);
    lemma_flat(parts, 17);
    lemma_flat(parts, 18);
    lemma_glued(parts, r);
    assert(parts.skip(0) =~= parts);
}

/// An access rule that was written is told from what follows.
proof fn lemma_rule(a: RuleView, b: RuleView, r: Seq<char>, s: Seq<char>)
    requires
        listable(a.users),
        listable(b.users),
        listable(a.groups),
        listable(b.groups),
        rule_json(a) + r == rule_json(b) + s,
    ensures
        a == b,
        r == s,
{
    reveal_strlit(",\"action\":");
    let (x, y) = (rule_parts(a), rule_parts(b));
    lemma_rule_parts(a, r);
    lemma_rule_parts(b, s);
    lemma_field(x, y, 0, r, s);
    lemma_id(a.id, b.id, glued(x.skip(2), r), glued(y.skip(2), s));
    lemma_field(x, y, 2, r, s);
    lemma_number(a.position as nat, b.position as nat, glued(x.skip(4), r), glued(y.skip(4), s));
    lemma_field(x, y, 4, r, s);
    lemma_action(a.action, b.action, glued(x.skip(6), r), glued(y.skip(6), s));
    lemma_field(x, y, 6, r, s);
    lemma_network(a.destination, b.destination, glued(x.skip(8), r), glued(y.skip(8), s));
    lemma_field(x, y, 8, r, s);
    lemma_protocol(a.protocol, b.protocol, glued(x.skip(10), r), glued(y.skip(10), s));
    lemma_field(x, y, 10, r, s);
    lemma_ports(a.destination_ports, b.destination_ports, glued(x.skip(12), r), glued(y.skip(12), s));
    lemma_field(x, y, 12, r, s);
    lemma_ids(a.users, b.users, glued(x.skip(14), r), glued(y.skip(14), s));
    lemma_field(x, y, 14, r, s);
    lemma_ids(a.groups, b.groups, glued(x.skip(16), r), glued(y.skip(16), s));
    lemma_field(x, y, 16, r, s);
    lemma_truth(a.enabled, b.enabled, glued(x.skip(18), r), glued(y.skip(18), s));
    lemma_end(x, y, r, s);
}

spec fn devices_text(peers: Seq<PeerView>) -> Seq<char> {
    json_array(peers.map_values(|p: PeerView| device_json(p)))
}

spec fn rules_text(rules: Seq<RuleView>) -> Seq<char> {
    json_array(rules.map_values(|r: RuleView| rule_json(r)))
}

/// Whether the groups of a device can be listed, as those of every [`BTreeSet`] can.
///
/// [`BTreeSet`]: std::collections::BTreeSet
pub open spec fn peer_is_listable(peer: PeerView) -> bool {
    listable(peer.group_ids)
}

/// Whether the subjects of a rule can be listed, as those of every [`BTreeSet`] can.
///
/// [`BTreeSet`]: std::collections::BTreeSet
pub open spec fn rule_is_listable(rule: RuleView) -> bool {
    listable(rule.users) && listable(rule.groups)
}

/// Whether the sets of a state can be listed.
pub open spec fn is_listable(state: StateView) -> bool {
    &&& forall|i: int| 0 <= i < state.peers.len() ==> peer_is_listable(#[trigger] state.peers[i])
    &&& forall|i: int|
        0 <= i < state.acl_rules.len() ==> rule_is_listable(#[trigger] state.acl_rules[i])
}

proof fn lemma_devices(a: Seq<PeerView>, b: Seq<PeerView>, r: Seq<char>, s: Seq<char>)
    requires
        forall|i: int| 0 <= i < a.len() ==> peer_is_listable(#[trigger] a[i]),
        forall|i: int| 0 <= i < b.len() ==> peer_is_listable(#[trigger] b[i]),
        devices_text(a) + r == devices_text(b) + s,
    ensures
        a == b,
        r == s,
{
    reveal_strlit("{\"device_id\":");
    let f = |p: PeerView| device_json(p);
    let ok = |p: PeerView| peer_is_listable(p);
    assert forall|x: PeerView, y: PeerView, u: Seq<char>, v: Seq<char>|
        ok(x) && ok(y) && #[trigger] (f(x) + u) == #[trigger] (f(y) + v) implies x == y && u == v by {
        lemma_device(x, y, u, v);
    }
    assert forall|x: PeerView| (#[trigger] f(x)).len() > 0 && f(x)[0] != ']' by {
        assert(device_json(x)[0] == '{');
    }
    lemma_array(a, b, f, ok, r, s);
}

proof fn lemma_rules(a: Seq<RuleView>, b: Seq<RuleView>, r: Seq<char>, s: Seq<char>)
    requires
        forall|i: int| 0 <= i < a.len() ==> rule_is_listable(#[trigger] a[i]),
        forall|i: int| 0 <= i < b.len() ==> rule_is_listable(#[trigger] b[i]),
        rules_text(a) + r == rules_text(b) + s,
    ensures
        a == b,
        r == s,
{
    reveal_strlit("{\"id\":");
    let f = |x: RuleView| rule_json(x);
    let ok = |x: RuleView| rule_is_listable(x);
    assert forall|x: RuleView, y: RuleView, u: Seq<char>, v: Seq<char>|
        ok(x) && ok(y) && #[trigger] (f(x) + u) == #[trigger] (f(y) + v) implies x == y && u == v by {
        lemma_rule(x, y, u, v);
    }
    assert forall|x: RuleView| (#[trigger] f(x)).len() > 0 && f(x)[0] != ']' by {
        assert(rule_json(x)[0] == '{');
    }
    lemma_array(a, b, f, ok, r, s);
}

/// The parts of a state in JSON: labels, values and the end.
spec fn state_parts(v: StateView) -> Seq<Seq<char>> {
    seq![
        "{\"gateway_id\":"@,
        json_quoted(uuid_text(v.gateway_id)),
        ",\"revision\":"@,
        decimal(v.revision as nat),
        ",\"interface_name\":"@,
        json_quoted(v.interface_name),
        ",\"listen_port\":"@,
        decimal(v.listen_port as nat),
        ",\"mtu\":"@,
        json_opt_number(v.mtu),
        ",\"compatibility_address\":"@,
        opt_address_json(v.compatibility_address),
        ",\"routes\":"@,
        json_array(all_quoted(network_texts(v.routes))),
        ",\"peers\":"@,
        devices_text(v.peers),
        ",\"acl_default\":"@,
        json_quoted(action_text(v.acl_default)),
        ",\"acl_rules\":"@,
        rules_text(v.acl_rules),
        ",\"terminate_sources\":"@,
        json_array(all_quoted(address_texts(v.terminate_sources))),
        "}"@,
    ]
}

proof fn lemma_state_parts(v: StateView, r: Seq<char>)
    ensures
        state_json(v) + r == glued(state_parts(v).skip(0), r),
{
    let parts = state_parts(v);
    lemma_flat(parts, 0);
    lemma_flat(parts, 1);
    lemma_flat(parts, 2);
    lemma_flat(parts, 3);
    lemma_flat(parts, 4);
    lemma_flat(parts, 5);
    lemma_flat(parts, 6);
    lemma_flat(parts, 7);
    lemma_flat(parts, 8);
    lemma_flat(parts, 9);
    lemma_flat(parts, 10);
    lemma_flat(parts, 11);
    lemma_flat(parts, 12);
    lemma_flat(parts, 13);
    lemma_flat(parts, 14);
    lemma_flat(parts, 15);
    lemma_flat(parts, 16);
    lemma_flat(parts, 17);
    lemma_flat(parts, 18);
    lemma_flat(parts, 19);
    lemma_flat(parts, 20);
    lemma_flat(parts, 21);
    lemma_flat(parts, 22);
    lemma_glued(parts, r);
    assert(parts.skip(0) =~= parts);
}

/// A state that was written is told from what follows.
#[verifier::spinoff_prover]
#[verifier::rlimit(60)]
proof fn lemma_state(a: StateView, b: StateView, r: Seq<char>, s: Seq<char>)
    requires
        is_listable(a),
        is_listable(b),
        state_json(a) + r == state_json(b) + s,
    ensures
        a == b,
        r == s,
{
    reveal_strlit(",\"interface_name\":");
    reveal_strlit(",\"mtu\":");
    reveal_strlit(",\"compatibility_address\":");
    let (x, y) = (state_parts(a), state_parts(b));
    lemma_state_parts(a, r);
    lemma_state_parts(b, s);
    lemma_field(x, y, 0, r, s);
    lemma_id(a.gateway_id, b.gateway_id, glued(x.skip(2), r), glued(y.skip(2), s));
    lemma_field(x, y, 2, r, s);
    lemma_number(a.revision as nat, b.revision as nat, glued(x.skip(4), r), glued(y.skip(4), s));
    lemma_field(x, y, 4, r, s);
    lemma_quoted(a.interface_name, b.interface_name, glued(x.skip(6), r), glued(y.skip(6), s));
    lemma_field(x, y, 6, r, s);
    lemma_number(a.listen_port as nat, b.listen_port as nat, glued(x.skip(8), r), glued(y.skip(8), s));
    lemma_field(x, y, 8, r, s);
    lemma_optional_number(a.mtu, b.mtu, glued(x.skip(10), r), glued(y.skip(10), s));
    lemma_field(x, y, 10, r, s);
    lemma_optional_address(a.compatibility_address, b.compatibility_address, glued(x.skip(12), r), glued(y.skip(12), s));
    lemma_field(x, y, 12, r, s);
    lemma_networks(a.routes, b.routes, glued(x.skip(14), r), glued(y.skip(14), s));
    lemma_field(x, y, 14, r, s);
    lemma_devices(a.peers, b.peers, glued(x.skip(16), r), glued(y.skip(16), s));
    lemma_field(x, y, 16, r, s);
    lemma_action(a.acl_default, b.acl_default, glued(x.skip(18), r), glued(y.skip(18), s));
    lemma_field(x, y, 18, r, s);
    lemma_rules(a.acl_rules, b.acl_rules, glued(x.skip(20), r), glued(y.skip(20), s));
    lemma_field(x, y, 20, r, s);
    lemma_addresses(a.terminate_sources, b.terminate_sources, glued(x.skip(22), r), glued(y.skip(22), s));
    lemma_end(x, y, r, s);
}

/// Different states are written as different texts.
pub proof fn law_json_tells_states_apart(a: StateView, b: StateView)
    requires
        is_listable(a),
        is_listable(b),
        state_json(a) == state_json(b),
    ensures
        a == b,
{
    let none = Seq::<char>::empty();
    lemma_state(a, b, none, none);
}

proof fn lemma_sorted_members<T: Ranked>(values: Seq<T>, i: int)
    requires
        0 <= i < stable_sorted(values).len(),
    ensures
        values.contains(stable_sorted(values)[i]),
{
    broadcast use vstd::seq_lib::group_to_multiset_ensures;

    let sorted = stable_sorted(values);
    lemma_stable_sorted(values);
    assert(sorted.contains(sorted[i]));
    assert(sorted.to_multiset().count(sorted[i]) > 0);
    assert(values.to_multiset().count(sorted[i]) > 0);
}

proof fn lemma_canonical_is_listable(state: StateView)
    requires
        is_listable(state),
    ensures
        is_listable(canonical(state)),
{
    let c = canonical(state);
    assert forall|i: int| 0 <= i < c.peers.len() implies peer_is_listable(#[trigger] c.peers[i]) by {
        lemma_sorted_members(state.peers, i);
        let k = choose|k: int| 0 <= k < state.peers.len() && state.peers[k] == c.peers[i];
        assert(peer_is_listable(state.peers[k]));
    }
    assert forall|i: int| 0 <= i < c.acl_rules.len() implies rule_is_listable(
        #[trigger] c.acl_rules[i],
    ) by {
        lemma_sorted_members(state.acl_rules, i);
        let k = choose|k: int|
            0 <= k < state.acl_rules.len() && state.acl_rules[k] == c.acl_rules[i];
        assert(rule_is_listable(state.acl_rules[k]));
    }
}

/// The text whose digest tells states apart is the same exactly for states of the same canonical
/// form, and with that so is the digest of such states.
pub proof fn law_hashed_texts_tell_canonical_forms_apart(a: StateView, b: StateView)
    requires
        is_listable(a),
        is_listable(b),
    ensures
        state_json(canonical(a)) == state_json(canonical(b)) <==> canonical(a) == canonical(b),
        canonical(a) == canonical(b) ==> text_fingerprint(state_json(canonical(a)))
            == text_fingerprint(state_json(canonical(b))),
{
    lemma_canonical_is_listable(a);
    lemma_canonical_is_listable(b);
    if state_json(canonical(a)) == state_json(canonical(b)) {
        law_json_tells_states_apart(canonical(a), canonical(b));
    }
}

} // verus!
