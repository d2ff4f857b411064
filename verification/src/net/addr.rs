//! Addresses: how they are written, and which of them can be dialled.

use vstd::prelude::*;

use crate::net::digest::{hex_digit, is_hex};
use crate::text::{all_digits, before, chars_of, decimal, digits_value, holds, is_digit, joined, law_decimal_is_base_ten, law_decimal_reads_back, law_digits_are_the_decimal, law_joining_puts_one_between, law_split_is_at_the_first, lemma_decimal_holds_no, number, number_digits, parse_number, piece, split_first, split_once};

verus! {

/// An address without a port. The first byte is the highest.
#[derive(Clone, Copy, Debug, PartialEq, Eq, Structural)]
pub enum IpAddr {
    V4(u32),
    V6(u128),
}

/// An address with a port.
#[derive(Clone, Copy, Debug, PartialEq, Eq, Structural)]
pub struct SocketAddr {
    pub ip: IpAddr,
    pub port: u16,
}

impl SocketAddr {
    /// Whether the address is an IPv4 one.
    pub open spec fn is_v4(self) -> bool {
        self.ip is V4
    }

    /// Whether the address is this machine's own.
    pub open spec fn loops_back(self) -> bool {
        match self.ip {
            IpAddr::V4(bits) => bits / 0x100_0000 == 127,
            IpAddr::V6(bits) => bits == 1,
        }
    }

    /// Whether the address names no machine.
    pub open spec fn names_none(self) -> bool {
        match self.ip {
            IpAddr::V4(bits) => bits == 0,
            IpAddr::V6(bits) => bits == 0,
        }
    }

    /// Whether the address is an IPv4 one.
    pub fn is_ipv4(&self) -> (out: bool)
        ensures
            out == self.is_v4(),
    {
        match self.ip {
            IpAddr::V4(_) => true,
            IpAddr::V6(_) => false,
        }
    }

    /// Whether the address is this machine's own.
    pub fn is_loopback(&self) -> (out: bool)
        ensures
            out == self.loops_back(),
    {
        match self.ip {
            IpAddr::V4(bits) => bits / 0x100_0000 == 127,
            IpAddr::V6(bits) => bits == 1,
        }
    }

    /// Whether the address names no machine.
    pub fn is_unspecified(&self) -> (out: bool)
        ensures
            out == self.names_none(),
    {
        match self.ip {
            IpAddr::V4(bits) => bits == 0,
            IpAddr::V6(bits) => bits == 0,
        }
    }
}

/// The IPv4 addresses among some that are, or are not, this machine's own, in
/// their order.
pub open spec fn v4_only(addrs: Seq<SocketAddr>, own: bool) -> Seq<SocketAddr>
    decreases addrs.len(),
{
    if addrs.len() == 0 {
        Seq::empty()
    } else {
        let rest = v4_only(addrs.drop_last(), own);
        if addrs.last().is_v4() && addrs.last().loops_back() == own {
            rest.push(addrs.last())
        } else {
            rest
        }
    }
}

/// The addresses that can be dialled, best first: the IPv4 ones, this
/// machine's own last.
pub open spec fn dialable(addrs: Seq<SocketAddr>) -> Seq<SocketAddr> {
    v4_only(addrs, false) + v4_only(addrs, true)
}

/// The advertised addresses this device can actually dial, best first.
///
/// Link-local IPv6 is dropped because reaching it needs the interface scope,
/// which is lost when a record is turned into a plain address. The rest of
/// IPv6 is dropped because listeners bind IPv4.
pub fn usable(addrs: &Vec<SocketAddr>) -> (out: Vec<SocketAddr>)
    ensures
        out@ == dialable(addrs@),
{
    let mut out: Vec<SocketAddr> = Vec::new();
    collect(addrs, false, &mut out);
    collect(addrs, true, &mut out);
    assert(out@ =~= dialable(addrs@));
    out
}

fn collect(addrs: &Vec<SocketAddr>, own: bool, out: &mut Vec<SocketAddr>)
    ensures
        final(out)@ == old(out)@ + v4_only(addrs@, own),
{
    let ghost start = out@;
    for i in 0..addrs.len()
        invariant
            out@ == start + v4_only(addrs@.take(i as int), own),
    {
        let ghost next = addrs@.take(i as int + 1);
        assert(next.drop_last() =~= addrs@.take(i as int));
        if addrs[i].is_ipv4() && addrs[i].is_loopback() == own {
            out.push(addrs[i]);
        }
        assert(out@ =~= start + v4_only(next, own));
    }
    assert(addrs@.take(addrs@.len() as int) =~= addrs@);
}

/// Copies addresses.
pub(crate) fn copy_addrs(addrs: &Vec<SocketAddr>) -> (out: Vec<SocketAddr>)
    ensures
        out@ == addrs@,
{
    let mut out: Vec<SocketAddr> = Vec::new();
    for i in 0..addrs.len()
        invariant
            out@ == addrs@.take(i as int),
    {
        out.push(addrs[i]);
        assert(addrs@.take(i as int).push(addrs@[i as int]) =~= addrs@.take(i as int + 1));
    }
    assert(addrs@.take(addrs@.len() as int) =~= addrs@);
    out
}

/// A number of at most three digits below 256, written without leading zeros.
pub open spec fn octet(s: Seq<char>) -> Option<nat> {
    if 1 <= s.len() <= 3 && all_digits(s) && (s[0] == '0' ==> s.len() == 1) && digits_value(s)
        <= 255 {
        Some(digits_value(s))
    } else {
        None
    }
}

/// The address that four octets with dots between them write.
pub open spec fn v4_of(s: Seq<char>) -> Option<nat> {
    match split_first(s, '.') {
        None => None,
        Some((a, rest)) => match split_first(rest, '.') {
            None => None,
            Some((b, rest)) => match split_first(rest, '.') {
                None => None,
                Some((c, d)) => match (octet(a), octet(b), octet(c), octet(d)) {
                    (Some(a), Some(b), Some(c), Some(d)) => Some(
                        a * 0x100_0000 + b * 0x1_0000 + c * 0x100 + d,
                    ),
                    _ => None,
                },
            },
        },
    }
}

/// A port: digits that write a number of sixteen bits.
pub open spec fn port_of(s: Seq<char>) -> Option<nat> {
    if s.len() > 0 && all_digits(s) && digits_value(s) <= 0xffff {
        Some(digits_value(s))
    } else {
        None
    }
}

/// One to four hexadecimal digits.
pub open spec fn is_group(s: Seq<char>) -> bool {
    &&& 1 <= s.len() <= 4
    &&& forall|i: int| 0 <= i < s.len() ==> hex_digit(#[trigger] s[i]) is Some
}

/// How many groups of an IPv6 address a text with colons between them writes.
/// Where `tail` is set the last may be an IPv4 address, which counts for two.
pub open spec fn groups(s: Seq<char>, tail: bool) -> Option<nat>
    decreases s.len(),
{
    match split_first(s, ':') {
        None => if is_group(s) {
            Some(1)
        } else if tail && v4_of(s) is Some {
            Some(2)
        } else {
            None
        },
        Some((head, rest)) => if is_group(head) && rest.len() < s.len() {
            match groups(rest, tail) {
                Some(n) => Some(n + 1),
                None => None,
            }
        } else {
            None
        },
    }
}

/// As many groups as a text writes, none where it is empty.
pub open spec fn groups_or_none(s: Seq<char>, tail: bool) -> Option<nat> {
    if s.len() == 0 {
        Some(0)
    } else {
        groups(s, tail)
    }
}

/// Where two colons first stand next to each other, or the text's length.
pub open spec fn double_colon(s: Seq<char>, from: nat) -> nat
    decreases s.len() - from,
{
    if from + 1 >= s.len() {
        s.len()
    } else if s[from as int] == ':' && s[from as int + 1] == ':' {
        from
    } else {
        double_colon(s, from + 1)
    }
}

/// Whether a text is an IPv6 address: eight groups, or fewer with one `::` for
/// those left out.
pub open spec fn is_v6(s: Seq<char>) -> bool {
    let at = double_colon(s, 0) as int;
    if at >= s.len() {
        groups(s, true) == Some(8nat)
    } else {
        match (groups_or_none(s.take(at), false), groups_or_none(s.skip(at + 2), true)) {
            (Some(a), Some(b)) => a + b <= 7,
            _ => false,
        }
    }
}

/// Whether a text is digits that write a number of thirty-two bits.
pub open spec fn is_scope(s: Seq<char>) -> bool {
    s.len() > 0 && all_digits(s) && digits_value(s) <= 0xffff_ffff
}

/// Whether a text is an IPv6 address in brackets with a port.
pub open spec fn is_v6_socket(s: Seq<char>) -> bool {
    &&& s.len() > 0
    &&& s[0] == '['
    &&& match split_first(s.skip(1), ']') {
        None => false,
        Some((inner, rest)) => {
            &&& rest.len() > 0
            &&& rest[0] == ':'
            &&& port_of(rest.skip(1)) is Some
            &&& match split_first(inner, '%') {
                None => is_v6(inner),
                Some((ip, scope)) => is_v6(ip) && is_scope(scope),
            }
        },
    }
}

/// What an address with a port is written as.
pub enum Written {
    V4 { bits: nat, port: nat },
    V6,
}

/// The address with a port that a text writes.
pub open spec fn socket_of(s: Seq<char>) -> Option<Written> {
    let v4 = match split_first(s, ':') {
        None => None,
        Some((ip, port)) => match (v4_of(ip), port_of(port)) {
            (Some(bits), Some(port)) => Some(Written::V4 { bits, port }),
            _ => None,
        },
    };
    if v4 is Some {
        v4
    } else if is_v6_socket(s) {
        Some(Written::V6)
    } else {
        None
    }
}

/// Reads digits that write a number no greater than `max`.
fn read_digits(chars: &[char], max: u64) -> (out: Option<u64>)
    ensures
        match out {
            Some(n) => {
                &&& chars@.len() > 0
                &&& all_digits(chars@)
                &&& digits_value(chars@) == n
                &&& n <= max
            },
            None => !(chars@.len() > 0 && all_digits(chars@) && digits_value(chars@) <= max),
        },
{
    if chars.len() == 0 || chars[0] == '+' {
        assert(chars@.len() > 0 ==> !is_digit(chars@[0]));
        return None;
    }
    assert(number_digits(chars@) == chars@);
    parse_number(chars, max)
}

fn read_octet(chars: &[char]) -> (out: Option<u32>)
    ensures
        match octet(chars@) {
            Some(n) => out == Some(n as u32) && n <= 255,
            None => out is None,
        },
{
    if chars.len() == 0 || chars.len() > 3 {
        return None;
    }
    if chars[0] == '0' && chars.len() > 1 {
        return None;
    }
    match read_digits(chars, 255) {
        Some(n) => Some(n as u32),
        None => None,
    }
}

fn read_v4(chars: &[char]) -> (out: Option<u32>)
    ensures
        match v4_of(chars@) {
            Some(bits) => out == Some(bits as u32) && bits <= u32::MAX,
            None => out is None,
        },
{
    match split_once(chars, '.') {
        None => None,
        Some((a, rest)) => match split_once(rest.as_slice(), '.') {
            None => None,
            Some((b, rest)) => match split_once(rest.as_slice(), '.') {
                None => None,
                Some((c, d)) => match (
                    read_octet(a.as_slice()),
                    read_octet(b.as_slice()),
                    read_octet(c.as_slice()),
                    read_octet(d.as_slice()),
                ) {
                    (Some(a), Some(b), Some(c), Some(d)) => Some(
                        a * 0x100_0000 + b * 0x1_0000 + c * 0x100 + d,
                    ),
                    _ => None,
                },
            },
        },
    }
}

fn read_group(chars: &[char]) -> (out: bool)
    ensures
        out == is_group(chars@),
{
    if chars.len() == 0 || chars.len() > 4 {
        return false;
    }
    for i in 0..chars.len()
        invariant
            forall|j: int| 0 <= j < i ==> hex_digit(#[trigger] chars@[j]) is Some,
    {
        let c = chars[i];
        let hex = ('0' <= c && c <= '9') || ('a' <= c && c <= 'f') || ('A' <= c && c <= 'F');
        if !hex {
            assert(hex_digit(chars@[i as int]) is None);
            return false;
        }
    }
    true
}

fn count_groups(chars: &[char], tail: bool) -> (out: Option<usize>)
    ensures
        match groups(chars@, tail) {
            Some(n) => (out matches Some(m) && m == n) && n <= chars@.len() + 1,
            None => out is None,
        },
    decreases chars@.len(),
{
    match split_once(chars, ':') {
        None => if read_group(chars) {
            Some(1)
        } else if tail && read_v4(chars).is_some() {
            proof {
                if chars@.len() == 0 {
                    assert(!holds(chars@, '.'));
                }
            }
            Some(2)
        } else {
            None
        },
        Some((head, rest)) => if read_group(head.as_slice()) && rest.len() < chars.len() {
            match count_groups(rest.as_slice(), tail) {
                Some(n) => Some(n + 1),
                None => None,
            }
        } else {
            None
        },
    }
}

fn count_groups_or_none(chars: &[char], tail: bool) -> (out: Option<usize>)
    ensures
        match groups_or_none(chars@, tail) {
            Some(n) => (out matches Some(m) && m == n) && n <= chars@.len() + 1,
            None => out is None,
        },
{
    if chars.len() == 0 {
        Some(0)
    } else {
        count_groups(chars, tail)
    }
}

fn find_double_colon(chars: &[char]) -> (at: usize)
    ensures
        at == double_colon(chars@, 0),
        at < chars@.len() ==> at + 2 <= chars@.len(),
        at <= chars@.len(),
{
    let mut at: usize = 0;
    while at < chars.len() && at + 1 < chars.len()
        invariant
            at <= chars@.len(),
            double_colon(chars@, 0) == double_colon(chars@, at as nat),
        decreases chars@.len() - at,
    {
        if chars[at] == ':' && chars[at + 1] == ':' {
            return at;
        }
        at = at + 1;
    }
    chars.len()
}

fn read_v6(chars: &[char]) -> (out: bool)
    ensures
        out == is_v6(chars@),
{
    let at = find_double_colon(chars);
    if at == chars.len() {
        match count_groups(chars, true) {
            Some(n) => n == 8,
            None => false,
        }
    } else {
        let head = piece(chars, 0, at);
        let tail = piece(chars, at + 2, chars.len());
        assert(head@ =~= chars@.take(at as int));
        assert(tail@ =~= chars@.skip(at as int + 2));
        match (
            count_groups_or_none(head.as_slice(), false),
            count_groups_or_none(tail.as_slice(), true),
        ) {
            (Some(a), Some(b)) => a <= 7 && b <= 7 - a,
            _ => false,
        }
    }
}

fn read_v6_socket(chars: &[char]) -> (out: bool)
    ensures
        out == is_v6_socket(chars@),
{
    if chars.len() == 0 || chars[0] != '[' {
        return false;
    }
    let body = piece(chars, 1, chars.len());
    assert(body@ =~= chars@.skip(1));
    match split_once(body.as_slice(), ']') {
        None => false,
        Some((inner, rest)) => {
            if rest.len() == 0 || rest[0] != ':' {
                return false;
            }
            let port = piece(rest.as_slice(), 1, rest.len());
            assert(port@ =~= rest@.skip(1));
            if read_digits(port.as_slice(), 0xffff).is_none() {
                return false;
            }
            match split_once(inner.as_slice(), '%') {
                None => read_v6(inner.as_slice()),
                Some((ip, scope)) => read_v6(ip.as_slice()) && read_digits(
                    scope.as_slice(),
                    0xffff_ffff,
                ).is_some(),
            }
        },
    }
}

/// An address with a port as it was written: an IPv4 one in full, of an IPv6
/// one only that it is one.
#[derive(Clone, Copy, Debug, PartialEq, Eq, Structural)]
pub enum Address {
    V4(SocketAddr),
    V6,
}

/// Reads an address with a port.
pub fn parse_socket(text: &str) -> (out: Option<Address>)
    ensures
        match socket_of(text@) {
            Some(Written::V4 { bits, port }) => out == Some(
                Address::V4(SocketAddr { ip: IpAddr::V4(bits as u32), port: port as u16 }),
            ) && bits <= u32::MAX && port <= u16::MAX,
            Some(Written::V6) => out == Some(Address::V6),
            None => out is None,
        },
{
    let chars = chars_of(text);
    if let Some((ip, port)) = split_once(chars.as_slice(), ':') {
        if let (Some(bits), Some(port)) = (
            read_v4(ip.as_slice()),
            read_digits(port.as_slice(), 0xffff),
        ) {
            return Some(Address::V4(SocketAddr { ip: IpAddr::V4(bits), port: port as u16 }));
        }
    }
    if read_v6_socket(chars.as_slice()) {
        Some(Address::V6)
    } else {
        None
    }
}

/// Reads an IPv4 address.
pub fn parse_ipv4(text: &str) -> (out: Option<u32>)
    ensures
        match v4_of(text@) {
            Some(bits) => out == Some(bits as u32) && bits <= u32::MAX,
            None => out is None,
        },
{
    let chars = chars_of(text);
    read_v4(chars.as_slice())
}

proof fn lemma_v4_only(addrs: Seq<SocketAddr>, own: bool, addr: SocketAddr)
    ensures
        v4_only(addrs, own).contains(addr) <==> addrs.contains(addr) && addr.is_v4()
            && addr.loops_back() == own,
    decreases addrs.len(),
{
    if addrs.len() > 0 {
        let init = addrs.drop_last();
        let last = addrs.last();
        lemma_v4_only(init, own, addr);
        let rest = v4_only(init, own);
        assert(addrs.contains(addr) <==> init.contains(addr) || last == addr) by {
            if init.contains(addr) {
                let i = choose|i: int| 0 <= i < init.len() && init[i] == addr;
                assert(addrs[i] == addr);
            }
            if last == addr {
                assert(addrs[addrs.len() - 1] == addr);
            }
            if addrs.contains(addr) {
                let i = choose|i: int| 0 <= i < addrs.len() && addrs[i] == addr;
                if i < init.len() {
                    assert(init[i] == addr);
                }
            }
        }
        let with = rest.push(last);
        assert(with.contains(addr) <==> rest.contains(addr) || last == addr) by {
            if rest.contains(addr) {
                let i = choose|i: int| 0 <= i < rest.len() && rest[i] == addr;
                assert(with[i] == addr);
            }
            if last == addr {
                assert(with[rest.len() as int] == addr);
            }
            if with.contains(addr) {
                let i = choose|i: int| 0 <= i < with.len() && with[i] == addr;
                if i < rest.len() {
                    assert(rest[i] == addr);
                }
            }
        }
    }
}

/// Exactly the IPv4 addresses are dialled.
pub proof fn law_exactly_ipv4_is_dialled(addrs: Seq<SocketAddr>, addr: SocketAddr)
    ensures
        dialable(addrs).contains(addr) <==> addrs.contains(addr) && addr.is_v4(),
{
    lemma_v4_only(addrs, false, addr);
    lemma_v4_only(addrs, true, addr);
    let a = v4_only(addrs, false);
    let b = v4_only(addrs, true);
    if a.contains(addr) {
        let i = choose|i: int| 0 <= i < a.len() && a[i] == addr;
        assert(dialable(addrs)[i] == addr);
    }
    if b.contains(addr) {
        let i = choose|i: int| 0 <= i < b.len() && b[i] == addr;
        assert(dialable(addrs)[a.len() + i] == addr);
    }
    if dialable(addrs).contains(addr) {
        let i = choose|i: int| 0 <= i < dialable(addrs).len() && dialable(addrs)[i] == addr;
        if i < a.len() {
            assert(a[i] == addr);
        } else {
            assert(b[i - a.len()] == addr);
        }
    }
}

/// An octet is read exactly where it is the decimal of a number up to 255.
proof fn lemma_octet(s: Seq<char>, n: nat)
    ensures
        octet(s) == Some(n) <==> n <= 255 && s == decimal(n),
{
    if octet(s) == Some(n) {
        law_digits_are_the_decimal(s);
    }
    if n <= 255 && s == decimal(n) {
        law_decimal_reads_back(n);
        law_decimal_is_base_ten(n);
        assert(is_digit(s[0]));
        assert(number_digits(s) == s);
        assert(digits_value(s) == n);
        if n >= 10 {
            law_decimal_is_base_ten(n / 10);
            assert(s[0] == decimal(n / 10)[0]);
            if n / 10 >= 10 {
                law_decimal_is_base_ten(n / 100);
                assert(decimal(n / 10).drop_last() == decimal(n / 10 / 10));
                assert(s[0] == decimal(n / 10 / 10)[0]);
            }
        }
    }
}

/// Four bytes in decimal with dots between them.
pub open spec fn dotted(a: u8, b: u8, c: u8, d: u8) -> Seq<char> {
    decimal(a as nat) + "."@ + decimal(b as nat) + "."@ + decimal(c as nat) + "."@ + decimal(
        d as nat,
    )
}

/// An IPv4 address is read exactly where it is four bytes in decimal with dots
/// between them, and the first of them is the highest.
pub proof fn law_ipv4_is_four_decimal_bytes(s: Seq<char>, a: u8, b: u8, c: u8, d: u8)
    ensures
        v4_of(dotted(a, b, c, d)) == Some(
            (((a as nat * 256 + b as nat) * 256 + c as nat) * 256 + d as nat),
        ),
        v4_of(s) is Some ==> exists|a: u8, b: u8, c: u8, d: u8| s == #[trigger] dotted(a, b, c, d),
{
    lemma_written_ipv4(a as nat, b as nat, c as nat, d as nat);
    if v4_of(s) is Some {
        lemma_read_ipv4(s);
    }
}

proof fn lemma_read_ipv4(s: Seq<char>)
    requires
        v4_of(s) is Some,
    ensures
        exists|a: u8, b: u8, c: u8, d: u8| s == #[trigger] dotted(a, b, c, d),
{
    reveal_strlit(".");
    law_split_is_at_the_first(s, '.');
    let (ta, ra) = split_first(s, '.').unwrap();
    law_split_is_at_the_first(ra, '.');
    let (tb, rb) = split_first(ra, '.').unwrap();
    law_split_is_at_the_first(rb, '.');
    let (tc, td) = split_first(rb, '.').unwrap();
    let (a, b, c, d) = (
        octet(ta).unwrap(),
        octet(tb).unwrap(),
        octet(tc).unwrap(),
        octet(td).unwrap(),
    );
    lemma_octet(ta, a);
    lemma_octet(tb, b);
    lemma_octet(tc, c);
    lemma_octet(td, d);
    assert(s =~= ta + "."@ + tb + "."@ + tc + "."@ + td);
    assert(s == dotted(a as u8, b as u8, c as u8, d as u8));
}

proof fn lemma_written_ipv4(a: nat, b: nat, c: nat, d: nat)
    requires
        a <= 255,
        b <= 255,
        c <= 255,
        d <= 255,
    ensures
        v4_of(decimal(a) + "."@ + decimal(b) + "."@ + decimal(c) + "."@ + decimal(d)) == Some(
            a * 0x100_0000 + b * 0x1_0000 + c * 0x100 + d,
        ),
{
    reveal_strlit(".");
    let (ta, tb, tc, td) = (decimal(a), decimal(b), decimal(c), decimal(d));
    let s = ta + "."@ + tb + "."@ + tc + "."@ + td;
    let rb = tc + "."@ + td;
    let ra = tb + "."@ + rb;
    lemma_octet(ta, a);
    lemma_octet(tb, b);
    lemma_octet(tc, c);
    lemma_octet(td, d);
    lemma_cut(ta, ra, s, a, '.');
    lemma_cut(tb, rb, ra, b, '.');
    lemma_cut(tc, td, rb, c, '.');
}

/// A text is cut after the decimal that it begins with.
proof fn lemma_cut(head: Seq<char>, tail: Seq<char>, s: Seq<char>, n: nat, c: char)
    requires
        !is_digit(c),
        head == decimal(n),
        s =~= head.push(c) + tail,
    ensures
        split_first(s, c) == Some((head, tail)),
{
    lemma_decimal_holds_no(n, c);
    law_split_is_at_the_first(s, c);
    assert(s[head.len() as int] == c);
    assert(before(head.push(c) + tail, c) == head);
    assert(s.skip(head.len() as int + 1) =~= tail);
}

/// An address with a port is read as it was written: four decimal bytes, a colon,
/// and the port.
#[verifier::spinoff_prover]
pub proof fn law_written_address_is_read(a: u8, b: u8, c: u8, d: u8, port: u16)
    ensures
        socket_of(dotted(a, b, c, d) + ":"@ + decimal(port as nat)) == Some(
            Written::V4 {
                bits: ((a as nat * 256 + b as nat) * 256 + c as nat) * 256 + d as nat,
                port: port as nat,
            },
        ),
{
    reveal_strlit(":");
    let ip = dotted(a, b, c, d);
    let p = decimal(port as nat);
    let s = ip + ":"@ + p;
    law_ipv4_is_four_decimal_bytes(ip, a, b, c, d);
    law_decimal_reads_back(port as nat);
    assert(is_digit(p[0]));
    assert(number_digits(p) == p);
    assert(digits_value(p) == port);
    lemma_dotted_holds_no_colon(a, b, c, d);
    assert(s =~= ip.push(':') + p);
    law_split_is_at_the_first(s, ':');
    assert(s[ip.len() as int] == ':');
    assert(before(ip.push(':') + p, ':') == ip);
    assert(s.skip(ip.len() as int + 1) =~= p);
}

proof fn lemma_dotted_holds_no_colon(a: u8, b: u8, c: u8, d: u8)
    ensures
        !dotted(a, b, c, d).contains(':'),
{
    reveal_strlit(".");
    let (ta, tb, tc, td) = (
        decimal(a as nat),
        decimal(b as nat),
        decimal(c as nat),
        decimal(d as nat),
    );
    let ip = dotted(a, b, c, d);
    lemma_decimal_holds_no(a as nat, ':');
    lemma_decimal_holds_no(b as nat, ':');
    lemma_decimal_holds_no(c as nat, ':');
    lemma_decimal_holds_no(d as nat, ':');
    if ip.contains(':') {
        let i = ip.index_of(':');
        let (la, lb, lc) = (ta.len() as int, tb.len() as int, tc.len() as int);
        if i < la {
            assert(ta[i] == ':');
        } else if la < i < la + 1 + lb {
            assert(tb[i - la - 1] == ':');
        } else if la + 1 + lb < i < la + lb + lc + 2 {
            assert(tc[i - la - lb - 2] == ':');
        } else if la + lb + lc + 2 < i {
            assert(td[i - la - lb - lc - 3] == ':');
        }
    }
}

/// Whatever is read as an IPv4 address with a port was written so.
pub proof fn law_read_address_was_written(s: Seq<char>, bits: nat, port: nat)
    requires
        socket_of(s) == Some(Written::V4 { bits, port }),
    ensures
        port < 0x1_0000,
        exists|a: u8, b: u8, c: u8, d: u8, digits: Seq<char>|
            s == #[trigger] (dotted(a, b, c, d) + ":"@ + digits) && number(digits) == Some(port)
                && bits == ((a as nat * 256 + b as nat) * 256 + c as nat) * 256 + d as nat,
{
    reveal_strlit(":");
    law_split_is_at_the_first(s, ':');
    let (ip, digits) = split_first(s, ':').unwrap();
    lemma_read_ipv4(ip);
    let (a, b, c, d) = choose|a: u8, b: u8, c: u8, d: u8| ip == #[trigger] dotted(a, b, c, d);
    law_ipv4_is_four_decimal_bytes(ip, a, b, c, d);
    assert(is_digit(digits[0]));
    assert(number_digits(digits) == digits);
    assert(s =~= dotted(a, b, c, d) + ":"@ + digits);
}

proof fn lemma_v4_only_is_a_filter(addrs: Seq<SocketAddr>, own: bool)
    ensures
        v4_only(addrs, own) == addrs.filter(
            |a: SocketAddr|
                a.ip matches IpAddr::V4(bits) && (bits as int / 0x100_0000 == 127) == own,
        ),
    decreases addrs.len(),
{
    reveal(Seq::filter);
    if addrs.len() > 0 {
        lemma_v4_only_is_a_filter(addrs.drop_last(), own);
    }
}

/// The addresses dialled are the IPv4 ones in their order, those of this machine
/// itself, which begin with 127, after all of the others.
pub proof fn law_own_addresses_are_dialled_last(addrs: Seq<SocketAddr>)
    ensures
        dialable(addrs) == addrs.filter(
            |a: SocketAddr|
                a.ip matches IpAddr::V4(bits) && (bits as int / 0x100_0000 == 127) == false,
        ) + addrs.filter(
            |a: SocketAddr|
                a.ip matches IpAddr::V4(bits) && (bits as int / 0x100_0000 == 127) == true,
        ),
{
    lemma_v4_only_is_a_filter(addrs, false);
    lemma_v4_only_is_a_filter(addrs, true);
    let others = |a: SocketAddr|
        a.ip matches IpAddr::V4(bits) && (bits as int / 0x100_0000 == 127) == false;
    let own = |a: SocketAddr|
        a.ip matches IpAddr::V4(bits) && (bits as int / 0x100_0000 == 127) == true;
    assert(others =~= |a: SocketAddr|
        a.ip matches IpAddr::V4(bits) && (bits as int / 0x100_0000 == 127) == false);
    assert(own =~= |a: SocketAddr|
        a.ip matches IpAddr::V4(bits) && (bits as int / 0x100_0000 == 127) == true);
}

/// Four bytes with dots between them are no address with a port.
pub proof fn lemma_dotted_alone(a: u8, b: u8, c: u8, d: u8)
    ensures
        socket_of(dotted(a, b, c, d)) is None,
{
    let s = dotted(a, b, c, d);
    lemma_dotted_holds_no_colon(a, b, c, d);
    law_split_is_at_the_first(s, ':');
    law_decimal_reads_back(a as nat);
    let ta = decimal(a as nat);
    assert(is_digit(ta[0]));
    assert(s[0] == ta[0]);
    if split_first(s, ':') is Some {
        let (head, tail) = split_first(s, ':').unwrap();
        assert(s[head.len() as int] == ':');
        assert(s.contains(':'));
    }
}

/// Hexadecimal digits are no address, with or without a port.
pub proof fn lemma_hex_is_no_address(text: Seq<char>, width: nat)
    requires
        is_hex(text, width),
        width > 0,
    ensures
        socket_of(text) is None,
        v4_of(text) is None,
{
    assert forall|i: int| 0 <= i < text.len() implies text[i] != ':' && text[i] != '.' && text[i]
        != '[' by {
        assert(hex_digit(text[i]) is Some);
    }
    law_split_is_at_the_first(text, ':');
    law_split_is_at_the_first(text, '.');
    assert(!holds(text, ':'));
    assert(!holds(text, '.'));
    assert(text[0] != '[');
}

/// Whether texts are groups of an IPv6 address: one to four hexadecimal digits each.
pub open spec fn are_groups(parts: Seq<Seq<char>>) -> bool {
    forall|i: int|
        0 <= i < parts.len() ==> 1 <= (#[trigger] parts[i]).len() <= 4 && forall|j: int|
            0 <= j < parts[i].len() ==> hex_digit(#[trigger] parts[i][j]) is Some
}

/// Eight groups with colons between them are an IPv6 address and any other number is
/// none; with two colons in one place for those left out, up to seven are one.
pub proof fn law_ipv6_is_eight_groups(a: Seq<Seq<char>>, b: Seq<Seq<char>>)
    requires
        are_groups(a),
        are_groups(b),
    ensures
        is_v6(joined(a, ":"@)) <==> a.len() == 8,
        is_v6(joined(a, ":"@) + "::"@ + joined(b, ":"@)) <==> a.len() + b.len() <= 7,
{
    reveal_strlit(":");
    reveal_strlit("::");
    assert(":"@ =~= seq![':']);
    let (s, t) = (joined(a, ":"@), joined(b, ":"@));
    lemma_groups_joined(a, true);
    lemma_groups_joined(a, false);
    lemma_groups_joined(b, true);
    lemma_no_double_colon(s, 0);
    let whole = s + "::"@ + t;
    lemma_double_colon_at(whole, 0, s.len() as int, s);
    assert(whole.take(s.len() as int) =~= s);
    assert(whole.skip(s.len() as int + 2) =~= t);
}

/// No two colons stand together, and none at the end.
spec fn parted_by_colons(s: Seq<char>) -> bool {
    &&& forall|i: int, j: int|
        0 <= i && j == i + 1 && j < s.len() && #[trigger] s[i] == ':' ==> #[trigger] s[j] != ':'
    &&& s.len() > 0 ==> s.last() != ':'
}

proof fn lemma_no_double_colon(s: Seq<char>, from: nat)
    requires
        parted_by_colons(s),
    ensures
        double_colon(s, from) == s.len(),
    decreases s.len() - from,
{
    if from + 1 < s.len() {
        lemma_no_double_colon(s, from + 1);
    }
}

proof fn lemma_double_colon_at(whole: Seq<char>, from: nat, at: int, s: Seq<char>)
    requires
        parted_by_colons(s),
        at == s.len(),
        from <= at,
        at + 2 <= whole.len(),
        forall|i: int| 0 <= i < at ==> whole[i] == s[i],
        whole[at] == ':',
        whole[at + 1] == ':',
    ensures
        double_colon(whole, from) == at,
    decreases at - from,
{
    if from < at {
        assert(!(whole[from as int] == ':' && whole[from as int + 1] == ':')) by {
            if from + 1 < at {
                assert(s[from as int] == ':' ==> s[from as int + 1] != ':');
            } else {
                assert(s.last() != ':');
            }
        }
        lemma_double_colon_at(whole, from + 1, at, s);
    }
}

proof fn lemma_parted_by_colons(first: Seq<char>, after: Seq<char>, s: Seq<char>)
    requires
        s == first.push(':') + after,
        forall|j: int| 0 <= j < first.len() ==> first[j] != ':',
        after.len() > 0,
        after[0] != ':',
        parted_by_colons(after),
    ensures
        parted_by_colons(s),
{
    let n = first.len() as int;
    assert forall|i: int, j: int|
        0 <= i && j == i + 1 && j < s.len() && #[trigger] s[i] == ':' implies #[trigger] s[j]
        != ':' by {
        if i < n {
            assert(first[i] == ':');
        } else if i > n {
            assert(after[i - n - 1] == ':');
            assert(after[i - n] != ':');
        }
    }
    assert(s.last() == after.last());
}

#[verifier::spinoff_prover]
proof fn lemma_groups_joined(parts: Seq<Seq<char>>, tail: bool)
    requires
        are_groups(parts),
    ensures
        groups_or_none(joined(parts, seq![':']), tail) == Some(parts.len()),
        parts.len() > 0 ==> joined(parts, seq![':']).len() > 0,
        parted_by_colons(joined(parts, seq![':'])),
        parts.len() > 0 ==> joined(parts, seq![':'])[0] != ':',
    decreases parts.len(),
{
    let s = joined(parts, seq![':']);
    if parts.len() > 0 {
        let first = parts[0];
        assert forall|j: int| 0 <= j < first.len() implies first[j] != ':' by {
            assert(hex_digit(first[j]) is Some);
        }
        assert(is_group(first));
        if parts.len() == 1 {
            law_split_is_at_the_first(s, ':');
            assert(!s.contains(':')) by {
                if s.contains(':') {
                    let i = s.index_of(':');
                    assert(first[i] == ':');
                }
            }
        } else {
            let rest = parts.drop_first();
            assert forall|i: int| 0 <= i < rest.len() implies 1 <= (#[trigger] rest[i]).len() <= 4
                && forall|j: int|
                0 <= j < rest[i].len() ==> hex_digit(#[trigger] rest[i][j]) is Some by {
                assert(rest[i] == parts[i + 1]);
            }
            lemma_groups_joined(rest, tail);
            assert(parts =~= seq![first] + rest);
            law_joining_puts_one_between(seq![first], rest, first, seq![':']);
            let after = joined(rest, seq![':']);
            assert(s =~= first.push(':') + after);
            assert(!first.contains(':')) by {
                if first.contains(':') {
                    let i = first.index_of(':');
                    assert(first[i] == ':');
                }
            }
            law_split_is_at_the_first(s, ':');
            assert(s[first.len() as int] == ':');
            assert(before(first.push(':') + after, ':') == first);
            assert(s.skip(first.len() as int + 1) =~= after);
            assert(split_first(s, ':') == Some((first, after)));
            lemma_parted_by_colons(first, after, s);
        }
    }
}

/// An address names no machine exactly where all of its bits are zero, and is this
/// machine's own exactly where it is an IPv4 one from 127.0.0.0 to 127.255.255.255, or
/// the IPv6 one `::1`.
pub proof fn law_which_addresses_are_special(bits: u32, wide: u128, port: u16)
    ensures
        (SocketAddr { ip: IpAddr::V4(bits), port }).names_none() <==> bits == 0,
        (SocketAddr { ip: IpAddr::V6(wide), port }).names_none() <==> wide == 0,
        (SocketAddr { ip: IpAddr::V4(bits), port }).loops_back() <==> 0x7f00_0000 <= bits
            <= 0x7fff_ffff,
        (SocketAddr { ip: IpAddr::V6(wide), port }).loops_back() <==> wide == 1,
{
}

}
