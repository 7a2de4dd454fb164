//! Socket addresses and their text.

use crate::text;
use crate::text::{decimal, digit_char, is_digit, last_index_of, trim_end_matches, trim_matches, unsigned_of};
use vstd::prelude::*;

verus! {

/// An IP address and a port.
#[allow(inconsistent_fields)]
#[derive(Clone, Copy, Debug, PartialEq, Eq)]
pub enum SocketAddress {
    V4 { octets: [u8; 4], port: u16 },
    V6 { octets: [u8; 16], port: u16 },
}

/// Why a text names no host and port.
#[derive(Clone, Copy, Debug, PartialEq, Eq, Structural)]
pub enum AddrError {
    /// There is no colon.
    NoPort,
    /// What follows the last colon is no port number.
    BadPort,
}

/// An IPv4 address in dotted decimal.
pub open spec fn ipv4_chars(o: Seq<u8>) -> Seq<char> {
    decimal(o[0] as nat) + seq!['.'] + decimal(o[1] as nat) + seq!['.'] + decimal(o[2] as nat)
        + seq!['.'] + decimal(o[3] as nat)
}

/// The hexadecimal digit of a number below sixteen.
pub open spec fn hex_char(d: nat) -> char {
    if d < 10 {
        digit_char(d)
    } else {
        ('a' as nat + (d - 10)) as char
    }
}

/// A number in hexadecimal, in small letters, without leading zeros.
pub open spec fn hex_chars(n: nat) -> Seq<char>
    decreases n,
{
    if n < 16 {
        seq![hex_char(n)]
    } else {
        hex_chars(n / 16).push(hex_char(n % 16))
    }
}

/// Numbers in hexadecimal with colons between them.
pub open spec fn join_hex(segs: Seq<u16>) -> Seq<char>
    decreases segs.len(),
{
    if segs.len() == 0 {
        Seq::empty()
    } else if segs.len() == 1 {
        hex_chars(segs[0] as nat)
    } else {
        join_hex(segs.drop_last()).push(':') + hex_chars(segs.last() as nat)
    }
}

/// The eight segments of an IPv6 address.
pub open spec fn segments_of(o: Seq<u8>) -> Seq<u16> {
    Seq::new(8, |i: int| (o[2 * i] * 256 + o[2 * i + 1]) as u16)
}

/// How many segments from `i` on are zero before one is not.
pub open spec fn zero_run(segs: Seq<u16>, i: int) -> nat
    decreases segs.len() - i,
{
    if 0 <= i < segs.len() && segs[i] == 0 {
        1 + zero_run(segs, i + 1)
    } else {
        0
    }
}

/// Where, from `i` on, the longest run of zero segments starts, and the
/// first such where several are as long.
pub open spec fn longest_run(segs: Seq<u16>, i: int) -> int
    decreases segs.len() - i,
{
    if i >= segs.len() {
        i
    } else if zero_run(segs, i) >= zero_run(segs, longest_run(segs, i + 1)) {
        i
    } else {
        longest_run(segs, i + 1)
    }
}

/// Whether an IPv6 address stands for an IPv4 address.
pub open spec fn is_ipv4_mapped(o: Seq<u8>) -> bool {
    &&& forall|i: int| 0 <= i < 10 ==> o[i] == 0
    &&& o[10] == 255
    &&& o[11] == 255
}

/// An IPv6 address in the form of RFC 5952: segments in hexadecimal, the
/// longest run of two or more zero segments replaced by two colons, and an
/// IPv4 address that it stands for in dotted decimal.
pub open spec fn ipv6_chars(o: Seq<u8>) -> Seq<char> {
    let segs = segments_of(o);
    let start = longest_run(segs, 0);
    let len = zero_run(segs, start);
    if is_ipv4_mapped(o) {
        seq![':', ':', 'f', 'f', 'f', 'f', ':'] + ipv4_chars(o.skip(12))
    } else if len > 1 {
        join_hex(segs.take(start)) + seq![':', ':'] + join_hex(segs.skip(start + len))
    } else {
        join_hex(segs)
    }
}

impl SocketAddress {
    /// The port.
    pub open spec fn port_of(self) -> u16 {
        match self {
            SocketAddress::V4 { port, .. } => port,
            SocketAddress::V6 { port, .. } => port,
        }
    }

    /// The text of the IP address alone.
    pub open spec fn host_chars(self) -> Seq<char> {
        match self {
            SocketAddress::V4 { octets, .. } => ipv4_chars(octets@),
            SocketAddress::V6 { octets, .. } => ipv6_chars(octets@),
        }
    }

    /// The text of address and port, an IPv6 address in brackets.
    pub open spec fn chars(self) -> Seq<char> {
        match self {
            SocketAddress::V4 { .. } => self.host_chars().push(':') + decimal(
                self.port_of() as nat,
            ),
            SocketAddress::V6 { .. } => seq!['['] + self.host_chars() + seq![']', ':'] + decimal(
                self.port_of() as nat,
            ),
        }
    }
}

/// Appends an IPv4 address in dotted decimal.
fn push_ipv4(out: &mut String, o: &[u8])
    requires
        o@.len() == 4,
    ensures
        final(out)@ == old(out)@ + ipv4_chars(o@),
{
    text::push_decimal(out, o[0] as u64);
    out.push('.');
    text::push_decimal(out, o[1] as u64);
    out.push('.');
    text::push_decimal(out, o[2] as u64);
    out.push('.');
    text::push_decimal(out, o[3] as u64);
    assert(out@ =~= old(out)@ + ipv4_chars(o@));
}

/// Appends a number in hexadecimal.
fn push_hex(out: &mut String, n: u16)
    ensures
        final(out)@ == old(out)@ + hex_chars(n as nat),
    decreases n,
{
    if n >= 16 {
        push_hex(out, n / 16);
    }
    let d = (n % 16) as u8;
    let c = if d < 10 {
        (48 + d) as char
    } else {
        (87 + d) as char
    };
    assert(c == hex_char(d as nat));
    out.push(c);
    assert(out@ =~= old(out)@ + hex_chars(n as nat));
}

/// Appends the segments from `from` up to `to` with colons between them.
fn push_segments(out: &mut String, segs: &[u16], from: usize, to: usize)
    requires
        from <= to <= segs@.len(),
    ensures
        final(out)@ == old(out)@ + join_hex(segs@.subrange(from as int, to as int)),
{
    let mut i: usize = from;
    assert(out@ =~= old(out)@ + join_hex(segs@.subrange(from as int, from as int)));
    while i < to
        invariant
            from <= i <= to <= segs@.len(),
            out@ == old(out)@ + join_hex(segs@.subrange(from as int, i as int)),
        decreases to - i,
    {
        let ghost sub = segs@.subrange(from as int, i + 1);
        assert(sub.drop_last() =~= segs@.subrange(from as int, i as int));
        if i > from {
            out.push(':');
        }
        push_hex(out, segs[i]);
        assert(out@ =~= old(out)@ + join_hex(sub));
        i += 1;
    }
}

/// Appends an IPv6 address.
fn push_ipv6(out: &mut String, o: &[u8])
    requires
        o@.len() == 16,
    ensures
        final(out)@ == old(out)@ + ipv6_chars(o@),
{
    let mut mapped = o[10] == 255 && o[11] == 255;
    let mut k: usize = 0;
    while k < 10
        invariant
            k <= 10,
            o@.len() == 16,
            mapped == (o@[10] == 255 && o@[11] == 255 && forall|i: int| 0 <= i < k ==> o@[i] == 0),
        decreases 10 - k,
    {
        if o[k] != 0 {
            mapped = false;
        }
        k += 1;
    }
    if mapped {
        out.push(':');
        out.push(':');
        out.push('f');
        out.push('f');
        out.push('f');
        out.push('f');
        out.push(':');
        let tail = vstd::slice::slice_subrange(o, 12, 16);
        assert(tail@ =~= o@.skip(12));
        push_ipv4(out, tail);
        assert(out@ =~= old(out)@ + ipv6_chars(o@));
        return;
    }
    let mut segs: Vec<u16> = Vec::new();
    let mut i: usize = 0;
    while i < 8
        invariant
            i <= 8,
            o@.len() == 16,
            segs@ =~= segments_of(o@).take(i as int),
        decreases 8 - i,
    {
        segs.push(o[2 * i] as u16 * 256 + o[2 * i + 1] as u16);
        i += 1;
    }
    assert(segs@ =~= segments_of(o@));
    let mut n: usize = 8;
    let mut here: usize = 0;
    let mut start: usize = 8;
    let mut len: usize = 0;
    while n > 0
        invariant
            n <= 8,
            segs@ == segments_of(o@),
            here == zero_run(segs@, n as int),
            here + n <= 8,
            start == longest_run(segs@, n as int),
            len == zero_run(segs@, start as int),
            start + len <= 8,
        decreases n,
    {
        n -= 1;
        here = if segs[n] == 0 {
            here + 1
        } else {
            0
        };
        if here >= len {
            start = n;
            len = here;
        }
    }
    if len > 1 {
        push_segments(out, segs.as_slice(), 0, start);
        out.push(':');
        out.push(':');
        push_segments(out, segs.as_slice(), start + len, 8);
        assert(segs@.subrange(0, start as int) =~= segs@.take(start as int));
        assert(segs@.subrange(start + len, 8) =~= segs@.skip(start + len));
        assert(out@ =~= old(out)@ + ipv6_chars(o@));
    } else {
        push_segments(out, segs.as_slice(), 0, 8);
        assert(segs@.subrange(0, 8) =~= segs@);
    }
}

/// An IPv4 address in dotted decimal.
pub fn ipv4_text(octets: &[u8; 4]) -> (s: String)
    ensures
        s@ == ipv4_chars(octets@),
{
    let mut s = String::new();
    push_ipv4(&mut s, octets.as_slice());
    assert(s@ =~= ipv4_chars(octets@));
    s
}

/// An IPv6 address as text, without brackets.
pub fn ipv6_text(octets: &[u8; 16]) -> (s: String)
    ensures
        s@ == ipv6_chars(octets@),
{
    let mut s = String::new();
    push_ipv6(&mut s, octets.as_slice());
    assert(s@ =~= ipv6_chars(octets@));
    s
}

impl SocketAddress {
    /// The text of address and port, an IPv6 address in brackets.
    pub fn to_text(&self) -> (s: String)
        ensures
            s@ == self.chars(),
    {
        let mut s = String::new();
        match self {
            SocketAddress::V4 { octets, port } => {
                push_ipv4(&mut s, octets.as_slice());
                s.push(':');
                text::push_decimal(&mut s, *port as u64);
            },
            SocketAddress::V6 { octets, port } => {
                s.push('[');
                push_ipv6(&mut s, octets.as_slice());
                s.push(']');
                s.push(':');
                text::push_decimal(&mut s, *port as u64);
            },
        }
        assert(s@ =~= self.chars());
        s
    }
}

/// The brackets that may stand around an IPv6 address.
pub open spec fn brackets() -> Set<char> {
    set!['[', ']']
}

/// The host and the port that a text names: the port is what follows the
/// last colon, the host what stands before it, without brackets at its ends.
pub open spec fn host_port_of(t: Seq<char>) -> Result<(Seq<char>, u16), AddrError> {
    match last_index_of(t, ':') {
        None => Err(AddrError::NoPort),
        Some(i) => match unsigned_of(t.skip(i + 1), u16::MAX as nat) {
            None => Err(AddrError::BadPort),
            Some(port) => Ok((trim_matches(t.take(i), brackets()), port as u16)),
        },
    }
}

/// The characters up to `end` without the brackets at their two ends.
fn strip_brackets(chars: &[char], end: usize) -> (s: String)
    requires
        end <= chars@.len(),
    ensures
        s@ == trim_matches(chars@.take(end as int), brackets()),
{
    let ghost t = chars@.take(end as int);
    let mut from: usize = 0;
    assert(t.skip(0) =~= t);
    while from < end && (chars[from] == '[' || chars[from] == ']')
        invariant
            from <= end <= chars@.len(),
            t == chars@.take(end as int),
            trim_matches(t, brackets()) == trim_matches(t.skip(from as int), brackets()),
        decreases end - from,
    {
        assert(t.skip(from as int).skip(1) =~= t.skip(from + 1));
        from += 1;
    }
    let ghost u = t.skip(from as int);
    let mut to: usize = end;
    assert(u.take(to - from) =~= u);
    while from < to && (chars[to - 1] == '[' || chars[to - 1] == ']')
        invariant
            from <= to <= end <= chars@.len(),
            t == chars@.take(end as int),
            u == t.skip(from as int),
            trim_end_matches(u, brackets()) == trim_end_matches(u.take(to - from), brackets()),
        decreases to - from,
    {
        assert(u.take(to - from).drop_last() =~= u.take(to - 1 - from));
        to -= 1;
    }
    assert(u.take(to - from) =~= chars@.subrange(from as int, to as int));
    text::string_of(chars, from, to)
}

/// Cuts `host:port` or `[ipv6]:port` into host and port.
pub fn split_host_port(s: &str) -> (r: Result<(String, u16), AddrError>)
    ensures
        match (r, host_port_of(s@)) {
            (Ok((host, port)), Ok((h, p))) => host@ == h && port == p,
            (Err(e), Err(why)) => e == why,
            _ => false,
        },
{
    let chars = text::chars_of(s);
    match text::find_last(chars.as_slice(), ':') {
        None => Err(AddrError::NoPort),
        Some(i) => match text::parse_unsigned(chars.as_slice(), i + 1, 65535) {
            None => Err(AddrError::BadPort),
            Some(port) => Ok((strip_brackets(chars.as_slice(), i), port as u16)),
        },
    }
}

/// The characters that IP addresses are written with.
pub open spec fn is_ip_char(c: char) -> bool {
    is_digit(c) || 'a' <= c <= 'f' || c == ':' || c == '.'
}

/// A text written with these alone.
pub open spec fn all_ip_chars(s: Seq<char>) -> bool {
    forall|i: int| 0 <= i < s.len() ==> is_ip_char(#[trigger] s[i])
}

proof fn lemma_ipv4_chars(o: Seq<u8>)
    ensures
        all_ip_chars(ipv4_chars(o)),
        ipv4_chars(o).len() <= 23,
{
    text::lemma_decimal(o[0] as nat, 255);
    text::lemma_decimal(o[1] as nat, 255);
    text::lemma_decimal(o[2] as nat, 255);
    text::lemma_decimal(o[3] as nat, 255);
}

proof fn lemma_hex_chars(n: nat)
    ensures
        all_ip_chars(hex_chars(n)),
    decreases n,
{
    if n >= 16 {
        lemma_hex_chars(n / 16);
    }
}

proof fn lemma_join_hex(segs: Seq<u16>)
    ensures
        all_ip_chars(join_hex(segs)),
        join_hex(segs).len() <= 5 * segs.len(),
    decreases segs.len(),
{
    if segs.len() > 0 {
        lemma_hex_chars(segs.last() as nat);
        reveal_with_fuel(hex_chars, 5);
        if segs.len() > 1 {
            lemma_join_hex(segs.drop_last());
        }
    }
}

proof fn lemma_zero_run(segs: Seq<u16>, i: int)
    requires
        0 <= i <= segs.len(),
    ensures
        i + zero_run(segs, i) <= segs.len(),
        i <= longest_run(segs, i) <= segs.len(),
    decreases segs.len() - i,
{
    if i < segs.len() {
        lemma_zero_run(segs, i + 1);
    }
}

/// The text of an IP address is short, and written without brackets.
proof fn lemma_host_chars(a: SocketAddress)
    ensures
        all_ip_chars(a.host_chars()),
        a.host_chars().len() <= 42,
{
    match a {
        SocketAddress::V4 { octets, .. } => {
            lemma_ipv4_chars(octets@);
        },
        SocketAddress::V6 { octets, .. } => {
            let o = octets@;
            let segs = segments_of(o);
            let start = longest_run(segs, 0);
            lemma_zero_run(segs, 0);
            lemma_zero_run(segs, start);
            lemma_ipv4_chars(o.skip(12));
            lemma_join_hex(segs);
            lemma_join_hex(segs.take(start));
            lemma_join_hex(segs.skip(start + zero_run(segs, start)));
        },
    }
}

proof fn lemma_last_index(a: Seq<char>, c: char, b: Seq<char>)
    requires
        forall|i: int| 0 <= i < b.len() ==> b[i] != c,
    ensures
        last_index_of(a.push(c) + b, c) == Some(a.len() as int),
    decreases b.len(),
{
    if b.len() == 0 {
        assert(a.push(c) + b =~= a.push(c));
    } else {
        lemma_last_index(a, c, b.drop_last());
        assert((a.push(c) + b).drop_last() =~= a.push(c) + b.drop_last());
    }
}

/// The text of an address names its host, without brackets, and its port.
pub proof fn law_address_text(a: SocketAddress)
    ensures
        host_port_of(a.chars()) == Ok::<(Seq<char>, u16), AddrError>((a.host_chars(), a.port_of())),
        vstd::utf8::is_ascii_chars(a.chars()),
        0 < a.chars().len() < 64,
{
    let host = a.host_chars();
    let port = decimal(a.port_of() as nat);
    lemma_host_chars(a);
    text::lemma_decimal(a.port_of() as nat, 65535);
    let front = match a {
        SocketAddress::V4 { .. } => host,
        SocketAddress::V6 { .. } => seq!['['] + host + seq![']'],
    };
    assert(a.chars() =~= front.push(':') + port);
    lemma_last_index(front, ':', port);
    assert(a.chars().skip(front.len() as int + 1) =~= port);
    assert(a.chars().take(front.len() as int) =~= front);
    assert(forall|i: int| 0 <= i < host.len() ==> !brackets().contains(#[trigger] host[i]));
    assert(trim_end_matches(host, brackets()) == host);
    match a {
        SocketAddress::V4 { .. } => {
            assert(trim_matches(host, brackets()) == host);
        },
        SocketAddress::V6 { .. } => {
            let open = host.push(']');
            assert(front.skip(1) =~= open);
            assert(open.drop_last() =~= host);
            if host.len() == 0 {
                assert(open.skip(1) =~= host);
            }
            assert(trim_matches(front, brackets()) == trim_matches(open, brackets()));
            assert(trim_end_matches(open, brackets()) == trim_end_matches(host, brackets()));
        },
    }
}

/// An IPv4 address is its four octets with points between them.
pub proof fn law_ipv4_text(a: u8, b: u8, c: u8, d: u8)
    ensures
        ipv4_chars(seq![a, b, c, d]) == decimal(a as nat) + "."@ + decimal(b as nat) + "."@
            + decimal(c as nat) + "."@ + decimal(d as nat),
{
    reveal_strlit(".");
    assert("."@ =~= seq!['.']);
}

/// Hexadecimal: the digits of a number, most significant first, in small
/// letters and without zeros in front.
pub proof fn law_hex_text(n: nat, d: nat)
    requires
        d < 16,
    ensures
        hex_chars(d) == seq![
            (if d < 10 {
                48 + d
            } else {
                87 + d
            }) as char,
        ],
        n > 0 ==> hex_chars(16 * n + d) == hex_chars(n) + hex_chars(d),
{
    assert((16 * n + d) / 16 == n);
    assert((16 * n + d) % 16 == d);
    assert(hex_chars(n).push(hex_char(d)) =~= hex_chars(n) + hex_chars(d));
}

/// Segments stand in their order, with a colon between two.
pub proof fn law_segments_are_joined(segs: Seq<u16>, x: u16)
    ensures
        join_hex(Seq::<u16>::empty()) == Seq::<char>::empty(),
        join_hex(seq![x]) == hex_chars(x as nat),
        segs.len() > 0 ==> join_hex(segs.push(x)) == join_hex(segs) + seq![':'] + hex_chars(
            x as nat,
        ),
{
    if segs.len() > 0 {
        assert(segs.push(x).drop_last() =~= segs);
        assert(join_hex(segs).push(':') + hex_chars(x as nat) =~= join_hex(segs) + seq![':']
            + hex_chars(x as nat));
    }
}

/// The text of an IPv6 address that stands for an IPv4 address.
pub proof fn law_mapped_ipv4_text(a: u8, b: u8, c: u8, d: u8)
    ensures
        ipv6_chars(seq![0u8, 0, 0, 0, 0, 0, 0, 0, 0, 0, 255, 255, a, b, c, d]) == "::ffff:"@
            + ipv4_chars(seq![a, b, c, d]),
{
    reveal_strlit("::ffff:");
    assert("::ffff:"@ =~= seq![':', ':', 'f', 'f', 'f', 'f', ':']);
    let o = seq![0u8, 0, 0, 0, 0, 0, 0, 0, 0, 0, 255, 255, a, b, c, d];
    assert(o.skip(12) =~= seq![a, b, c, d]);
}

/// Whether `len` segments from `start` on are zero.
pub open spec fn are_zero(segs: Seq<u16>, start: int, len: int) -> bool {
    0 <= start && start + len <= segs.len() && forall|k: int|
        start <= k < start + len ==> #[trigger] segs[k] == 0
}

/// A run of zero segments is as long as it can be.
proof fn lemma_zero_run_is_maximal(segs: Seq<u16>, i: int)
    requires
        0 <= i <= segs.len(),
    ensures
        are_zero(segs, i, zero_run(segs, i) as int),
        forall|len: int| 0 <= len && #[trigger] are_zero(segs, i, len) ==> len <= zero_run(segs, i),
    decreases segs.len() - i,
{
    if i < segs.len() {
        lemma_zero_run_is_maximal(segs, i + 1);
        assert forall|len: int| 0 <= len && #[trigger] are_zero(segs, i, len) implies len
            <= zero_run(segs, i) by {
            if len > 0 {
                assert(segs[i] == 0);
                assert(are_zero(segs, i + 1, len - 1));
            }
        }
        if segs[i] == 0 {
            let n = zero_run(segs, i + 1);
            assert(are_zero(segs, i + 1, n as int));
            assert forall|k: int| i <= k < i + 1 + n implies #[trigger] segs[k] == 0 by {}
        }
    }
}

/// The longest run is the first of the longest.
proof fn lemma_longest_run_is_longest(segs: Seq<u16>, i: int)
    requires
        0 <= i <= segs.len(),
    ensures
        i <= longest_run(segs, i) <= segs.len(),
        forall|j: int|
            i <= j < segs.len() ==> #[trigger] zero_run(segs, j) <= zero_run(
                segs,
                longest_run(segs, i),
            ),
        forall|j: int|
            i <= j < longest_run(segs, i) ==> #[trigger] zero_run(segs, j) < zero_run(
                segs,
                longest_run(segs, i),
            ),
    decreases segs.len() - i,
{
    if i < segs.len() {
        lemma_longest_run_is_longest(segs, i + 1);
    }
}

/// The text of any other IPv6 address: its eight segments, where the first of
/// the longest runs of two or more zero segments is left out for two colons.
pub proof fn law_ipv6_text(o: Seq<u8>)
    requires
        o.len() == 16,
        !(o[0] == 0 && o[1] == 0 && o[2] == 0 && o[3] == 0 && o[4] == 0 && o[5] == 0 && o[6] == 0
            && o[7] == 0 && o[8] == 0 && o[9] == 0 && o[10] == 255 && o[11] == 255),
    ensures
        segments_of(o).len() == 8,
        forall|i: int|
            0 <= i < 8 ==> (#[trigger] segments_of(o)[i]) as int == 256 * o[2 * i] + o[2 * i + 1],
        ({
            let segs = segments_of(o);
            ||| exists|start: int, len: int|
                {
                    &&& #[trigger] are_zero(segs, start, len)
                    &&& len >= 2
                    &&& forall|i: int, n: int|
                        #[trigger] are_zero(segs, i, n) ==> n <= len && (n == len ==> start <= i)
                    &&& ipv6_chars(o) == join_hex(segs.take(start)) + "::"@ + join_hex(
                        segs.skip(start + len),
                    )
                }
            ||| {
                &&& forall|i: int, n: int| #[trigger] are_zero(segs, i, n) ==> n < 2
                &&& ipv6_chars(o) == join_hex(segs)
            }
        }),
{
    reveal_strlit("::");
    assert("::"@ =~= seq![':', ':']);
    let segs = segments_of(o);
    assert forall|i: int| 0 <= i < 8 implies (#[trigger] segs[i]) as int == 256 * o[2 * i] + o[2 * i
        + 1] by {}
    let start = longest_run(segs, 0);
    let len = zero_run(segs, start) as int;
    lemma_longest_run_is_longest(segs, 0);
    lemma_zero_run_is_maximal(segs, start);
    assert forall|i: int, n: int| #[trigger] are_zero(segs, i, n) && n >= 1 implies n <= len && (n
        == len ==> start <= i) by {
        lemma_zero_run_is_maximal(segs, i);
        assert(n <= zero_run(segs, i));
    }
    if len > 1 {
        assert(are_zero(segs, start, len));
    }
}

/// The text of an IPv4 address and a port has a colon between them, that of an
/// IPv6 address has the address in brackets.
pub proof fn law_socket_text(a: [u8; 4], b: [u8; 16], port: u16)
    ensures
        ({
            let v4 = SocketAddress::V4 { octets: a, port };
            let v6 = SocketAddress::V6 { octets: b, port };
            &&& v4.port_of() == port
            &&& v6.port_of() == port
            &&& v4.host_chars() == ipv4_chars(a@)
            &&& v6.host_chars() == ipv6_chars(b@)
            &&& v4.chars() == ipv4_chars(a@) + ":"@ + decimal(port as nat)
            &&& v6.chars() == "["@ + ipv6_chars(b@) + "]:"@ + decimal(port as nat)
        }),
{
    reveal_strlit(":");
    reveal_strlit("[");
    reveal_strlit("]:");
    assert(":"@ =~= seq![':']);
    assert("["@ =~= seq!['[']);
    assert("]:"@ =~= seq![']', ':']);
    assert(ipv4_chars(a@).push(':') =~= ipv4_chars(a@) + seq![':']);
}

/// The port is the number behind the last colon, and the host is what stands
/// before it but for the brackets around it.
pub proof fn law_host_and_port(open: Seq<char>, host: Seq<char>, close: Seq<char>, port: Seq<char>)
    requires
        forall|i: int| 0 <= i < open.len() ==> (#[trigger] open[i] == '[' || open[i] == ']'),
        forall|i: int| 0 <= i < close.len() ==> (#[trigger] close[i] == '[' || close[i] == ']'),
        host.len() > 0 ==> host[0] != '[' && host[0] != ']' && host.last() != '[' && host.last()
            != ']',
        forall|i: int| 0 <= i < port.len() ==> #[trigger] port[i] != ':',
    ensures
        host_port_of(open + host + close + seq![':'] + port) == match unsigned_of(port, 65535) {
            Some(p) => Ok::<(Seq<char>, u16), AddrError>((host, p as u16)),
            None => Err(AddrError::BadPort),
        },
{
    let front = open + host + close;
    let t = front + seq![':'] + port;
    assert(t =~= front.push(':') + port);
    lemma_last_index(front, ':', port);
    assert(t.skip(front.len() as int + 1) =~= port);
    assert(t.take(front.len() as int) =~= front);
    assert forall|i: int| 0 <= i < open.len() implies brackets().contains(#[trigger] open[i]) by {}
    assert forall|i: int| 0 <= i < close.len() implies brackets().contains(
        #[trigger] close[i],
    ) by {}
    text::lemma_trim_back(open + host, close, brackets());
    text::lemma_trim_front(open, host, brackets());
    assert(trim_matches(host, brackets()) == host);
}

/// A text without a colon names no port.
pub proof fn law_no_colon_no_port(t: Seq<char>)
    requires
        forall|i: int| 0 <= i < t.len() ==> #[trigger] t[i] != ':',
    ensures
        host_port_of(t) == Err::<(Seq<char>, u16), AddrError>(AddrError::NoPort),
{
    lemma_no_index(t, ':');
}

proof fn lemma_no_index(s: Seq<char>, c: char)
    requires
        forall|i: int| 0 <= i < s.len() ==> #[trigger] s[i] != c,
    ensures
        last_index_of(s, c) is None,
    decreases s.len(),
{
    if s.len() > 0 {
        assert(s[s.len() - 1] != c);
        assert forall|i: int| 0 <= i < s.drop_last().len() implies #[trigger] s.drop_last()[i]
            != c by {
            assert(s[i] != c);
        }
        lemma_no_index(s.drop_last(), c);
    }
}

} // verus!
