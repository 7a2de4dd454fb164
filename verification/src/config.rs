//! The configuration of the server, and what follows from it before any
//! connection is made.

use crate::text;
use vstd::prelude::*;

verus! {

/// The whole configuration file.
#[derive(Debug, Clone)]
pub struct Config {
    pub log: LogConfig,
    pub hysteria2: Option<Hysteria2Config>,
    pub vless: Option<VlessConfig>,
}

/// The Hysteria2 server.
#[derive(Debug, Clone)]
pub struct Hysteria2Config {
    pub enable: bool,
    pub listen: String,
    pub tls: Hy2TlsConfig,
    pub auth: AuthConfig,
    pub bandwidth: BandwidthConfig,
    pub masquerade: MasqueradeConfig,
}

/// Where the certificate of the Hysteria2 server comes from.
#[derive(Debug, Clone)]
pub struct Hy2TlsConfig {
    pub cert: Option<String>,
    pub key: Option<String>,
    pub self_signed_domain: String,
}

/// How clients of the Hysteria2 server prove who they are: by no means
/// (`auth_type` is `none`), or by a password.
#[derive(Debug, Clone)]
pub struct AuthConfig {
    pub auth_type: String,
    pub password: Option<String>,
}

/// The rates of the Hysteria2 server, as texts such as `100 mbps`.
#[derive(Debug, Clone)]
pub struct BandwidthConfig {
    pub up: Option<String>,
    pub down: Option<String>,
}

/// What a visitor gets who is no client.
#[derive(Debug, Clone)]
pub struct MasqueradeConfig {
    pub kind: String,
    pub proxy: Option<MasqueradeProxy>,
}

/// The site that visitors are shown.
#[derive(Debug, Clone)]
pub struct MasqueradeProxy {
    pub url: String,
    pub rewrite_host: bool,
}

/// The VLESS server.
#[derive(Debug, Clone)]
pub struct VlessConfig {
    pub enable: bool,
    pub listen: String,
    pub uuid: String,
    pub transport: VlessTransportConfig,
}

/// What VLESS is carried over: `tcp`, `ws` or `reality`.
#[derive(Debug, Clone)]
pub struct VlessTransportConfig {
    pub kind: String,
    pub tls: bool,
    pub cert: Option<String>,
    pub key: Option<String>,
    pub ws_path: String,
    pub ws_host: Option<String>,
    pub self_signed_domain: String,
    pub reality: Option<RealityConfig>,
}

/// How Reality clients are told from other visitors, and where the others
/// are sent.
#[derive(Debug, Clone)]
pub struct RealityConfig {
    pub private_key: String,
    pub short_ids: Vec<String>,
    pub dest: String,
    pub server_name: String,
}

/// The VMess server.
#[derive(Debug, Clone)]
pub struct VmessConfig {
    pub listen: String,
    pub uuid: String,
    pub tls: Option<VmessTlsConfig>,
    pub transport: VmessTransportConfig,
}

/// Where the certificate of the VMess server comes from.
#[derive(Debug, Clone)]
pub struct VmessTlsConfig {
    pub cert_path: Option<String>,
    pub key_path: Option<String>,
    pub self_signed_domain: Option<String>,
}

/// What VMess is carried over: `tcp` or `ws`.
#[derive(Debug, Clone)]
pub struct VmessTransportConfig {
    pub kind: String,
    pub ws_path: String,
    pub ws_host: Option<String>,
}

/// Logging.
#[derive(Debug, Clone)]
pub struct LogConfig {
    pub level: String,
}

pub fn default_true() -> (r: bool)
    ensures
        r,
{
    true
}

pub fn default_log_level() -> (r: String)
    ensures
        r@ == "info"@,
{
    "info".to_string()
}

pub fn default_self_signed_domain() -> (r: String)
    ensures
        r@ == "localhost"@,
{
    "localhost".to_string()
}

pub fn default_masquerade_type() -> (r: String)
    ensures
        r@ == "none"@,
{
    "none".to_string()
}

pub fn default_transport_type() -> (r: String)
    ensures
        r@ == "tcp"@,
{
    "tcp".to_string()
}

pub fn default_ws_path() -> (r: String)
    ensures
        r@ == "/"@,
{
    "/".to_string()
}

impl Default for LogConfig {
    fn default() -> (r: Self)
        ensures
            r.level@ == "info"@,
    {
        LogConfig { level: default_log_level() }
    }
}

impl Default for BandwidthConfig {
    fn default() -> (r: Self)
        ensures
            r.up is None,
            r.down is None,
    {
        BandwidthConfig { up: None, down: None }
    }
}

impl Default for MasqueradeConfig {
    fn default() -> (r: Self)
        ensures
            r.kind@ == Seq::<char>::empty(),
            r.proxy is None,
    {
        MasqueradeConfig { kind: String::new(), proxy: None }
    }
}

impl Default for VlessTransportConfig {
    fn default() -> (r: Self)
        ensures
            r.kind@ == "tcp"@,
            !r.tls,
            r.cert is None,
            r.key is None,
            r.ws_path@ == "/"@,
            r.ws_host is None,
            r.self_signed_domain@ == "localhost"@,
            r.reality is None,
    {
        VlessTransportConfig {
            kind: default_transport_type(),
            tls: false,
            cert: None,
            key: None,
            ws_path: default_ws_path(),
            ws_host: None,
            self_signed_domain: default_self_signed_domain(),
            reality: None,
        }
    }
}

/// A text that may be missing, as characters.
pub open spec fn opt_text(o: Option<String>) -> Option<Seq<char>> {
    match o {
        Some(s) => Some(s@),
        None => None,
    }
}

/// A text that may be missing, as characters.
pub open spec fn opt_str(o: Option<&str>) -> Option<Seq<char>> {
    match o {
        Some(s) => Some(s@),
        None => None,
    }
}

impl AuthConfig {
    /// The password, where one is set.
    pub fn password(&self) -> (r: Option<&str>)
        ensures
            opt_str(r) == opt_text(self.password),
    {
        match &self.password {
            Some(p) => Some(p.as_str()),
            None => None,
        }
    }

    /// Whether everyone may connect.
    pub fn is_none(&self) -> (r: bool)
        ensures
            r == (self.auth_type@ == "none"@),
    {
        text::same_text(self.auth_type.as_str(), "none")
    }
}

/// A rate that a configuration text gives.
#[derive(Debug, Clone)]
pub enum Rate {
    /// This many bytes a second.
    Exact(u64),
    /// A floating-point number of units of `bits` bits a second: one that is no
    /// whole number, or whose product with the unit is no exact double.
    Decimal { number: String, bits: u64 },
}

/// A rate, over mathematical values.
pub enum RateView {
    Exact(nat),
    Decimal { number: Seq<char>, bits: nat },
}

impl View for Rate {
    type V = RateView;

    open spec fn view(&self) -> RateView {
        match self {
            Rate::Exact(n) => RateView::Exact(*n as nat),
            Rate::Decimal { number, bits } => RateView::Decimal {
                number: number@,
                bits: *bits as nat,
            },
        }
    }
}

/// A rate that may be missing.
pub open spec fn opt_rate(o: Option<Rate>) -> Option<RateView> {
    match o {
        Some(r) => Some(r@),
        None => None,
    }
}

/// `s` without its spaces.
pub open spec fn without_spaces(s: Seq<char>) -> Seq<char>
    decreases s.len(),
{
    if s.len() == 0 {
        s
    } else if s.last() == ' ' {
        without_spaces(s.drop_last())
    } else {
        without_spaces(s.drop_last()).push(s.last())
    }
}

/// Whether a whole number is a double: its odd part is at most 2^53.
pub open spec fn exact_double(p: nat) -> bool
    decreases p,
{
    p <= 0x20_0000_0000_0000 || p % 2 == 0 && exact_double(p / 2)
}

/// The rate of `number` units of `bits` bits a second. A whole number of bits
/// that is a double is counted in bytes, up to the largest count there is. Any
/// other number is kept; a text that is no number gives no rate.
pub open spec fn scaled_rate(number: Seq<char>, bits: nat) -> Option<RateView> {
    match text::unsigned_of(number, u64::MAX as nat) {
        Some(n) if exact_double(n * bits) => Some(
            RateView::Exact(
                if n * bits / 8 <= u64::MAX {
                    n * bits / 8
                } else {
                    u64::MAX as nat
                },
            ),
        ),
        _ => if text::is_float(number) {
            Some(RateView::Decimal { number, bits })
        } else {
            None
        },
    }
}

/// The rate that a text gives which is in lower case and without spaces: a
/// number and its unit. A number of plain `bps` is taken for bytes.
pub open spec fn rate_of(t: Seq<char>) -> Option<RateView> {
    if text::ends_with(t, "gbps"@) {
        scaled_rate(t.take(t.len() - 4), 1_000_000_000)
    } else if text::ends_with(t, "mbps"@) {
        scaled_rate(t.take(t.len() - 4), 1_000_000)
    } else if text::ends_with(t, "kbps"@) {
        scaled_rate(t.take(t.len() - 4), 1_000)
    } else if text::ends_with(t, "bps"@) {
        match text::unsigned_of(t.take(t.len() - 3), u64::MAX as nat) {
            Some(n) => Some(RateView::Exact(n)),
            None => None,
        }
    } else {
        None
    }
}

/// The rate that a text of the configuration gives, in whatever case and
/// with whatever spaces. Rates are written in ASCII, so a text gives none whose
/// lower case is not.
pub open spec fn bps_of(s: Seq<char>) -> Option<RateView> {
    let t = text::trimmed(s);
    if text::all_plain(t) {
        rate_of(without_spaces(text::plain_lowered(t)))
    } else {
        None
    }
}

/// The characters of `s` that are no spaces.
fn squeeze(s: &str) -> (v: Vec<char>)
    ensures
        v@ == without_spaces(s@),
{
    let chars = text::chars_of(s);
    let mut v: Vec<char> = Vec::new();
    let mut i: usize = 0;
    while i < chars.len()
        invariant
            i <= chars@.len(),
            v@ == without_spaces(chars@.take(i as int)),
        decreases chars@.len() - i,
    {
        assert(chars@.take(i + 1).drop_last() =~= chars@.take(i as int));
        if chars[i] != ' ' {
            v.push(chars[i]);
        }
        i += 1;
    }
    assert(chars@.take(i as int) =~= chars@);
    v
}

/// Whether a whole number is a double.
fn is_exact_double(p: u128) -> (r: bool)
    ensures
        r == exact_double(p as nat),
{
    let mut q = p;
    while q > 0x20_0000_0000_0000 && q % 2 == 0
        invariant
            exact_double(p as nat) == exact_double(q as nat),
        decreases q,
    {
        q = q / 2;
    }
    q <= 0x20_0000_0000_0000
}

/// The rate of the number that stands before a unit of `unit_len` letters.
fn scale(t: &Vec<char>, unit_len: usize, bits: u64) -> (r: Option<Rate>)
    requires
        unit_len <= t@.len(),
        bits == 1_000 || bits == 1_000_000 || bits == 1_000_000_000,
    ensures
        opt_rate(r) == scaled_rate(t@.take(t@.len() - unit_len), bits as nat),
{
    let end = t.len() - unit_len;
    let number = text::string_of(t.as_slice(), 0, end);
    let digits = text::chars_of(number.as_str());
    assert(digits@ =~= t@.take(end as int));
    assert(digits@.skip(0) =~= digits@);
    match text::parse_unsigned(digits.as_slice(), 0, u64::MAX) {
        Some(n) => {
            assert(n * bits <= 0xffff_ffff_ffff_ffff * 1_000_000_000) by (nonlinear_arith)
                requires
                    n <= 0xffff_ffff_ffff_ffffu64,
                    bits <= 1_000_000_000,
            ;
            let product = n as u128 * bits as u128;
            if is_exact_double(product) {
                let bytes = product / 8;
                return Some(
                    Rate::Exact(
                        if bytes <= u64::MAX as u128 {
                            bytes as u64
                        } else {
                            u64::MAX
                        },
                    ),
                );
            }
        },
        None => {},
    }
    if text::is_float_text(digits.as_slice()) {
        Some(Rate::Decimal { number, bits })
    } else {
        None
    }
}

impl BandwidthConfig {
    /// The rate that a text such as `100 mbps` gives.
    pub fn parse_bps(s: &str) -> (r: Option<Rate>)
        ensures
            opt_rate(r) == bps_of(s@),
    {
        let lower = s.trim().to_lowercase();
        let t = squeeze(lower.as_str());
        proof {
            if rate_of(t@) is Some {
                lemma_rate_is_ascii(t@);
                lemma_spaces_are_ascii(lower@);
            }
        }
        if text::has_suffix(t.as_slice(), "gbps") {
            proof {
                reveal_strlit("gbps");
            }
            scale(&t, 4, 1_000_000_000)
        } else if text::has_suffix(t.as_slice(), "mbps") {
            proof {
                reveal_strlit("mbps");
            }
            scale(&t, 4, 1_000_000)
        } else if text::has_suffix(t.as_slice(), "kbps") {
            proof {
                reveal_strlit("kbps");
            }
            scale(&t, 4, 1_000)
        } else if text::has_suffix(t.as_slice(), "bps") {
            proof {
                reveal_strlit("bps");
            }
            let number = text::string_of(t.as_slice(), 0, t.len() - 3);
            let digits = text::chars_of(number.as_str());
            assert(digits@ =~= t@.take(t@.len() - 3));
            assert(digits@.skip(0) =~= digits@);
            match text::parse_unsigned(digits.as_slice(), 0, u64::MAX) {
                Some(n) => Some(Rate::Exact(n)),
                None => None,
            }
        } else {
            None
        }
    }

    /// The rate to send at, where one is set.
    pub fn up_bps(&self) -> (r: Option<Rate>)
        ensures
            opt_rate(r) == match self.up {
                Some(s) => bps_of(s@),
                None => None,
            },
    {
        match &self.up {
            Some(s) => Self::parse_bps(s.as_str()),
            None => None,
        }
    }

    /// The rate to receive at, where one is set.
    pub fn down_bps(&self) -> (r: Option<Rate>)
        ensures
            opt_rate(r) == match self.down {
                Some(s) => bps_of(s@),
                None => None,
            },
    {
        match &self.down {
            Some(s) => Self::parse_bps(s.as_str()),
            None => None,
        }
    }
}

/// Leaving out spaces goes part by part.
proof fn lemma_without_spaces_concat(a: Seq<char>, b: Seq<char>)
    ensures
        without_spaces(a + b) == without_spaces(a) + without_spaces(b),
    decreases b.len(),
{
    if b.len() == 0 {
        assert(a + b =~= a);
        assert(without_spaces(a) + without_spaces(b) =~= without_spaces(a));
    } else {
        assert((a + b).drop_last() =~= a + b.drop_last());
        lemma_without_spaces_concat(a, b.drop_last());
        assert((a + b).last() == b.last());
        if b.last() != ' ' {
            assert(without_spaces(a) + without_spaces(b.drop_last()).push(b.last()) =~= (
            without_spaces(a) + without_spaces(b.drop_last())).push(b.last()));
        }
    }
}

/// A text without spaces stays as it is.
proof fn lemma_without_spaces_same(s: Seq<char>)
    requires
        forall|i: int| 0 <= i < s.len() ==> #[trigger] s[i] != ' ',
    ensures
        without_spaces(s) == s,
    decreases s.len(),
{
    if s.len() > 0 {
        assert forall|i: int| 0 <= i < s.drop_last().len() implies #[trigger] s.drop_last()[i]
            != ' ' by {
            assert(s[i] != ' ');
        }
        lemma_without_spaces_same(s.drop_last());
        assert(s.last() == s[s.len() - 1]);
        assert(s.drop_last().push(s.last()) =~= s);
    }
}

proof fn lemma_without_spaces_end(u: Seq<char>)
    ensures
        ({
            let white = Set::new(|c: char| text::is_white_space(c));
            without_spaces(text::trim_end_matches(u, white)) == text::trim_end_matches(
                without_spaces(u),
                white,
            )
        }),
    decreases u.len(),
{
    let white = Set::new(|c: char| text::is_white_space(c));
    if u.len() > 0 {
        let before = without_spaces(u.drop_last());
        if u.last() != ' ' {
            assert(before.push(u.last()).drop_last() =~= before);
        }
        if text::is_white_space(u.last()) {
            lemma_without_spaces_end(u.drop_last());
        }
    }
}

/// Leaving out spaces and trimming do not get in each other's way.
proof fn lemma_without_spaces_trimmed(u: Seq<char>)
    ensures
        without_spaces(text::trimmed(u)) == text::trimmed(without_spaces(u)),
    decreases u.len(),
{
    if u.len() == 0 {
    } else {
        let first = seq![u[0]];
        let rest = u.skip(1);
        assert(u =~= first + rest);
        lemma_without_spaces_concat(first, rest);
        assert(first.drop_last() =~= Seq::empty());
        assert(without_spaces(Seq::<char>::empty()) == Seq::<char>::empty());
        if text::is_white_space(u[0]) {
            lemma_without_spaces_trimmed(rest);
            let none = Seq::<char>::empty();
            assert(text::all_white_space(without_spaces(first)));
            text::lemma_trimmed_around(without_spaces(first), without_spaces(rest), none);
            assert(without_spaces(first) + without_spaces(rest) + none =~= without_spaces(u));
        } else {
            assert(without_spaces(first) =~= first);
            assert(without_spaces(u)[0] == u[0]);
            lemma_without_spaces_end(u);
        }
    }
}

/// Leaving out spaces leaves out nothing that is not ASCII.
proof fn lemma_spaces_are_ascii(u: Seq<char>)
    requires
        vstd::utf8::is_ascii_chars(without_spaces(u)),
    ensures
        vstd::utf8::is_ascii_chars(u),
    decreases u.len(),
{
    if u.len() > 0 {
        let before = without_spaces(u.drop_last());
        let now = without_spaces(u);
        assert forall|i: int| 0 <= i < before.len() implies '\0' <= #[trigger] before[i]
            <= '\u{7f}' by {
            assert(now[i] == before[i]);
        }
        lemma_spaces_are_ascii(u.drop_last());
        assert(u.last() <= '\u{7f}') by {
            if u.last() != ' ' {
                assert(now[now.len() - 1] == u.last());
            }
        }
        assert forall|i: int| 0 <= i < u.len() implies '\0' <= #[trigger] u[i] <= '\u{7f}' by {
            if i < u.len() - 1 {
                assert(u.drop_last()[i] == u[i]);
            }
        }
    }
}

/// A rate is written in ASCII.
proof fn lemma_rate_is_ascii(t: Seq<char>)
    requires
        rate_of(t) is Some,
    ensures
        vstd::utf8::is_ascii_chars(t),
{
    reveal_strlit("gbps");
    reveal_strlit("mbps");
    reveal_strlit("kbps");
    reveal_strlit("bps");
    law_what_gives_a_rate(t);
    let n = if text::ends_with(t, "gbps"@) || text::ends_with(t, "mbps"@) || text::ends_with(
        t,
        "kbps"@,
    ) {
        text::lemma_float_is_ascii(t.take(t.len() - 4));
        4int
    } else {
        text::lemma_unsigned_is_ascii(t.take(t.len() - 3), u64::MAX as nat);
        3int
    };
    let number = t.take(t.len() - n);
    let unit = t.skip(t.len() - n);
    assert forall|i: int| 0 <= i < t.len() implies '\0' <= #[trigger] t[i] <= '\u{7f}' by {
        if i < t.len() - n {
            assert(t[i] == number[i]);
        } else {
            assert(t[i] == unit[i - (t.len() - n)]);
        }
    }
}

/// The sign of the unit kelvin turned into its small letter.
spec fn without_kelvin(s: Seq<char>) -> Seq<char> {
    s.map_values(
        |c: char|
            if c == '\u{212a}' {
                'k'
            } else {
                c
            },
    )
}

/// Leaving out spaces does not get in the way of the lower case.
proof fn lemma_without_spaces_plain(u: Seq<char>)
    ensures
        text::all_plain(without_spaces(u)) == text::all_plain(u),
        without_spaces(without_kelvin(u)) == without_kelvin(without_spaces(u)),
    decreases u.len(),
{
    if u.len() == 0 {
        assert(without_kelvin(u) =~= u);
    } else {
        let front = u.drop_last();
        let before = without_spaces(front);
        lemma_without_spaces_plain(front);
        assert(without_kelvin(u).drop_last() =~= without_kelvin(front));
        assert(text::all_plain(u) == (text::all_plain(front) && text::is_plain(u.last()))) by {
            assert forall|i: int| 0 <= i < u.len() && text::all_plain(front) && text::is_plain(
                u.last(),
            ) implies text::is_plain(#[trigger] u[i]) by {
                if i < u.len() - 1 {
                    assert(front[i] == u[i]);
                }
            }
            if text::all_plain(u) {
                assert(text::is_plain(u[u.len() - 1]));
                assert forall|i: int| 0 <= i < front.len() implies text::is_plain(
                    #[trigger] front[i],
                ) by {
                    assert(u[i] == front[i]);
                }
            }
        }
        if u.last() != ' ' {
            let now = before.push(u.last());
            assert(without_kelvin(now) =~= without_kelvin(before).push(without_kelvin(u).last()));
            assert(text::all_plain(now) == (text::all_plain(before) && text::is_plain(u.last())))
                by {
                if text::all_plain(now) {
                    assert(text::is_plain(now[now.len() - 1]));
                    assert forall|i: int| 0 <= i < before.len() implies text::is_plain(
                        #[trigger] before[i],
                    ) by {
                        assert(now[i] == before[i]);
                    }
                }
            }
        }
    }
}

/// The rate of a text depends on its characters with ASCII letters in lower
/// case and without spaces alone.
proof fn lemma_squeezed_rate(s: Seq<char>)
    ensures
        ({
            let v = text::trimmed(without_spaces(text::ascii_lowered(s)));
            bps_of(s) == if text::all_plain(v) {
                rate_of(without_kelvin(v))
            } else {
                None
            }
        }),
{
    let t = text::trimmed(s);
    let u = text::ascii_lowered(t);
    text::lemma_trimmed_lowered(s);
    lemma_without_spaces_trimmed(text::ascii_lowered(s));
    lemma_without_spaces_plain(u);
    assert(text::all_plain(u) == text::all_plain(t)) by {
        assert forall|i: int| 0 <= i < t.len() implies text::is_plain(#[trigger] t[i])
            == text::is_plain(u[i]) by {}
        if text::all_plain(u) {
            assert forall|i: int| 0 <= i < t.len() implies text::is_plain(#[trigger] t[i]) by {
                assert(text::is_plain(u[i]));
            }
        }
    }
    assert(without_kelvin(u) =~= text::plain_lowered(t));
}

/// White space around a text does not change its rate.
pub proof fn law_white_space_around_is_nothing(w1: Seq<char>, s: Seq<char>, w2: Seq<char>)
    requires
        text::all_white_space(w1),
        text::all_white_space(w2),
    ensures
        bps_of(w1 + s + w2) == bps_of(s),
{
    text::lemma_trimmed_around(w1, s, w2);
}

/// Of two texts that differ in the case of ASCII letters and in spaces alone,
/// with whatever white space around them, the rates are the same.
pub proof fn law_case_and_spaces_are_nothing(
    w1: Seq<char>,
    s: Seq<char>,
    w2: Seq<char>,
    other: Seq<char>,
)
    requires
        without_spaces(text::ascii_lowered(s)) == without_spaces(text::ascii_lowered(other)),
        text::all_white_space(w1),
        text::all_white_space(w2),
    ensures
        bps_of(w1 + s + w2) == bps_of(other),
{
    law_white_space_around_is_nothing(w1, s, w2);
    lemma_squeezed_rate(s);
    lemma_squeezed_rate(other);
}

/// A text in lower case and without spaces gives a rate exactly where a unit
/// has a number before it: a floating-point number before the units in which
/// bits are counted, and a whole number that can be held before plain `bps`.
pub proof fn law_what_gives_a_rate(t: Seq<char>)
    ensures
        rate_of(t) is Some <==> if text::ends_with(t, "gbps"@) || text::ends_with(t, "mbps"@)
            || text::ends_with(t, "kbps"@) {
            text::is_float(t.take(t.len() - 4))
        } else {
            text::ends_with(t, "bps"@) && text::unsigned_of(
                t.take(t.len() - 3),
                u64::MAX as nat,
            ) is Some
        },
{
    let number = t.take(t.len() - 4);
    if text::unsigned_of(number, u64::MAX as nat) is Some {
        text::lemma_unsigned_is_float(number, u64::MAX as nat);
    }
}

/// The text of a whole number, a space and a unit in small letters is squeezed
/// to the number and the unit.
proof fn lemma_number_and_unit(n: nat, unit: Seq<char>)
    requires
        unit.len() > 0,
        forall|i: int| 0 <= i < unit.len() ==> 'a' <= #[trigger] unit[i] <= 'z',
    ensures
        bps_of(text::decimal(n) + seq![' '] + unit) == rate_of(text::decimal(n) + unit),
{
    let number = text::decimal(n);
    let s = number + seq![' '] + unit;
    text::lemma_decimal(n, n);
    assert(text::is_digit(number[0]));
    assert(s[0] == number[0]);
    assert(s.last() == unit[unit.len() - 1]);
    text::lemma_trimmed_same(s);
    assert forall|i: int| 0 <= i < s.len() implies text::ascii_lower(#[trigger] s[i]) == s[i] && s[i]
        <= '\u{7f}' by {
        if i < number.len() {
            assert(text::is_digit(number[i]));
        } else if i > number.len() {
            assert('a' <= unit[i - number.len() - 1] <= 'z');
        }
    }
    assert(text::all_plain(s));
    assert(text::plain_lowered(s) =~= s);
    lemma_without_spaces_concat(number + seq![' '], unit);
    lemma_without_spaces_concat(number, seq![' ']);
    assert forall|i: int| 0 <= i < number.len() implies #[trigger] number[i] != ' ' by {
        assert(text::is_digit(number[i]));
    }
    lemma_without_spaces_same(number);
    lemma_without_spaces_same(unit);
    assert(seq![' '].drop_last() =~= Seq::<char>::empty());
    assert(without_spaces(Seq::<char>::empty()) =~= Seq::<char>::empty());
    assert(without_spaces(seq![' ']) =~= Seq::<char>::empty());
    assert(number + Seq::<char>::empty() + unit =~= number + unit);
}

/// Twice a double is a double.
proof fn lemma_double_doubles(p: nat, k: nat)
    requires
        exact_double(p),
    ensures
        exact_double(p * vstd::arithmetic::power2::pow2(k)),
    decreases k,
{
    if k == 0 {
        vstd::arithmetic::power2::lemma2_to64();
        assert(p * 1 == p);
    } else {
        let w = vstd::arithmetic::power2::pow2((k - 1) as nat);
        vstd::arithmetic::power2::lemma_pow2_unfold(k);
        lemma_double_doubles(p, (k - 1) as nat);
        assert(p * (2 * w) == 2 * (p * w)) by (nonlinear_arith);
        assert((2 * (p * w)) / 2 == p * w);
    }
}

/// A whole number of giga-, mega- or kilobits is counted in bytes exactly.
proof fn lemma_whole_rate(n: u32, times: nat, bits: nat)
    requires
        times * bits == 1_000_000_000,
        times == 1 || times == 1_000 || times == 1_000_000,
    ensures
        scaled_rate(text::decimal(n as nat * times), bits) == Some(
            RateView::Exact(n as nat * 125_000_000),
        ),
{
    let m = n as nat * times;
    text::lemma_decimal(m, u64::MAX as nat);
    assert(m * bits == n as nat * 1_000_000_000) by (nonlinear_arith)
        requires
            m == n as nat * times,
            times * bits == 1_000_000_000,
    ;
    vstd::arithmetic::power2::lemma2_to64();
    assert(exact_double(n as nat * 1_953_125));
    lemma_double_doubles(n as nat * 1_953_125, 9);
    assert(n as nat * 1_953_125 * 512 == n as nat * 1_000_000_000);
}

/// The units agree: a number of gigabits, a thousand times as many megabits
/// and a million times as many kilobits are the same rate, an eighth of the
/// bits in bytes. A number of plain `bps` is a number of bytes.
pub proof fn law_units_agree(n: u32)
    ensures
        bps_of(text::decimal(n as nat) + " gbps"@) == Some(RateView::Exact(n as nat * 125_000_000)),
        bps_of(text::decimal(n as nat * 1_000) + " mbps"@) == Some(
            RateView::Exact(n as nat * 125_000_000),
        ),
        bps_of(text::decimal(n as nat * 1_000_000) + " kbps"@) == Some(
            RateView::Exact(n as nat * 125_000_000),
        ),
        bps_of(text::decimal(n as nat) + " bps"@) == Some(RateView::Exact(n as nat)),
{
    reveal_strlit(" gbps");
    reveal_strlit(" mbps");
    reveal_strlit(" kbps");
    reveal_strlit(" bps");
    reveal_strlit("gbps");
    reveal_strlit("mbps");
    reveal_strlit("kbps");
    reveal_strlit("bps");
    assert(" gbps"@ =~= seq![' '] + "gbps"@);
    assert(" mbps"@ =~= seq![' '] + "mbps"@);
    assert(" kbps"@ =~= seq![' '] + "kbps"@);
    assert(" bps"@ =~= seq![' '] + "bps"@);
    lemma_unit(n as nat, " gbps"@, "gbps"@);
    lemma_unit(n as nat * 1_000, " mbps"@, "mbps"@);
    lemma_unit(n as nat * 1_000_000, " kbps"@, "kbps"@);
    lemma_unit(n as nat, " bps"@, "bps"@);
    lemma_whole_rate(n, 1, 1_000_000_000);
    lemma_whole_rate(n, 1_000, 1_000_000);
    lemma_whole_rate(n, 1_000_000, 1_000);
    text::lemma_decimal(n as nat, u64::MAX as nat);
}

/// The rate of a whole number with one of the four units.
proof fn lemma_unit(n: nat, spaced: Seq<char>, unit: Seq<char>)
    requires
        spaced == seq![' '] + unit,
        unit == "gbps"@ || unit == "mbps"@ || unit == "kbps"@ || unit == "bps"@,
    ensures
        unit == "gbps"@ ==> bps_of(text::decimal(n) + spaced) == scaled_rate(
            text::decimal(n),
            1_000_000_000,
        ),
        unit == "mbps"@ ==> bps_of(text::decimal(n) + spaced) == scaled_rate(
            text::decimal(n),
            1_000_000,
        ),
        unit == "kbps"@ ==> bps_of(text::decimal(n) + spaced) == scaled_rate(
            text::decimal(n),
            1_000,
        ),
        unit == "bps"@ ==> bps_of(text::decimal(n) + spaced) == match text::unsigned_of(
            text::decimal(n),
            u64::MAX as nat,
        ) {
            Some(m) => Some(RateView::Exact(m)),
            None => None,
        },
{
    reveal_strlit("gbps");
    reveal_strlit("mbps");
    reveal_strlit("kbps");
    reveal_strlit("bps");
    let number = text::decimal(n);
    let t = number + unit;
    text::lemma_decimal(n, n);
    lemma_number_and_unit(n, unit);
    assert(number + spaced =~= number + seq![' '] + unit);
    assert(t.skip(t.len() - unit.len()) =~= unit);
    assert(t.take(t.len() - unit.len()) =~= number);
    assert(text::is_digit(number.last()));
    let tail = t.skip(t.len() - 4);
    if unit == "bps"@ {
        assert(tail[0] == number.last());
    } else {
        assert(tail =~= unit);
    }
    assert("gbps"@[0] == 'g' && "mbps"@[0] == 'm' && "kbps"@[0] == 'k');
}

/// A number of units that is a double as it stands is counted in bytes.
proof fn lemma_small_rate(n: nat, bits: nat, bytes: nat)
    requires
        n <= 0xffff_ffff,
        bits == 8 * bytes,
        bytes <= 125_000,
    ensures
        scaled_rate(text::decimal(n), bits) == Some(RateView::Exact(n * bytes)),
{
    text::lemma_decimal(n, u64::MAX as nat);
    assert(n * bits == 8 * (n * bytes) && n * bytes <= 0xffff_ffff * 125_000) by (nonlinear_arith)
        requires
            n <= 0xffff_ffff,
            bits == 8 * bytes,
            bytes <= 125_000,
    ;
}

/// Every number of megabits is 125 000 bytes for each, and every number of
/// kilobits 125.
pub proof fn law_every_number_of_bits(n: u32)
    ensures
        bps_of(text::decimal(n as nat) + " mbps"@) == Some(RateView::Exact(n as nat * 125_000)),
        bps_of(text::decimal(n as nat) + " kbps"@) == Some(RateView::Exact(n as nat * 125)),
{
    reveal_strlit(" mbps");
    reveal_strlit(" kbps");
    reveal_strlit("mbps");
    reveal_strlit("kbps");
    assert(" mbps"@ =~= seq![' '] + "mbps"@);
    assert(" kbps"@ =~= seq![' '] + "kbps"@);
    lemma_unit(n as nat, " mbps"@, "mbps"@);
    lemma_unit(n as nat, " kbps"@, "kbps"@);
    lemma_small_rate(n as nat, 1_000_000, 125_000);
    lemma_small_rate(n as nat, 1_000, 125);
}

/// A number of at most 53 bits, shifted to the left.
pub open spec fn shifted(m: nat, k: nat) -> nat {
    m * vstd::arithmetic::power2::pow2(k)
}

/// Whether a whole number is one of at most 53 bits, shifted to the left: the
/// whole numbers that a double holds exactly.
pub open spec fn is_shifted(p: nat) -> bool {
    exists|m: nat, k: nat| m <= 0x20_0000_0000_0000 && p == #[trigger] shifted(m, k)
}

/// The doubles are the numbers of at most 53 bits, shifted to the left.
pub proof fn law_exact_doubles(p: nat)
    ensures
        exact_double(p) <==> is_shifted(p),
    decreases p,
{
    vstd::arithmetic::power2::lemma2_to64();
    if is_shifted(p) {
        let (m, k) = choose|m: nat, k: nat|
            m <= 0x20_0000_0000_0000 && p == #[trigger] shifted(m, k);
        lemma_double_doubles(m, k);
    }
    if exact_double(p) {
        if p <= 0x20_0000_0000_0000 {
            assert(shifted(p, 0) == p);
        } else {
            law_exact_doubles(p / 2);
            let (m, k) = choose|m: nat, k: nat|
                m <= 0x20_0000_0000_0000 && p / 2 == #[trigger] shifted(m, k);
            vstd::arithmetic::power2::lemma_pow2_unfold(k + 1);
            let w = vstd::arithmetic::power2::pow2(k);
            assert(m * (2 * w) == 2 * (m * w)) by (nonlinear_arith);
            assert(shifted(m, k + 1) == p);
        }
    }
}

/// A text of visible ASCII characters without capitals.
pub open spec fn is_simple(s: Seq<char>) -> bool {
    forall|i: int|
        0 <= i < s.len() ==> ' ' < (#[trigger] s[i]) <= '~' && !('A' <= s[i] <= 'Z')
}

/// A simple text is squeezed to itself.
proof fn lemma_simple(t: Seq<char>)
    requires
        is_simple(t),
        t.len() > 0,
    ensures
        bps_of(t) == rate_of(t),
{
    text::lemma_trimmed_same(t);
    assert(text::all_plain(t)) by {
        assert forall|i: int| 0 <= i < t.len() implies text::is_plain(#[trigger] t[i]) by {
            assert(t[i] <= '~');
        }
    }
    assert(text::plain_lowered(t) =~= t) by {
        assert forall|i: int| 0 <= i < t.len() implies text::plain_lower(#[trigger] t[i])
            == t[i] by {
            assert(t[i] <= '~');
        }
    }
    lemma_without_spaces_same(t);
}

/// A space before the unit changes nothing.
proof fn lemma_space_before_unit(w: Seq<char>, unit: Seq<char>)
    requires
        is_simple(w),
        is_simple(unit),
        unit.len() > 0,
    ensures
        bps_of(w + seq![' '] + unit) == rate_of(w + unit),
{
    let none = Seq::<char>::empty();
    let s = w + seq![' '] + unit;
    let t = w + unit;
    assert(is_simple(t));
    lemma_simple(t);
    lemma_without_spaces_concat(text::ascii_lowered(w) + seq![' '], text::ascii_lowered(unit));
    lemma_without_spaces_concat(text::ascii_lowered(w), seq![' ']);
    lemma_without_spaces_concat(text::ascii_lowered(w), text::ascii_lowered(unit));
    assert(text::ascii_lowered(s) =~= text::ascii_lowered(w) + seq![' ']
        + text::ascii_lowered(unit));
    assert(text::ascii_lowered(t) =~= text::ascii_lowered(w) + text::ascii_lowered(unit));
    assert(seq![' '].drop_last() =~= none);
    assert(without_spaces(none) =~= none);
    assert(without_spaces(seq![' ']) =~= none);
    let a = without_spaces(text::ascii_lowered(w));
    assert(a + none =~= a);
    law_case_and_spaces_are_nothing(none, s, none, t);
    assert(none + s + none =~= s);
}

/// What a number before a unit of `bits` bits gives: a whole number of bits
/// that is a double is an eighth as many bytes, but at most as many as can be
/// held; any other floating-point number is kept with its unit.
pub open spec fn is_rate_of(r: Option<RateView>, number: Seq<char>, bits: nat) -> bool {
    let n = text::unsigned_of(number, 0xffff_ffff_ffff_ffff);
    if n is Some && is_shifted(n->0 * bits) {
        let bytes = n->0 * bits / 8;
        r == Some(
            RateView::Exact(
                if bytes <= 0xffff_ffff_ffff_ffff {
                    bytes
                } else {
                    0xffff_ffff_ffff_ffff
                },
            ),
        )
    } else if text::is_float(number) {
        r == Some(RateView::Decimal { number, bits })
    } else {
        r is None
    }
}

/// What any text before one of the units of bits gives, with or without a
/// space between them.
pub proof fn law_numbers_of_bits(w: Seq<char>)
    requires
        is_simple(w),
    ensures
        is_rate_of(bps_of(w + "gbps"@), w, 1_000_000_000),
        is_rate_of(bps_of(w + "mbps"@), w, 1_000_000),
        is_rate_of(bps_of(w + "kbps"@), w, 1_000),
        is_rate_of(bps_of(w + " gbps"@), w, 1_000_000_000),
        is_rate_of(bps_of(w + " mbps"@), w, 1_000_000),
        is_rate_of(bps_of(w + " kbps"@), w, 1_000),
{
    reveal_strlit("gbps");
    reveal_strlit("mbps");
    reveal_strlit("kbps");
    reveal_strlit(" gbps");
    reveal_strlit(" mbps");
    reveal_strlit(" kbps");
    assert("gbps"@ =~= seq!['g', 'b', 'p', 's']);
    assert("mbps"@ =~= seq!['m', 'b', 'p', 's']);
    assert("kbps"@ =~= seq!['k', 'b', 'p', 's']);
    assert(" gbps"@ =~= seq![' '] + "gbps"@);
    assert(" mbps"@ =~= seq![' '] + "mbps"@);
    assert(" kbps"@ =~= seq![' '] + "kbps"@);
    lemma_bits(w, "gbps"@, 1_000_000_000);
    lemma_bits(w, "mbps"@, 1_000_000);
    lemma_bits(w, "kbps"@, 1_000);
    assert(w + " gbps"@ =~= w + seq![' '] + "gbps"@);
    assert(w + " mbps"@ =~= w + seq![' '] + "mbps"@);
    assert(w + " kbps"@ =~= w + seq![' '] + "kbps"@);
}

proof fn lemma_bits(w: Seq<char>, unit: Seq<char>, bits: nat)
    requires
        is_simple(w),
        unit == "gbps"@ && bits == 1_000_000_000 || unit == "mbps"@ && bits == 1_000_000 || unit
            == "kbps"@ && bits == 1_000,
    ensures
        is_rate_of(bps_of(w + unit), w, bits),
        is_rate_of(bps_of(w + seq![' '] + unit), w, bits),
{
    reveal_strlit("gbps");
    reveal_strlit("mbps");
    reveal_strlit("kbps");
    let t = w + unit;
    assert(is_simple(unit));
    assert(is_simple(t));
    lemma_simple(t);
    lemma_space_before_unit(w, unit);
    assert(t.skip(t.len() - 4) =~= unit);
    assert(t.take(t.len() - 4) =~= w);
    assert("gbps"@[0] == 'g' && "mbps"@[0] == 'm' && "kbps"@[0] == 'k');
    assert(rate_of(t) == scaled_rate(w, bits));
    match text::unsigned_of(w, 0xffff_ffff_ffff_ffff) {
        Some(n) => {
            law_exact_doubles(n * bits);
        },
        None => {},
    }
}

/// What any text before plain `bps` gives: a whole number that can be held is
/// that many bytes, and nothing else is a rate.
pub proof fn law_plain_bps(w: Seq<char>)
    requires
        is_simple(w),
        w.len() > 0 ==> w.last() != 'g' && w.last() != 'm' && w.last() != 'k',
    ensures
        bps_of(w + " bps"@) == bps_of(w + "bps"@),
        bps_of(w + "bps"@) == match text::unsigned_of(w, 0xffff_ffff_ffff_ffff) {
            Some(n) => Some(RateView::Exact(n)),
            None => None,
        },
{
    reveal_strlit("gbps");
    reveal_strlit("mbps");
    reveal_strlit("kbps");
    reveal_strlit("bps");
    reveal_strlit(" bps");
    let unit = "bps"@;
    let t = w + unit;
    assert(is_simple(unit));
    assert(is_simple(t));
    lemma_simple(t);
    lemma_space_before_unit(w, unit);
    assert(" bps"@ =~= seq![' '] + unit);
    assert(w + " bps"@ =~= w + seq![' '] + unit);
    assert(t.skip(t.len() - 3) =~= unit);
    assert(t.take(t.len() - 3) =~= w);
    if w.len() > 0 {
        assert(t.skip(t.len() - 4)[0] == w.last());
        assert("gbps"@[0] == 'g' && "mbps"@[0] == 'm' && "kbps"@[0] == 'k');
    }
}

/// A text without a unit at its end gives no rate.
pub proof fn law_no_unit_no_rate(t: Seq<char>)
    requires
        is_simple(t),
        t.len() > 0,
        t.len() < 3 || t.skip(t.len() - 3) != "bps"@,
    ensures
        bps_of(t) is None,
        bps_of(Seq::<char>::empty()) is None,
{
    reveal_strlit("gbps");
    reveal_strlit("mbps");
    reveal_strlit("kbps");
    reveal_strlit("bps");
    lemma_simple(t);
    if t.len() >= 4 {
        let tail = t.skip(t.len() - 4);
        assert(tail.skip(1) =~= t.skip(t.len() - 3));
        assert("gbps"@.skip(1) =~= "bps"@);
        assert("mbps"@.skip(1) =~= "bps"@);
        assert("kbps"@.skip(1) =~= "bps"@);
    }
    let none = Seq::<char>::empty();
    assert(text::trimmed(none) =~= none);
    assert(text::plain_lowered(none) =~= none);
}

/// A text gives no rate that holds a character outside ASCII which is no white
/// space and not the sign of the unit kelvin.
pub proof fn law_foreign_characters_give_no_rate(a: Seq<char>, c: char, b: Seq<char>)
    requires
        c > '\u{7f}',
        c != '\u{212a}',
        !text::is_white_space(c),
    ensures
        bps_of(a + seq![c] + b) is None,
{
    let s = a + seq![c] + b;
    let t = text::trimmed(s);
    text::law_trimming(s);
    let (x, y) = choose|x: Seq<char>, y: Seq<char>|
        {
            &&& s == #[trigger] (x + t + y)
            &&& text::all_white_space(x)
            &&& text::all_white_space(y)
        };
    let i = a.len() as int;
    assert(s[i] == c);
    if i < x.len() {
        assert(text::is_white_space(x[i]));
    } else if i >= x.len() + t.len() {
        assert(text::is_white_space(y[i - x.len() - t.len()]));
    } else {
        assert(!text::is_plain(t[i - x.len()]));
    }
}

/// Leaving out spaces keeps every other character, in order.
pub proof fn law_without_spaces(s: Seq<char>)
    ensures
        without_spaces(s) == s.filter(|c: char| c != ' '),
    decreases s.len(),
{
    reveal(Seq::filter);
    if s.len() > 0 {
        law_without_spaces(s.drop_last());
    }
}

/// A value that may be missing is seen as what it holds.
pub proof fn law_values_are_seen(s: String, t: &str, n: u64)
    ensures
        opt_text(Some(s)) == Some(s@),
        opt_text(None) is None,
        opt_str(Some(t)) == Some(t@),
        opt_str(None) is None,
        opt_rate(Some(Rate::Exact(n))) == Some(RateView::Exact(n as nat)),
        opt_rate(Some(Rate::Decimal { number: s, bits: n })) == Some(
            RateView::Decimal { number: s@, bits: n as nat },
        ),
        opt_rate(None) is None,
{
}

proof fn lemma_kelvin_end(u: Seq<char>, white: Set<char>)
    requires
        forall|c: char| #[trigger] white.contains(c) <==> text::is_white_space(c),
    ensures
        without_kelvin(text::trim_end_matches(u, white)) == text::trim_end_matches(
            without_kelvin(u),
            white,
        ),
    decreases u.len(),
{
    let k = without_kelvin(u);
    if u.len() > 0 {
        assert(k.last() == if u.last() == '\u{212a}' {
            'k'
        } else {
            u.last()
        });
        if text::is_white_space(u.last()) {
            lemma_kelvin_end(u.drop_last(), white);
            assert(k.drop_last() =~= without_kelvin(u.drop_last()));
        }
    }
}

/// The sign of the unit kelvin is no white space.
proof fn lemma_kelvin_trimmed(u: Seq<char>, white: Set<char>)
    requires
        forall|c: char| #[trigger] white.contains(c) <==> text::is_white_space(c),
    ensures
        without_kelvin(text::trim_matches(u, white)) == text::trim_matches(
            without_kelvin(u),
            white,
        ),
    decreases u.len(),
{
    let k = without_kelvin(u);
    if u.len() > 0 {
        assert(k[0] == if u[0] == '\u{212a}' {
            'k'
        } else {
            u[0]
        });
    }
    if u.len() > 0 && text::is_white_space(u[0]) {
        lemma_kelvin_trimmed(u.skip(1), white);
        assert(k.skip(1) =~= without_kelvin(u.skip(1)));
    } else {
        lemma_kelvin_end(u, white);
    }
}

/// The sign of the unit kelvin is taken for a k.
pub proof fn law_kelvin_is_a_k(a: Seq<char>, b: Seq<char>)
    ensures
        bps_of(a + seq!['\u{212a}'] + b) == bps_of(a + seq!['k'] + b),
{
    let s1 = a + seq!['\u{212a}'] + b;
    let s2 = a + seq!['k'] + b;
    let l1 = text::ascii_lowered(s1);
    let l2 = text::ascii_lowered(s2);
    let white = Set::new(|c: char| text::is_white_space(c));
    assert forall|c: char| #[trigger] white.contains(c) <==> text::is_white_space(c) by {}
    lemma_squeezed_rate(s1);
    lemma_squeezed_rate(s2);
    assert(without_kelvin(l1) =~= without_kelvin(l2));
    lemma_without_spaces_plain(l1);
    lemma_without_spaces_plain(l2);
    lemma_kelvin_trimmed(without_spaces(l1), white);
    lemma_kelvin_trimmed(without_spaces(l2), white);
    lemma_kelvin_is_plain(text::trimmed(without_spaces(l1)));
    lemma_kelvin_is_plain(text::trimmed(without_spaces(l2)));
}

proof fn lemma_kelvin_is_plain(v: Seq<char>)
    ensures
        text::all_plain(without_kelvin(v)) == text::all_plain(v),
{
    let k = without_kelvin(v);
    if text::all_plain(v) {
        assert forall|i: int| 0 <= i < k.len() implies text::is_plain(#[trigger] k[i]) by {
            assert(text::is_plain(v[i]));
        }
    }
    if text::all_plain(k) {
        assert forall|i: int| 0 <= i < v.len() implies text::is_plain(#[trigger] v[i]) by {
            assert(text::is_plain(k[i]));
        }
    }
}

} // verus!
