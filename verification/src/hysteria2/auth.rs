//! Letting clients in, and the requests and answers of TCP streams.

use crate::buffer;
use crate::buffer::{bytes_mut_of, bytes_of, fits_buffer};
use crate::config::{opt_text, AuthConfig};
use crate::text;
use crate::varint;
use crate::varint::{varint_bytes, varint_len, varint_of, varint_value, VarintError};
use bytes::{Bytes, BytesMut};
use rand::Rng;
use vstd::prelude::*;
use vstd::utf8;

verus! {

/// The header that carries the password of a client.
pub const HYSTERIA_AUTH_HEADER: &'static str = "Hysteria-Auth";

/// The status that tells a client that it was let in.
pub const STATUS_AUTH_OK: u16 = 233;

/// The type of the frame that asks for a TCP connection.
pub const FRAME_TYPE_TCP_REQUEST: u64 = 0x401;

/// Whether a client was let in, or why it was not.
#[derive(Debug)]
pub enum AuthResult {
    Pass,
    Fail(String),
}

/// How the handshake with a client went.
#[derive(Debug)]
pub enum Handshake {
    /// No HTTP/3 connection came about.
    InitFailed(String),
    /// The client showed credentials, and was answered.
    Checked(bool),
    /// Something broke before the client was answered.
    Broken(String),
}

/// `prefix` and then `rest`.
fn joined(prefix: &str, rest: &str) -> (s: String)
    ensures
        s@ == prefix@ + rest@,
{
    let mut s = prefix.to_string();
    s.append(rest);
    s
}

/// Why a client is not let in after the handshake; `None` where it is.
pub open spec fn refusal_of(handshake: Handshake) -> Option<Seq<char>> {
    match handshake {
        Handshake::Checked(true) => None,
        Handshake::Checked(false) => Some("wrong credentials"@),
        Handshake::InitFailed(e) => Some("H3 connection init failed: "@ + e@),
        Handshake::Broken(e) => Some("handshake error: "@ + e@),
    }
}

/// What becomes of a client after the handshake.
pub fn auth_result(handshake: Handshake) -> (r: AuthResult)
    ensures
        match (r, refusal_of(handshake)) {
            (AuthResult::Pass, None) => true,
            (AuthResult::Fail(why), Some(reason)) => why@ == reason,
            _ => false,
        },
        match handshake {
            Handshake::Checked(true) => r is Pass,
            Handshake::Checked(false) => r is Fail && r->0@ == "wrong credentials"@,
            Handshake::InitFailed(e) => r is Fail && r->0@ == "H3 connection init failed: "@ + e@,
            Handshake::Broken(e) => r is Fail && r->0@ == "handshake error: "@ + e@,
        },
{
    match handshake {
        Handshake::Checked(true) => AuthResult::Pass,
        Handshake::Checked(false) => AuthResult::Fail("wrong credentials".to_string()),
        Handshake::InitFailed(e) => AuthResult::Fail(
            joined("H3 connection init failed: ", e.as_str()),
        ),
        Handshake::Broken(e) => AuthResult::Fail(joined("handshake error: ", e.as_str())),
    }
}

/// Whether credentials are good: always where none are asked for, and else
/// where they are the configured password.
pub open spec fn credentials_good(
    auth_type: Seq<char>,
    password: Option<Seq<char>>,
    header: Seq<char>,
) -> bool {
    auth_type == "none"@ || password == Some(header)
}

/// Checks the credentials that a client shows. One that shows none is taken
/// to show an empty text.
pub fn check_credentials(cfg: &AuthConfig, header: Option<&str>) -> (ok: bool)
    ensures
        ok == credentials_good(
            cfg.auth_type@,
            opt_text(cfg.password),
            match header {
                Some(h) => h@,
                None => Seq::empty(),
            },
        ),
{
    let shown = match header {
        Some(h) => h,
        None => "",
    };
    proof {
        reveal_strlit("");
        assert(""@ =~= Seq::<char>::empty());
    }
    if cfg.is_none() {
        return true;
    }
    match cfg.password() {
        Some(p) => text::same_text(shown, p),
        None => false,
    }
}

/// A header of an answer.
#[derive(Debug)]
pub struct ReplyHeader {
    pub name: String,
    pub value: String,
}

/// The answer to a client that showed credentials.
#[derive(Debug)]
pub struct AuthReply {
    pub status: u16,
    pub headers: Vec<ReplyHeader>,
}

/// The names and values of headers.
pub open spec fn header_pairs(h: Seq<ReplyHeader>) -> Seq<(Seq<char>, Seq<char>)> {
    h.map_values(|x: ReplyHeader| (x.name@, x.value@))
}

/// The status of the answer, by whether the credentials were good.
pub open spec fn auth_status(ok: bool) -> u16 {
    if ok {
        233
    } else {
        403
    }
}

/// The headers of the answer: UDP is offered to those who are let in.
pub open spec fn auth_headers(ok: bool, padding: Seq<char>) -> Seq<(Seq<char>, Seq<char>)> {
    seq![
        (
            "Hysteria-UDP"@,
            if ok {
                "true"@
            } else {
                "false"@
            },
        ),
        ("Hysteria-CC-RX"@, "0"@),
        ("Hysteria-Padding"@, padding),
    ]
}

/// The answer with this padding.
pub fn auth_reply_with(ok: bool, padding: String) -> (r: AuthReply)
    ensures
        r.status == auth_status(ok),
        header_pairs(r.headers@) == auth_headers(ok, padding@),
{
    let udp = if ok {
        "true"
    } else {
        "false"
    };
    let mut headers: Vec<ReplyHeader> = Vec::new();
    headers.push(ReplyHeader { name: "Hysteria-UDP".to_string(), value: udp.to_string() });
    headers.push(ReplyHeader { name: "Hysteria-CC-RX".to_string(), value: "0".to_string() });
    headers.push(ReplyHeader { name: "Hysteria-Padding".to_string(), value: padding });
    assert(header_pairs(headers@) =~= auth_headers(ok, padding@));
    let status = if ok {
        STATUS_AUTH_OK
    } else {
        403
    };
    AuthReply { status, headers }
}

/// Everyone is let in where no credentials are asked for, and else those who
/// know the password and nobody else. Who is not let in is told so, and is
/// offered no UDP.
pub proof fn law_who_is_let_in(
    auth_type: Seq<char>,
    password: Option<Seq<char>>,
    header: Seq<char>,
    padding: Seq<char>,
)
    ensures
        ({
            let ok = credentials_good(auth_type, password, header);
            &&& auth_type == "none"@ ==> ok
            &&& auth_type != "none"@ ==> (ok <==> password == Some(header))
            &&& auth_status(ok) == 233 <==> ok
            &&& auth_status(ok) == 403 <==> !ok
            &&& auth_headers(ok, padding)[0].1 == "true"@ <==> ok
        }),
{
    reveal_strlit("true");
    reveal_strlit("false");
    assert("true"@.len() != "false"@.len());
}

/// `Rng::gen_range` on the generator of the thread: some number of the range,
/// which may not be empty.
#[verifier::external_body]
fn random_in(low: usize, high: usize) -> (n: usize)
    requires
        low < high,
    ensures
        low <= n < high,
{
    rand::thread_rng().gen_range(low..high)
}

/// A letter or a digit of ASCII.
pub open spec fn is_alphanumeric(c: char) -> bool {
    'a' <= c <= 'z' || 'A' <= c <= 'Z' || '0' <= c <= '9'
}

/// The small letters, then the capitals, then the digits, by number.
pub open spec fn padding_char(i: nat) -> char {
    if i < 26 {
        ('a' as nat + i) as char
    } else if i < 52 {
        ('A' as nat + i - 26) as char
    } else {
        ('0' as nat + i - 52) as char
    }
}

/// The letter or digit of this number.
pub fn padding_char_at(i: usize) -> (c: char)
    requires
        i < 62,
    ensures
        c == padding_char(i as nat),
        is_alphanumeric(c),
{
    let b: u8 = if i < 26 {
        97 + i as u8
    } else if i < 52 {
        65 + (i - 26) as u8
    } else {
        48 + (i - 52) as u8
    };
    b as char
}

/// Letters and digits alone.
pub open spec fn all_alphanumeric(s: Seq<char>) -> bool {
    forall|i: int| 0 <= i < s.len() ==> is_alphanumeric(#[trigger] s[i])
}

/// Letters and digits by chance, at least `min` of them and fewer than `max`.
pub fn gen_padding(min: usize, max: usize) -> (s: String)
    requires
        min < max,
    ensures
        min <= s@.len() < max,
        all_alphanumeric(s@),
{
    let len = random_in(min, max);
    let mut s = String::new();
    let mut i: usize = 0;
    while i < len
        invariant
            i <= len,
            s@.len() == i,
            all_alphanumeric(s@),
        decreases len - i,
    {
        s.push(padding_char_at(random_in(0, 62)));
        i += 1;
    }
    s
}

/// The answer to a client that showed credentials, padded by chance.
pub fn auth_reply(ok: bool) -> (r: AuthReply)
    ensures
        r.status == auth_status(ok),
        exists|padding: Seq<char>|
            256 <= padding.len() < 2048 && all_alphanumeric(padding) && header_pairs(r.headers@)
                == #[trigger] auth_headers(ok, padding),
{
    let padding = gen_padding(256, 2048);
    auth_reply_with(ok, padding)
}

/// The answer to a TCP request: whether the connection stands, a message and
/// padding, each of the two with its length in front.
pub open spec fn tcp_response(ok: bool, message: Seq<u8>, padding: Seq<u8>) -> Seq<u8> {
    seq![
        if ok {
            0u8
        } else {
            1u8
        },
    ] + varint_bytes(message.len() as u64) + message + varint_bytes(padding.len() as u64) + padding
}

/// The answer to a TCP request with this padding.
pub fn tcp_response_with(ok: bool, message: &str, padding: &str) -> (r: Bytes)
    requires
        fits_buffer(utf8::encode_utf8(message@).len() + utf8::encode_utf8(padding@).len() + 20),
    ensures
        bytes_of(r) == tcp_response(
            ok,
            utf8::encode_utf8(message@),
            utf8::encode_utf8(padding@),
        ),
{
    let status: u8 = if ok {
        0
    } else {
        1
    };
    let msg = message.as_bytes();
    let pad = padding.as_bytes();
    let mut buf = BytesMut::new();
    buffer::put_u8(&mut buf, status);
    proof {
        lemma_varint_short(msg@.len() as u64);
        lemma_varint_short(pad@.len() as u64);
    }
    varint::write_varint(&mut buf, msg.len() as u64);
    buf.extend_from_slice(msg);
    varint::write_varint(&mut buf, pad.len() as u64);
    buf.extend_from_slice(pad);
    assert(bytes_mut_of(buf) =~= tcp_response(ok, msg@, pad@));
    buf.freeze()
}

/// No integer takes more than eight bytes.
proof fn lemma_varint_short(v: u64)
    ensures
        1 <= varint_bytes(v).len() <= 8,
{
    reveal_with_fuel(buffer::be_bytes, 9);
}

/// The answer to a TCP request, padded by chance.
pub fn write_tcp_response(ok: bool, message: &str) -> (r: Bytes)
    requires
        fits_buffer(utf8::encode_utf8(message@).len() + 1044),
    ensures
        exists|padding: Seq<char>|
            128 <= padding.len() < 1024 && all_alphanumeric(padding) && bytes_of(r)
                == #[trigger] tcp_response(
                ok,
                utf8::encode_utf8(message@),
                utf8::encode_utf8(padding),
            ),
{
    let pad_len = random_in(128, 1024);
    let padding = gen_padding(pad_len, pad_len + 1);
    proof {
        assert(utf8::is_ascii_chars(padding@));
        utf8::is_ascii_chars_encode_utf8(padding@);
    }
    tcp_response_with(ok, message, padding.as_str())
}

/// The reader of an answer finds the status, the message by its length and
/// the padding by its length, and nothing after them.
pub proof fn law_tcp_response_reads_back(ok: bool, message: Seq<u8>, padding: Seq<u8>)
    requires
        message.len() < 0x4000_0000_0000_0000,
        padding.len() < 0x4000_0000_0000_0000,
    ensures
        ({
            let s = tcp_response(ok, message, padding);
            let a = varint_bytes(message.len() as u64).len();
            let b = varint_bytes(padding.len() as u64).len();
            let m = 1 + a as int;
            let p = m + message.len() + b;
            &&& s[0] == if ok {
                0u8
            } else {
                1u8
            }
            &&& varint_of(s.skip(1)) == Ok::<(nat, nat), VarintError>((message.len(), a))
            &&& s.subrange(m, m + message.len()) == message
            &&& varint_of(s.skip(m + message.len())) == Ok::<(nat, nat), VarintError>(
                (padding.len(), b),
            )
            &&& s.skip(p) == padding
        }),
{
    let s = tcp_response(ok, message, padding);
    let a = varint_bytes(message.len() as u64);
    let b = varint_bytes(padding.len() as u64);
    let m = 1 + a.len() as int;
    assert(s.skip(1) =~= a + (message + b + padding));
    varint::law_varint_roundtrip(message.len() as u64, message + b + padding);
    assert(s.subrange(m, m + message.len()) =~= message);
    assert(s.skip(m + message.len()) =~= b + padding);
    varint::law_varint_roundtrip(padding.len() as u64, padding);
    assert(s.skip(m + message.len() + b.len()) =~= padding);
}

/// Why a TCP request was refused.
#[derive(Clone, Copy, Debug, PartialEq, Eq, Structural)]
pub enum RequestError {
    /// The address would have no bytes, or more than 2048.
    BadAddrLen(u64),
    /// The address is no UTF-8.
    NotUtf8,
}

/// How far the reading of a stream has come: what is to be read next, and
/// what was read before. An integer is read by its first byte, which tells
/// how many are left of it.
#[derive(Debug)]
pub enum RequestState {
    /// The type of the frame.
    Kind,
    KindRest { first: u8 },
    /// The length of the address.
    Len,
    LenRest { first: u8 },
    /// The address.
    Addr { len: usize },
    /// The length of the padding.
    PadLen { addr: String },
    PadLenRest { addr: String, first: u8 },
    /// The padding, of which this much is left. It is read in parts.
    Pad { addr: String, left: u64 },
}

/// What follows on the bytes of one state.
#[derive(Debug)]
pub enum RequestStep {
    /// There is more to read.
    More(RequestState),
    /// The stream is of this type, and not for us.
    Ignore(u64),
    /// The stream asks for a connection to this address.
    Done(String),
}

/// How far the reading of a stream has come, over mathematical values.
pub enum RequestStateView {
    Kind,
    KindRest { first: u8 },
    Len,
    LenRest { first: u8 },
    Addr { len: nat },
    PadLen { addr: Seq<char> },
    PadLenRest { addr: Seq<char>, first: u8 },
    Pad { addr: Seq<char>, left: nat },
}

/// What follows on the bytes of one state, over mathematical values.
pub enum RequestStepView {
    More(RequestStateView),
    Ignore(nat),
    Done(Seq<char>),
}

impl View for RequestState {
    type V = RequestStateView;

    open spec fn view(&self) -> RequestStateView {
        match self {
            RequestState::Kind => RequestStateView::Kind,
            RequestState::KindRest { first } => RequestStateView::KindRest { first: *first },
            RequestState::Len => RequestStateView::Len,
            RequestState::LenRest { first } => RequestStateView::LenRest { first: *first },
            RequestState::Addr { len } => RequestStateView::Addr { len: *len as nat },
            RequestState::PadLen { addr } => RequestStateView::PadLen { addr: addr@ },
            RequestState::PadLenRest { addr, first } => RequestStateView::PadLenRest {
                addr: addr@,
                first: *first,
            },
            RequestState::Pad { addr, left } => RequestStateView::Pad {
                addr: addr@,
                left: *left as nat,
            },
        }
    }
}

impl View for RequestStep {
    type V = RequestStepView;

    open spec fn view(&self) -> RequestStepView {
        match self {
            RequestStep::More(state) => RequestStepView::More(state@),
            RequestStep::Ignore(kind) => RequestStepView::Ignore(*kind as nat),
            RequestStep::Done(addr) => RequestStepView::Done(addr@),
        }
    }
}

impl RequestStateView {
    /// How many bytes are to be read next.
    pub open spec fn wanted(self) -> nat {
        match self {
            RequestStateView::Kind => 1,
            RequestStateView::KindRest { first } => (varint_len(first) - 1) as nat,
            RequestStateView::Len => 1,
            RequestStateView::LenRest { first } => (varint_len(first) - 1) as nat,
            RequestStateView::Addr { len } => len,
            RequestStateView::PadLen { .. } => 1,
            RequestStateView::PadLenRest { first, .. } => (varint_len(first) - 1) as nat,
            RequestStateView::Pad { left, .. } => if left < 4096 {
                left
            } else {
                4096
            },
        }
    }

    /// How many kinds of states may follow at most.
    pub open spec fn rank(self) -> nat {
        match self {
            RequestStateView::Kind => 8,
            RequestStateView::KindRest { .. } => 7,
            RequestStateView::Len => 6,
            RequestStateView::LenRest { .. } => 5,
            RequestStateView::Addr { .. } => 4,
            RequestStateView::PadLen { .. } => 3,
            RequestStateView::PadLenRest { .. } => 2,
            RequestStateView::Pad { .. } => 1,
        }
    }

    /// How much padding is left.
    pub open spec fn left(self) -> nat {
        match self {
            RequestStateView::Pad { left, .. } => left,
            _ => 0,
        }
    }
}

/// What the type of the frame leads to.
pub open spec fn after_kind(kind: nat) -> RequestStepView {
    if kind == 0x401 {
        RequestStepView::More(RequestStateView::Len)
    } else {
        RequestStepView::Ignore(kind)
    }
}

/// What the length of the address leads to.
pub open spec fn after_len(len: nat) -> Result<RequestStepView, RequestError> {
    if len == 0 || len > 2048 {
        Err(RequestError::BadAddrLen(len as u64))
    } else {
        Ok(RequestStepView::More(RequestStateView::Addr { len }))
    }
}

/// What follows while so much padding is left: as long as there is any, it is
/// read and dropped.
pub open spec fn after_pad(addr: Seq<char>, left: nat) -> RequestStepView {
    if left > 0 {
        RequestStepView::More(RequestStateView::Pad { addr, left })
    } else {
        RequestStepView::Done(addr)
    }
}

/// What the bytes that a state wants lead to.
pub open spec fn request_step(state: RequestStateView, bytes: Seq<u8>) -> Result<
    RequestStepView,
    RequestError,
> {
    match state {
        RequestStateView::Kind => Ok(
            if varint_len(bytes[0]) == 1 {
                after_kind(varint_value(bytes))
            } else {
                RequestStepView::More(RequestStateView::KindRest { first: bytes[0] })
            },
        ),
        RequestStateView::KindRest { first } => Ok(after_kind(varint_value(seq![first] + bytes))),
        RequestStateView::Len => if varint_len(bytes[0]) == 1 {
            after_len(varint_value(bytes))
        } else {
            Ok(RequestStepView::More(RequestStateView::LenRest { first: bytes[0] }))
        },
        RequestStateView::LenRest { first } => after_len(varint_value(seq![first] + bytes)),
        RequestStateView::Addr { .. } => if utf8::valid_utf8(bytes) {
            Ok(RequestStepView::More(RequestStateView::PadLen { addr: utf8::decode_utf8(bytes) }))
        } else {
            Err(RequestError::NotUtf8)
        },
        RequestStateView::PadLen { addr } => Ok(
            if varint_len(bytes[0]) == 1 {
                after_pad(addr, varint_value(bytes))
            } else {
                RequestStepView::More(RequestStateView::PadLenRest { addr, first: bytes[0] })
            },
        ),
        RequestStateView::PadLenRest { addr, first } => Ok(
            after_pad(addr, varint_value(seq![first] + bytes)),
        ),
        RequestStateView::Pad { addr, left } => Ok(after_pad(addr, (left - bytes.len()) as nat)),
    }
}

/// What the end of a stream leads to that comes before the bytes that a state
/// wants: only padding may be missing.
pub open spec fn request_end(state: RequestStateView) -> Option<Seq<char>> {
    match state {
        RequestStateView::Pad { addr, .. } => Some(addr),
        _ => None,
    }
}

fn kind_step(kind: u64) -> (r: RequestStep)
    ensures
        r@ == after_kind(kind as nat),
{
    if kind == FRAME_TYPE_TCP_REQUEST {
        RequestStep::More(RequestState::Len)
    } else {
        RequestStep::Ignore(kind)
    }
}

fn len_step(len: u64) -> (r: Result<RequestStep, RequestError>)
    ensures
        match (r, after_len(len as nat)) {
            (Ok(step), Ok(view)) => step@ == view,
            (Err(e), Err(why)) => e == why,
            _ => false,
        },
{
    if len == 0 || len > 2048 {
        Err(RequestError::BadAddrLen(len))
    } else {
        Ok(RequestStep::More(RequestState::Addr { len: len as usize }))
    }
}

fn pad_step(addr: String, left: u64) -> (r: RequestStep)
    ensures
        r@ == after_pad(addr@, left as nat),
{
    if left > 0 {
        RequestStep::More(RequestState::Pad { addr, left })
    } else {
        RequestStep::Done(addr)
    }
}

/// The value of an integer of one byte.
fn short_varint(bytes: &[u8]) -> (v: u64)
    requires
        bytes@.len() == 1,
        varint_len(bytes@[0]) == 1,
    ensures
        v == varint_value(bytes@),
{
    let none: Vec<u8> = Vec::new();
    assert(seq![bytes@[0]] + none@ =~= bytes@);
    varint::varint_join(bytes[0], none.as_slice())
}

/// The start of a stream.
pub fn stream_start() -> (r: RequestState)
    ensures
        r@ == RequestStateView::Kind,
{
    RequestState::Kind
}

impl RequestState {
    /// How many bytes are to be read next.
    pub fn wanted(&self) -> (n: usize)
        ensures
            n == self@.wanted(),
    {
        match self {
            RequestState::Kind => 1,
            RequestState::KindRest { first } => varint::varint_size(*first) - 1,
            RequestState::Len => 1,
            RequestState::LenRest { first } => varint::varint_size(*first) - 1,
            RequestState::Addr { len } => *len,
            RequestState::PadLen { .. } => 1,
            RequestState::PadLenRest { first, .. } => varint::varint_size(*first) - 1,
            RequestState::Pad { left, .. } => if *left < 4096 {
                *left as usize
            } else {
                4096
            },
        }
    }
}

/// Takes the bytes that a state wants.
pub fn read_tcp_request(state: RequestState, bytes: &[u8]) -> (r: Result<RequestStep, RequestError>)
    requires
        bytes@.len() == state@.wanted(),
    ensures
        match (r, request_step(state@, bytes@)) {
            (Ok(step), Ok(view)) => step@ == view,
            (Err(e), Err(why)) => e == why,
            _ => false,
        },
{
    match state {
        RequestState::Kind => {
            if varint::varint_size(bytes[0]) == 1 {
                Ok(kind_step(short_varint(bytes)))
            } else {
                Ok(RequestStep::More(RequestState::KindRest { first: bytes[0] }))
            }
        },
        RequestState::KindRest { first } => Ok(kind_step(varint::varint_join(first, bytes))),
        RequestState::Len => {
            if varint::varint_size(bytes[0]) == 1 {
                len_step(short_varint(bytes))
            } else {
                Ok(RequestStep::More(RequestState::LenRest { first: bytes[0] }))
            }
        },
        RequestState::LenRest { first } => len_step(varint::varint_join(first, bytes)),
        RequestState::Addr { len: _ } => {
            match text::string_from_utf8(vstd::slice::slice_to_vec(bytes)) {
                Some(addr) => Ok(RequestStep::More(RequestState::PadLen { addr })),
                None => Err(RequestError::NotUtf8),
            }
        },
        RequestState::PadLen { addr } => {
            if varint::varint_size(bytes[0]) == 1 {
                Ok(pad_step(addr, short_varint(bytes)))
            } else {
                Ok(RequestStep::More(RequestState::PadLenRest { addr, first: bytes[0] }))
            }
        },
        RequestState::PadLenRest { addr, first } => Ok(
            pad_step(addr, varint::varint_join(first, bytes)),
        ),
        RequestState::Pad { addr, left } => Ok(pad_step(addr, left - bytes.len() as u64)),
    }
}

/// Takes the end of a stream, before the bytes that a state wants: the
/// address, where only padding is missing.
pub fn end_of_stream(state: RequestState) -> (r: Option<String>)
    ensures
        opt_text(r) == request_end(state@),
{
    match state {
        RequestState::Pad { addr, left: _ } => Some(addr),
        _ => None,
    }
}

/// What a stream turns out to be.
pub enum StreamVerdict {
    /// It ended before that could be told.
    Ended,
    /// It is of this type, and not for us.
    Ignored(nat),
    /// It asks for something that is refused.
    Refused(RequestError),
    /// It asks for a connection to this address, and this many bytes were
    /// read of it.
    Target(Seq<char>, nat),
}

impl StreamVerdict {
    /// The same, where `n` bytes were read before.
    pub open spec fn after(self, n: nat) -> StreamVerdict {
        match self {
            StreamVerdict::Target(addr, read) => StreamVerdict::Target(addr, n + read),
            _ => self,
        }
    }
}

/// What a stream turns out to be that is read from a state on.
pub open spec fn stream_run(state: RequestStateView, s: Seq<u8>) -> StreamVerdict
    decreases state.rank(), state.left(),
{
    let n = state.wanted();
    if s.len() < n {
        match request_end(state) {
            Some(addr) => StreamVerdict::Target(addr, s.len()),
            None => StreamVerdict::Ended,
        }
    } else {
        match request_step(state, s.take(n as int)) {
            Err(e) => StreamVerdict::Refused(e),
            Ok(RequestStepView::Ignore(kind)) => StreamVerdict::Ignored(kind),
            Ok(RequestStepView::Done(addr)) => StreamVerdict::Target(addr, n),
            Ok(RequestStepView::More(next)) => stream_run(next, s.skip(n as int)).after(n),
        }
    }
}

/// What a request turns out to be whose frame type was read: the length of
/// the address, the address, the length of the padding, and the padding.
pub open spec fn tcp_request_of(s: Seq<u8>) -> StreamVerdict {
    match varint_of(s) {
        Err(_) => StreamVerdict::Ended,
        Ok((len, n)) => if len == 0 || len > 2048 {
            StreamVerdict::Refused(RequestError::BadAddrLen(len as u64))
        } else if s.len() < n + len {
            StreamVerdict::Ended
        } else if !utf8::valid_utf8(s.subrange(n as int, n + len as int)) {
            StreamVerdict::Refused(RequestError::NotUtf8)
        } else {
            let addr = utf8::decode_utf8(s.subrange(n as int, n + len as int));
            match varint_of(s.skip(n + len as int)) {
                Err(_) => StreamVerdict::Ended,
                Ok((pad, m)) => {
                    let read = n + len + m;
                    if s.len() < read + pad {
                        StreamVerdict::Target(addr, s.len())
                    } else {
                        StreamVerdict::Target(addr, read + pad)
                    }
                },
            }
        },
    }
}

/// What a stream turns out to be: a frame type, and for the one that asks for
/// a TCP connection the request.
pub open spec fn stream_of(s: Seq<u8>) -> StreamVerdict {
    match varint_of(s) {
        Err(_) => StreamVerdict::Ended,
        Ok((kind, n)) => if kind == 0x401 {
            tcp_request_of(s.skip(n as int)).after(n)
        } else {
            StreamVerdict::Ignored(kind)
        },
    }
}

/// An integer in two parts is the integer.
proof fn lemma_varint_parts(s: Seq<u8>)
    ensures
        s.len() > 0 && varint_len(s[0]) == 1 ==> varint_of(s) == Ok::<(nat, nat), VarintError>(
            (varint_value(s.take(1)), 1),
        ),
        s.len() > 0 && s.len() >= varint_len(s[0]) > 1 ==> varint_of(s) == Ok::<
            (nat, nat),
            VarintError,
        >(
            (
                varint_value(seq![s[0]] + s.skip(1).take(varint_len(s[0]) - 1)),
                varint_len(s[0]),
            ),
        ),
{
    if s.len() > 0 && s.len() >= varint_len(s[0]) > 1 {
        assert(seq![s[0]] + s.skip(1).take(varint_len(s[0]) - 1) =~= s.take(
            varint_len(s[0]) as int,
        ));
    }
}

/// Padding is read to its end, or to that of the stream.
proof fn lemma_padding_run(addr: Seq<char>, left: nat, s: Seq<u8>)
    requires
        left > 0,
    ensures
        stream_run(RequestStateView::Pad { addr, left }, s) == StreamVerdict::Target(
            addr,
            if s.len() < left {
                s.len()
            } else {
                left
            },
        ),
    decreases left,
{
    if left > 4096 && s.len() >= 4096 {
        lemma_padding_run(addr, (left - 4096) as nat, s.skip(4096));
    }
}

#[verifier::rlimit(30)]
proof fn lemma_pad_run(addr: Seq<char>, s: Seq<u8>)
    ensures
        stream_run(RequestStateView::PadLen { addr }, s) == match varint_of(s) {
            Err(_) => StreamVerdict::Ended,
            Ok((pad, m)) => if s.len() < m + pad {
                StreamVerdict::Target(addr, s.len())
            } else {
                StreamVerdict::Target(addr, m + pad)
            },
        },
{
    reveal_with_fuel(stream_run, 3);
    lemma_varint_parts(s);
    if s.len() > 0 && s.len() >= varint_len(s[0]) {
        let m = varint_len(s[0]);
        let pad = varint_of(s)->Ok_0.0;
        if m > 1 {
            assert(s.skip(1).skip(m - 1) =~= s.skip(m as int));
        }
        if pad > 0 {
            lemma_padding_run(addr, pad, s.skip(m as int));
        }
    }
}

/// What a request turns out to be from its address on.
spec fn from_addr(len: nat, s: Seq<u8>) -> StreamVerdict {
    if s.len() < len {
        StreamVerdict::Ended
    } else if !utf8::valid_utf8(s.take(len as int)) {
        StreamVerdict::Refused(RequestError::NotUtf8)
    } else {
        stream_run(
            RequestStateView::PadLen { addr: utf8::decode_utf8(s.take(len as int)) },
            s.skip(len as int),
        ).after(len)
    }
}

#[verifier::rlimit(30)]
proof fn lemma_len_run(s: Seq<u8>)
    ensures
        stream_run(RequestStateView::Len, s) == match varint_of(s) {
            Err(_) => StreamVerdict::Ended,
            Ok((len, n)) => if len == 0 || len > 2048 {
                StreamVerdict::Refused(RequestError::BadAddrLen(len as u64))
            } else {
                from_addr(len, s.skip(n as int)).after(n)
            },
        },
{
    lemma_varint_parts(s);
    if s.len() > 0 {
        let n = varint_len(s[0]);
        assert(s.take(1)[0] == s[0]);
        if n > 1 {
            let state = RequestStateView::LenRest { first: s[0] };
            assert(stream_run(RequestStateView::Len, s) == stream_run(state, s.skip(1)).after(1));
            if s.len() >= n {
                assert(s.skip(1).skip(n - 1) =~= s.skip(n as int));
            }
        }
        if s.len() >= n {
            let len = varint_of(s)->Ok_0.0;
            let addr_state = RequestStateView::Addr { len };
            assert(stream_run(addr_state, s.skip(n as int)) == from_addr(len, s.skip(n as int)));
        }
    }
}

/// Reading a request step by step ends with what the request is.
pub proof fn law_steps_read_the_request(s: Seq<u8>)
    ensures
        stream_run(RequestStateView::Len, s) == tcp_request_of(s),
{
    lemma_len_run(s);
    match varint_of(s) {
        Ok((len, n)) => {
            let rest = s.skip(n as int);
            if 0 < len <= 2048 && rest.len() >= len {
                assert(rest.take(len as int) =~= s.subrange(n as int, n + len as int));
                assert(rest.skip(len as int) =~= s.skip(n + len as int));
                lemma_pad_run(utf8::decode_utf8(rest.take(len as int)), rest.skip(len as int));
            }
        },
        Err(_) => {},
    }
}

/// Reading a stream step by step ends with what the stream is.
#[verifier::rlimit(30)]
pub proof fn law_steps_read_the_stream(s: Seq<u8>)
    ensures
        stream_run(RequestStateView::Kind, s) == stream_of(s),
{
    reveal_with_fuel(stream_run, 3);
    lemma_varint_parts(s);
    if s.len() > 0 && s.len() >= varint_len(s[0]) {
        let n = varint_len(s[0]);
        let rest = s.skip(n as int);
        if n > 1 {
            assert(s.skip(1).skip(n - 1) =~= rest);
        }
        law_steps_read_the_request(rest);
    }
}

/// A request as the protocol lays it down, after its frame type.
pub open spec fn tcp_request(addr: Seq<char>, padding: Seq<u8>) -> Seq<u8> {
    varint_bytes(utf8::encode_utf8(addr).len() as u64) + utf8::encode_utf8(addr) + varint_bytes(
        padding.len() as u64,
    ) + padding
}

proof fn lemma_request_reads_back(addr: Seq<char>, padding: Seq<u8>, rest: Seq<u8>)
    requires
        0 < utf8::encode_utf8(addr).len() <= 2048,
        padding.len() < 0x4000_0000_0000_0000,
    ensures
        tcp_request_of(tcp_request(addr, padding) + rest) == StreamVerdict::Target(
            addr,
            tcp_request(addr, padding).len(),
        ),
{
    let a = utf8::encode_utf8(addr);
    let len = varint_bytes(a.len() as u64);
    let pad = varint_bytes(padding.len() as u64);
    let t = tcp_request(addr, padding) + rest;
    utf8::encode_utf8_valid_utf8(addr);
    utf8::encode_utf8_decode_utf8(addr);
    assert(t =~= len + (a + pad + padding + rest));
    varint::law_varint_roundtrip(a.len() as u64, a + pad + padding + rest);
    assert(t.subrange(len.len() as int, len.len() + a.len() as int) =~= a);
    assert(t.skip(len.len() + a.len() as int) =~= pad + (padding + rest));
    varint::law_varint_roundtrip(padding.len() as u64, padding + rest);
}

/// A stream that asks for a connection as the protocol lays it down, with
/// whatever padding, is read as that request, and not a byte of what follows
/// it is read.
#[verifier::rlimit(30)]
pub proof fn law_request_reads_back(addr: Seq<char>, padding: Seq<u8>, rest: Seq<u8>)
    requires
        0 < utf8::encode_utf8(addr).len() <= 2048,
        padding.len() < 0x4000_0000_0000_0000,
    ensures
        ({
            let request = varint_bytes(0x401) + tcp_request(addr, padding);
            stream_of(request + rest) == StreamVerdict::Target(addr, request.len())
        }),
{
    let kind = varint_bytes(0x401);
    let body = tcp_request(addr, padding);
    let s = kind + body + rest;
    assert(s =~= kind + (body + rest));
    varint::law_varint_roundtrip(0x401, body + rest);
    assert(s.skip(kind.len() as int) =~= body + rest);
    lemma_request_reads_back(addr, padding, rest);
}

/// The answer to a client has three headers: whether UDP is offered, the rate
/// to receive at, which is left open, and the padding as it is.
pub proof fn law_answer_headers(padding: Seq<char>, h: Seq<ReplyHeader>, i: int)
    requires
        0 <= i < h.len(),
    ensures
        auth_headers(true, padding) == seq![
            ("Hysteria-UDP"@, "true"@),
            ("Hysteria-CC-RX"@, "0"@),
            ("Hysteria-Padding"@, padding),
        ],
        auth_headers(false, padding) == seq![
            ("Hysteria-UDP"@, "false"@),
            ("Hysteria-CC-RX"@, "0"@),
            ("Hysteria-Padding"@, padding),
        ],
        header_pairs(h).len() == h.len(),
        header_pairs(h)[i] == (h[i].name@, h[i].value@),
{
}

/// The letters and digits of padding, each under a number of its own.
pub proof fn law_padding_characters(i: nat, c: char)
    requires
        i < 62,
    ensures
        padding_char(i) as nat == if i < 26 {
            97 + i
        } else if i < 52 {
            39 + i
        } else {
            (i - 4) as nat
        },
        is_alphanumeric(c) <==> exists|j: nat| j < 62 && #[trigger] padding_char(j) == c,
        all_alphanumeric(seq![c]) <==> is_alphanumeric(c),
{
    assert(seq![c][0] == c);
    if is_alphanumeric(c) {
        let j: nat = if 'a' <= c <= 'z' {
            (c as nat - 97) as nat
        } else if 'A' <= c <= 'Z' {
            (c as nat - 39) as nat
        } else {
            (c as nat + 4) as nat
        };
        assert(padding_char(j) == c);
    }
}

/// The bytes of an answer to a TCP request: a zero where the connection stands
/// and a one where it does not, then message and padding, each behind its
/// length.
pub proof fn law_response_layout(message: Seq<u8>, padding: Seq<u8>)
    ensures
        tcp_response(true, message, padding) == seq![0u8] + varint_bytes(message.len() as u64)
            + message + varint_bytes(padding.len() as u64) + padding,
        tcp_response(false, message, padding) == seq![1u8] + varint_bytes(message.len() as u64)
            + message + varint_bytes(padding.len() as u64) + padding,
{
}

/// A stream of any other type is ignored, and one that ends inside the type is
/// not told.
pub proof fn law_other_streams_are_ignored(s: Seq<u8>)
    ensures
        match varint_of(s) {
            Err(_) => stream_of(s) == StreamVerdict::Ended,
            Ok((kind, _)) => kind != 0x401 ==> stream_of(s) == StreamVerdict::Ignored(kind),
        },
{
}

/// A stream that asks for a TCP connection, part by part: its type, the length
/// of the address, the address, the length of the padding, and what follows.
/// The bytes that are read of it are all of these parts and the padding, as far
/// as it is there.
#[verifier::rlimit(30)]
pub proof fn law_parts_of_a_request(
    kind: Seq<u8>,
    len: Seq<u8>,
    addr: Seq<u8>,
    pad_len: Seq<u8>,
    rest: Seq<u8>,
    pad: nat,
)
    requires
        varint_of(kind + len + addr + pad_len + rest) == Ok::<(nat, nat), VarintError>(
            (0x401, kind.len()),
        ),
        varint_of(len + addr + pad_len + rest) == Ok::<(nat, nat), VarintError>(
            (addr.len(), len.len()),
        ),
        1 <= addr.len() <= 2048,
    ensures
        ({
            let got = stream_of(kind + len + addr + pad_len + rest);
            if !utf8::valid_utf8(addr) {
                got == StreamVerdict::Refused(RequestError::NotUtf8)
            } else {
                &&& varint_of(pad_len + rest) is Err ==> got == StreamVerdict::Ended
                &&& varint_of(pad_len + rest) == Ok::<(nat, nat), VarintError>(
                    (pad, pad_len.len()),
                ) ==> got == StreamVerdict::Target(
                    utf8::decode_utf8(addr),
                    kind.len() + len.len() + addr.len() + pad_len.len() + if pad <= rest.len() {
                        pad
                    } else {
                        rest.len()
                    },
                )
            }
        }),
{
    let s = kind + len + addr + pad_len + rest;
    let t = len + addr + pad_len + rest;
    let n = len.len() as int;
    assert(s.skip(kind.len() as int) =~= t);
    assert(t.subrange(n, n + addr.len()) =~= addr);
    assert(t.skip(n + addr.len()) =~= pad_len + rest);
}

/// What follows the type of a stream that asks for a TCP connection is refused
/// where the address would have no bytes or more than 2048, and the stream has
/// ended where it stops before the end of the address.
pub proof fn law_requests_without_an_address(kind: Seq<u8>, rest: Seq<u8>)
    requires
        varint_of(kind + rest) == Ok::<(nat, nat), VarintError>((0x401, kind.len())),
    ensures
        match varint_of(rest) {
            Err(_) => stream_of(kind + rest) == StreamVerdict::Ended,
            Ok((len, n)) => {
                &&& len == 0 || len > 2048 ==> stream_of(kind + rest) == StreamVerdict::Refused(
                    RequestError::BadAddrLen(len as u64),
                )
                &&& 1 <= len <= 2048 && rest.len() < n + len ==> stream_of(kind + rest)
                    == StreamVerdict::Ended
            },
        },
{
    assert((kind + rest).skip(kind.len() as int) =~= rest);
}

/// How many bytes are wanted: one where an integer starts, and as many more as
/// it says; the whole address; and padding by at most 4096 bytes at a time.
pub proof fn law_what_is_wanted(addr: Seq<char>, first: u8, n: nat)
    ensures
        RequestStateView::Kind.wanted() == 1,
        RequestStateView::Len.wanted() == 1,
        (RequestStateView::PadLen { addr }).wanted() == 1,
        (RequestStateView::Addr { len: n }).wanted() == n,
        n <= 4096 ==> (RequestStateView::Pad { addr, left: n }).wanted() == n,
        n > 4096 ==> (RequestStateView::Pad { addr, left: n }).wanted() == 4096,
        ({
            let more: nat = if first / 64 == 0 {
                0
            } else if first / 64 == 1 {
                1
            } else if first / 64 == 2 {
                3
            } else {
                7
            };
            &&& (RequestStateView::KindRest { first }).wanted() == more
            &&& (RequestStateView::LenRest { first }).wanted() == more
            &&& (RequestStateView::PadLenRest { addr, first }).wanted() == more
        }),
{
}

/// The end of a stream leaves a request only where nothing but padding is
/// missing of it.
pub proof fn law_end_inside_a_request(state: RequestStateView, addr: Seq<char>, left: nat)
    ensures
        request_end(RequestStateView::Pad { addr, left }) == Some(addr),
        !(state is Pad) ==> request_end(state) is None,
{
}

/// What the bytes of an integer lead to: its first byte is either all of it or
/// kept until the others are there.
pub proof fn law_integers_are_read_in_two_parts(addr: Seq<char>, first: u8, more: Seq<u8>)
    requires
        more.len() == (RequestStateView::LenRest { first }).wanted(),
    ensures
        first >= 64 ==> {
            &&& request_step(RequestStateView::Kind, seq![first]) == Ok::<
                RequestStepView,
                RequestError,
            >(RequestStepView::More(RequestStateView::KindRest { first }))
            &&& request_step(RequestStateView::Len, seq![first]) == Ok::<
                RequestStepView,
                RequestError,
            >(RequestStepView::More(RequestStateView::LenRest { first }))
            &&& request_step(RequestStateView::PadLen { addr }, seq![first]) == Ok::<
                RequestStepView,
                RequestError,
            >(RequestStepView::More(RequestStateView::PadLenRest { addr, first }))
        },
        first < 64 ==> {
            &&& request_step(RequestStateView::Kind, seq![first]) == Ok::<
                RequestStepView,
                RequestError,
            >(RequestStepView::Ignore(first as nat))
            &&& request_step(RequestStateView::Len, seq![first]) == if first == 0 {
                Err(RequestError::BadAddrLen(0))
            } else {
                Ok(RequestStepView::More(RequestStateView::Addr { len: first as nat }))
            }
            &&& request_step(RequestStateView::PadLen { addr }, seq![first]) == Ok::<
                RequestStepView,
                RequestError,
            >(
                if first == 0 {
                    RequestStepView::Done(addr)
                } else {
                    RequestStepView::More(RequestStateView::Pad { addr, left: first as nat })
                },
            )
        },
        ({
            let v = varint_of(seq![first] + more)->Ok_0.0;
            &&& request_step(RequestStateView::KindRest { first }, more) == Ok::<
                RequestStepView,
                RequestError,
            >(
                if v == 0x401 {
                    RequestStepView::More(RequestStateView::Len)
                } else {
                    RequestStepView::Ignore(v)
                },
            )
            &&& request_step(RequestStateView::LenRest { first }, more) == if v == 0 || v > 2048 {
                Err(RequestError::BadAddrLen(v as u64))
            } else {
                Ok(RequestStepView::More(RequestStateView::Addr { len: v }))
            }
            &&& request_step(RequestStateView::PadLenRest { addr, first }, more) == Ok::<
                RequestStepView,
                RequestError,
            >(
                if v == 0 {
                    RequestStepView::Done(addr)
                } else {
                    RequestStepView::More(RequestStateView::Pad { addr, left: v })
                },
            )
        }),
{
    let one = seq![first];
    let s = one + more;
    varint::law_varint_is_read(first, Seq::empty());
    assert(one + Seq::<u8>::empty() =~= one);
    assert(one.take(1) =~= one);
    assert(s.take(varint_len(first) as int) =~= s);
    if first < 64 {
        assert(varint_value(one) == first);
    }
}

/// The bytes of an address are its text, or the request is refused; padding is
/// counted down and dropped.
pub proof fn law_address_and_padding_steps(
    addr: Seq<char>,
    len: nat,
    bytes: Seq<u8>,
    left: nat,
)
    requires
        bytes.len() <= left,
    ensures
        request_step(RequestStateView::Addr { len }, bytes) == if utf8::valid_utf8(bytes) {
            Ok(RequestStepView::More(RequestStateView::PadLen { addr: utf8::decode_utf8(bytes) }))
        } else {
            Err(RequestError::NotUtf8)
        },
        request_step(RequestStateView::Pad { addr, left }, bytes) == Ok::<
            RequestStepView,
            RequestError,
        >(
            if left == bytes.len() {
                RequestStepView::Done(addr)
            } else {
                RequestStepView::More(
                    RequestStateView::Pad { addr, left: (left - bytes.len()) as nat },
                )
            },
        ),
{
}

/// The states and steps of reading a stream are seen with what they hold.
pub proof fn law_steps_are_seen(addr: String, first: u8, len: usize, n: u64, state: RequestState)
    ensures
        RequestState::Kind@ == RequestStateView::Kind,
        (RequestState::KindRest { first })@ == (RequestStateView::KindRest { first }),
        RequestState::Len@ == RequestStateView::Len,
        (RequestState::LenRest { first })@ == (RequestStateView::LenRest { first }),
        (RequestState::Addr { len })@ == (RequestStateView::Addr { len: len as nat }),
        (RequestState::PadLen { addr })@ == (RequestStateView::PadLen { addr: addr@ }),
        (RequestState::PadLenRest { addr, first })@ == (RequestStateView::PadLenRest {
            addr: addr@,
            first,
        }),
        (RequestState::Pad { addr, left: n })@ == (RequestStateView::Pad {
            addr: addr@,
            left: n as nat,
        }),
        RequestStep::More(state)@ == RequestStepView::More(state@),
        RequestStep::Ignore(n)@ == RequestStepView::Ignore(n as nat),
        RequestStep::Done(addr)@ == RequestStepView::Done(addr@),
{
}

/// The header, the status and the type of frame that clients know.
pub proof fn law_what_clients_know()
    ensures
        HYSTERIA_AUTH_HEADER@ == "Hysteria-Auth"@,
        STATUS_AUTH_OK == 233,
        FRAME_TYPE_TCP_REQUEST == 0x401,
{
}

/// A client is let in exactly where it showed good credentials. Else it is said
/// why, with all that is known of what broke.
pub proof fn law_refusals(handshake: Handshake, e: String)
    ensures
        refusal_of(handshake) is None <==> handshake == Handshake::Checked(true),
        refusal_of(Handshake::Checked(false)) == Some("wrong credentials"@),
        refusal_of(Handshake::InitFailed(e)) == Some("H3 connection init failed: "@ + e@),
        refusal_of(Handshake::Broken(e)) == Some("handshake error: "@ + e@),
{
}

} // verus!
