//! The request of a VLESS client and the answer to it.

use crate::address;
use crate::address::{ipv4_chars, ipv6_chars};
use crate::buffer;
use crate::crypto;
use crate::crypto::hex_of;
use crate::text;
use crate::text::decimal;
use vstd::prelude::*;
use vstd::utf8;

verus! {

/// The command that asks for a TCP connection.
pub const CMD_TCP: u8 = 1;

/// `s` without its hyphens.
pub open spec fn without_hyphens(s: Seq<char>) -> Seq<char> {
    s.filter(|c: char| c != '-')
}

/// The 16 bytes that a UUID stands for: 32 hexadecimal digits, with hyphens
/// anywhere between.
pub open spec fn uuid_of(s: Seq<char>) -> Option<Seq<u8>> {
    match hex_of(without_hyphens(s)) {
        Some(b) => if b.len() == 16 {
            Some(b)
        } else {
            None
        },
        None => None,
    }
}

/// The 16 bytes that a UUID stands for.
pub fn parse_uuid(s: &str) -> (r: Option<[u8; 16]>)
    ensures
        match r {
            Some(id) => uuid_of(s@) == Some(id@),
            None => uuid_of(s@) is None,
        },
{
    let chars = text::chars_of(s);
    let ghost keep = |c: char| c != '-';
    let mut digits = String::new();
    let mut i: usize = 0;
    proof {
        reveal(Seq::filter);
        assert(chars@.take(0) =~= Seq::empty());
    }
    while i < chars.len()
        invariant
            i <= chars@.len(),
            keep == (|c: char| c != '-'),
            digits@ == chars@.take(i as int).filter(keep),
        decreases chars@.len() - i,
    {
        proof {
            reveal(Seq::filter);
            assert(chars@.take(i + 1).drop_last() =~= chars@.take(i as int));
        }
        if chars[i] != '-' {
            digits.push(chars[i]);
        }
        i += 1;
    }
    assert(chars@.take(i as int) =~= s@);
    match crypto::hex_decode(digits.as_str()) {
        Some(b) => if b.len() == 16 {
            Some(buffer::to_array::<16>(b.as_slice()))
        } else {
            None
        },
        None => None,
    }
}

/// Why a request was refused.
#[derive(Clone, Copy, Debug, PartialEq, Eq, Structural)]
pub enum VlessError {
    /// A version other than 0.
    BadVersion(u8),
    /// The client is not the configured user.
    UnknownUser,
    /// A kind of address that is not known.
    BadAddrType(u8),
    /// The domain name is no UTF-8.
    BadDomain,
}

/// What a client asks for.
#[derive(Debug)]
pub struct VlessRequest {
    pub command: u8,
    pub target: String,
}

/// How far the reading of a request has come: what is to be read next, and
/// what was read before.
#[derive(Clone, Copy, Debug)]
pub enum RequestState {
    /// The version, the user, and the length of what extends the request.
    Head,
    /// That, then the command, the port and the type of the address.
    Command { addons: u8 },
    /// An IPv4 address.
    Ipv4 { command: u8, port: u16 },
    /// The length of a domain name.
    DomainLen { command: u8, port: u16 },
    /// A domain name.
    Domain { command: u8, port: u16, len: u8 },
    /// An IPv6 address.
    Ipv6 { command: u8, port: u16 },
}

/// What follows on the bytes of one state.
#[derive(Debug)]
pub enum RequestStep {
    More(RequestState),
    Done(VlessRequest),
}

/// What follows on the bytes of one state, over mathematical values.
pub enum StepView {
    More(RequestState),
    Done { command: u8, target: Seq<char> },
}

impl View for RequestStep {
    type V = StepView;

    open spec fn view(&self) -> StepView {
        match self {
            RequestStep::More(state) => StepView::More(*state),
            RequestStep::Done(request) => StepView::Done {
                command: request.command,
                target: request.target@,
            },
        }
    }
}

impl RequestState {
    /// How many bytes are to be read next.
    pub open spec fn want(self) -> nat {
        match self {
            RequestState::Head => 18,
            RequestState::Command { addons } => addons as nat + 4,
            RequestState::Ipv4 { .. } => 4,
            RequestState::DomainLen { .. } => 1,
            RequestState::Domain { len, .. } => len as nat,
            RequestState::Ipv6 { .. } => 16,
        }
    }

    /// How many bytes are to be read next.
    pub fn wanted(&self) -> (n: usize)
        ensures
            n == self.want(),
    {
        match self {
            RequestState::Head => 18,
            RequestState::Command { addons } => *addons as usize + 4,
            RequestState::Ipv4 { .. } => 4,
            RequestState::DomainLen { .. } => 1,
            RequestState::Domain { len, .. } => *len as usize,
            RequestState::Ipv6 { .. } => 16,
        }
    }
}

/// A request for this host and port.
pub open spec fn done(command: u8, host: Seq<char>, port: u16) -> StepView {
    StepView::Done { command, target: host + seq![':'] + decimal(port as nat) }
}

/// The state that reads an address of this type.
pub open spec fn address_state(command: u8, port: u16, atyp: u8) -> Result<StepView, VlessError> {
    if atyp == 1 {
        Ok(StepView::More(RequestState::Ipv4 { command, port }))
    } else if atyp == 2 {
        Ok(StepView::More(RequestState::DomainLen { command, port }))
    } else if atyp == 3 {
        Ok(StepView::More(RequestState::Ipv6 { command, port }))
    } else {
        Err(VlessError::BadAddrType(atyp))
    }
}

/// What the bytes that a state wants lead to.
pub open spec fn request_step(state: RequestState, bytes: Seq<u8>, uuid: Seq<u8>) -> Result<
    StepView,
    VlessError,
> {
    match state {
        RequestState::Head => if bytes[0] != 0 {
            Err(VlessError::BadVersion(bytes[0]))
        } else if bytes.subrange(1, 17) != uuid {
            Err(VlessError::UnknownUser)
        } else {
            Ok(StepView::More(RequestState::Command { addons: bytes[17] }))
        },
        RequestState::Command { addons } => {
            let n = addons as int;
            address_state(
                bytes[n],
                (bytes[n + 1] * 256 + bytes[n + 2]) as u16,
                bytes[n + 3],
            )
        },
        RequestState::Ipv4 { command, port } => Ok(done(command, ipv4_chars(bytes), port)),
        RequestState::DomainLen { command, port } => Ok(
            StepView::More(RequestState::Domain { command, port, len: bytes[0] }),
        ),
        RequestState::Domain { command, port, .. } => if utf8::valid_utf8(bytes) {
            Ok(done(command, utf8::decode_utf8(bytes), port))
        } else {
            Err(VlessError::BadDomain)
        },
        RequestState::Ipv6 { command, port } => Ok(
            done(command, seq!['['] + ipv6_chars(bytes) + seq![']'], port),
        ),
    }
}

fn request_for(command: u8, host: String, port: u16) -> (r: RequestStep)
    ensures
        r@ == done(command, host@, port),
{
    let mut target = host;
    target.push(':');
    text::push_decimal(&mut target, port as u64);
    assert(target@ =~= host@ + seq![':'] + decimal(port as nat));
    RequestStep::Done(VlessRequest { command, target })
}

/// Takes the bytes that a state wants.
pub fn decode_request(state: &RequestState, bytes: &[u8], uuid: &[u8; 16]) -> (r: Result<
    RequestStep,
    VlessError,
>)
    requires
        bytes@.len() == state.want(),
    ensures
        match (r, request_step(*state, bytes@, uuid@)) {
            (Ok(step), Ok(view)) => step@ == view,
            (Err(e), Err(why)) => e == why,
            _ => false,
        },
{
    match *state {
        RequestState::Head => {
            if bytes[0] != 0 {
                return Err(VlessError::BadVersion(bytes[0]));
            }
            let user = vstd::slice::slice_subrange(bytes, 1, 17);
            if !text::same_bytes(user, uuid.as_slice()) {
                return Err(VlessError::UnknownUser);
            }
            Ok(RequestStep::More(RequestState::Command { addons: bytes[17] }))
        },
        RequestState::Command { addons } => {
            let n = addons as usize;
            let command = bytes[n];
            let port = bytes[n + 1] as u16 * 256 + bytes[n + 2] as u16;
            let atyp = bytes[n + 3];
            if atyp == 1 {
                Ok(RequestStep::More(RequestState::Ipv4 { command, port }))
            } else if atyp == 2 {
                Ok(RequestStep::More(RequestState::DomainLen { command, port }))
            } else if atyp == 3 {
                Ok(RequestStep::More(RequestState::Ipv6 { command, port }))
            } else {
                Err(VlessError::BadAddrType(atyp))
            }
        },
        RequestState::Ipv4 { command, port } => {
            let host = address::ipv4_text(&buffer::to_array::<4>(bytes));
            Ok(request_for(command, host, port))
        },
        RequestState::DomainLen { command, port } => Ok(
            RequestStep::More(RequestState::Domain { command, port, len: bytes[0] }),
        ),
        RequestState::Domain { command, port, len: _ } => {
            match text::string_from_utf8(vstd::slice::slice_to_vec(bytes)) {
                Some(host) => Ok(request_for(command, host, port)),
                None => Err(VlessError::BadDomain),
            }
        },
        RequestState::Ipv6 { command, port } => {
            let ip = address::ipv6_text(&buffer::to_array::<16>(bytes));
            let mut host = String::new();
            host.push('[');
            host.append(ip.as_str());
            host.push(']');
            assert(host@ =~= seq!['['] + ip@ + seq![']']);
            Ok(request_for(command, host, port))
        },
    }
}

/// The answer to a request that was granted: the version, and nothing that
/// extends it.
pub fn encode_response() -> (r: [u8; 2])
    ensures
        r@ == seq![0u8, 0u8],
{
    let r: [u8; 2] = [0, 0];
    assert(r@ =~= seq![0u8, 0u8]);
    r
}

/// Nobody but the configured user gets past the head of a request.
pub proof fn law_only_the_user_gets_in(bytes: Seq<u8>, uuid: Seq<u8>)
    requires
        bytes.len() == 18,
    ensures
        request_step(RequestState::Head, bytes, uuid) is Ok <==> bytes[0] == 0 && bytes.subrange(
            1,
            17,
        ) == uuid,
{
}

/// The head of a request: a zero, the 16 bytes of the user, and the length of
/// what extends it. Another version is refused first, and then another user.
pub proof fn law_request_head(version: u8, user: Seq<u8>, addons: u8, uuid: Seq<u8>)
    requires
        user.len() == 16,
        uuid.len() == 16,
    ensures
        request_step(RequestState::Head, seq![version] + user + seq![addons], uuid) == if version
            != 0 {
            Err(VlessError::BadVersion(version))
        } else if user != uuid {
            Err(VlessError::UnknownUser)
        } else {
            Ok(StepView::More(RequestState::Command { addons }))
        },
        RequestState::Head.want() == 18,
{
    let bytes = seq![version] + user + seq![addons];
    assert(bytes.subrange(1, 17) =~= user);
}

/// What extends a request is skipped; then come the command, the port, most
/// significant byte first, and the type of the address: 1 is IPv4, 2 a domain
/// name, 3 IPv6, and any other is refused.
pub proof fn law_request_command(
    addons: Seq<u8>,
    command: u8,
    high: u8,
    low: u8,
    atyp: u8,
    uuid: Seq<u8>,
)
    requires
        addons.len() <= 255,
    ensures
        ({
            let state = RequestState::Command { addons: addons.len() as u8 };
            let port = (high * 256 + low) as u16;
            &&& state.want() == addons.len() + 4
            &&& request_step(state, addons + seq![command, high, low, atyp], uuid) == if atyp
                == 1 {
                Ok(StepView::More(RequestState::Ipv4 { command, port }))
            } else if atyp == 2 {
                Ok(StepView::More(RequestState::DomainLen { command, port }))
            } else if atyp == 3 {
                Ok(StepView::More(RequestState::Ipv6 { command, port }))
            } else {
                Err(VlessError::BadAddrType(atyp))
            }
        }),
{
}

/// The target of a request is its host, a colon and its port; an IPv6 address
/// stands in brackets.
pub proof fn law_request_target(
    command: u8,
    port: u16,
    v4: Seq<u8>,
    v6: Seq<u8>,
    name: Seq<u8>,
    len: u8,
    uuid: Seq<u8>,
)
    ensures
        ({
            let number = decimal(port as nat);
            &&& (RequestState::Ipv4 { command, port }).want() == 4
            &&& (RequestState::Ipv6 { command, port }).want() == 16
            &&& (RequestState::DomainLen { command, port }).want() == 1
            &&& (RequestState::Domain { command, port, len }).want() == len
            &&& request_step(RequestState::Ipv4 { command, port }, v4, uuid) == Ok::<
                StepView,
                VlessError,
            >(StepView::Done { command, target: ipv4_chars(v4) + ":"@ + number })
            &&& request_step(RequestState::Ipv6 { command, port }, v6, uuid) == Ok::<
                StepView,
                VlessError,
            >(StepView::Done { command, target: "["@ + ipv6_chars(v6) + "]:"@ + number })
            &&& request_step(RequestState::DomainLen { command, port }, seq![len], uuid) == Ok::<
                StepView,
                VlessError,
            >(StepView::More(RequestState::Domain { command, port, len }))
            &&& request_step(RequestState::Domain { command, port, len }, name, uuid)
                == if utf8::valid_utf8(name) {
                Ok(StepView::Done { command, target: utf8::decode_utf8(name) + ":"@ + number })
            } else {
                Err(VlessError::BadDomain)
            }
        }),
{
    reveal_strlit(":");
    reveal_strlit("[");
    reveal_strlit("]:");
    let number = decimal(port as nat);
    assert(":"@ =~= seq![':']);
    assert("["@ + ipv6_chars(v6) + "]:"@ + number =~= seq!['['] + ipv6_chars(v6) + seq![']'] + seq![
        ':',
    ] + number);
}

/// Hyphens anywhere in a UUID are nothing, and without them it is 32
/// hexadecimal digits.
pub proof fn law_uuids(a: Seq<char>, b: Seq<char>, digits: Seq<char>)
    requires
        forall|i: int| 0 <= i < digits.len() ==> #[trigger] digits[i] != '-',
    ensures
        uuid_of(a + seq!['-'] + b) == uuid_of(a + b),
        uuid_of(digits) == if digits.len() == 32 {
            hex_of(digits)
        } else {
            None
        },
{
    reveal(Seq::filter);
    let keep = |c: char| c != '-';
    let one = seq!['-'];
    assert(one.drop_last() =~= Seq::empty());
    assert(one.drop_last().filter(keep) =~= Seq::empty());
    assert(!keep(one.last()));
    assert(one.filter(keep) =~= Seq::empty());
    Seq::filter_distributes_over_add(a + one, b, keep);
    Seq::filter_distributes_over_add(a, one, keep);
    Seq::filter_distributes_over_add(a, b, keep);
    assert(a.filter(keep) + Seq::empty() =~= a.filter(keep));
    lemma_keep_all(digits);
}

proof fn lemma_keep_all(s: Seq<char>)
    requires
        forall|i: int| 0 <= i < s.len() ==> #[trigger] s[i] != '-',
    ensures
        without_hyphens(s) == s,
    decreases s.len(),
{
    reveal(Seq::filter);
    if s.len() > 0 {
        assert(s[s.len() - 1] != '-');
        assert forall|i: int| 0 <= i < s.drop_last().len() implies #[trigger] s.drop_last()[i]
            != '-' by {
            assert(s[i] != '-');
        }
        lemma_keep_all(s.drop_last());
        assert(s.drop_last().push(s.last()) =~= s);
    }
}

/// The steps of reading a request are seen with what they hold.
pub proof fn law_steps_are_seen(state: RequestState, request: VlessRequest)
    ensures
        RequestStep::More(state)@ == StepView::More(state),
        RequestStep::Done(request)@ == (StepView::Done {
            command: request.command,
            target: request.target@,
        }),
        CMD_TCP == 1,
{
}

} // verus!
