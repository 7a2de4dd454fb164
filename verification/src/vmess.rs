//! VMess with AEAD headers: the keys, the request of a client and the answer
//! to it.

use crate::address;
use crate::address::{ipv4_chars, ipv6_chars};
use crate::buffer;
use crate::buffer::{be_bytes, be_value};
use crate::crypto;
use crate::crypto::{aes128_gcm_opened, aes128_gcm_sealed, hmac_sha256, opt_bytes, sha256};
use crate::text;
use crate::text::decimal;
use vstd::prelude::*;
use vstd::utf8;

verus! {

/// Why a request was refused.
#[derive(Clone, Copy, Debug, PartialEq, Eq, Structural)]
pub enum VmessError {
    /// The client does not know the key, or its clock is off.
    InvalidAuthId,
    /// A sealed part does not open.
    DecryptFailed,
    /// The sealed length is no 16-bit integer.
    BadLenBlock,
    /// A header of this length is not taken.
    BadHeaderLen(u16),
    /// The header ends inside its fixed fields.
    HeaderTooShort,
    /// A version other than 1.
    BadVersion(u8),
    /// A kind of encryption that is not known.
    BadSecurity(u8),
    /// A command other than to connect by TCP.
    NotTcp(u8),
    /// The header ends inside an IPv4 address.
    ShortIpv4,
    /// The header ends before the length of a domain name.
    ShortDomainLen,
    /// The header ends inside a domain name.
    ShortDomain,
    /// The domain name is no UTF-8.
    BadDomain,
    /// The header ends inside an IPv6 address.
    ShortIpv6,
    /// A kind of address that is not known.
    BadAddrType(u8),
}

/// What a client asks for, and the key and nonce of the answer.
#[derive(Debug)]
pub struct VmessRequest {
    pub target: String,
    pub response_body_key: [u8; 16],
    pub response_body_iv: [u8; 16],
}

/// A request, over mathematical values.
pub struct VmessRequestView {
    pub target: Seq<char>,
    pub response_body_key: Seq<u8>,
    pub response_body_iv: Seq<u8>,
}

impl View for VmessRequest {
    type V = VmessRequestView;

    open spec fn view(&self) -> VmessRequestView {
        VmessRequestView {
            target: self.target@,
            response_body_key: self.response_body_key@,
            response_body_iv: self.response_body_iv@,
        }
    }
}

/// A request that was read, or not: the exec result holds what the spec
/// result says.
pub open spec fn same_request(
    r: Result<VmessRequest, VmessError>,
    s: Result<VmessRequestView, VmessError>,
) -> bool {
    match (r, s) {
        (Ok(request), Ok(view)) => request@ == view,
        (Err(e), Err(why)) => e == why,
        _ => false,
    }
}

/// The host that a header names: an address type, and what follows it.
pub open spec fn host_of(atyp: u8, rest: Seq<u8>) -> Result<Seq<char>, VmessError> {
    if atyp == 1 {
        if rest.len() < 4 {
            Err(VmessError::ShortIpv4)
        } else {
            Ok(ipv4_chars(rest.take(4)))
        }
    } else if atyp == 2 {
        if rest.len() < 1 {
            Err(VmessError::ShortDomainLen)
        } else if rest.len() < 1 + rest[0] {
            Err(VmessError::ShortDomain)
        } else if !utf8::valid_utf8(rest.subrange(1, 1 + rest[0])) {
            Err(VmessError::BadDomain)
        } else {
            Ok(utf8::decode_utf8(rest.subrange(1, 1 + rest[0])))
        }
    } else if atyp == 3 {
        if rest.len() < 16 {
            Err(VmessError::ShortIpv6)
        } else {
            Ok(seq!['['] + ipv6_chars(rest.take(16)) + seq![']'])
        }
    } else {
        Err(VmessError::BadAddrType(atyp))
    }
}

/// The request that an opened header holds: the version, the nonce and the
/// key of the answer, options, encryption, command, port and host.
pub open spec fn plain_request(h: Seq<u8>) -> Result<VmessRequestView, VmessError> {
    if h.len() < 41 {
        Err(VmessError::HeaderTooShort)
    } else if h[0] != 1 {
        Err(VmessError::BadVersion(h[0]))
    } else if h[35] % 16 != 5 && h[35] % 16 != 3 && h[35] % 16 != 0 {
        Err(VmessError::BadSecurity((h[35] % 16) as u8))
    } else if h[37] != 1 {
        Err(VmessError::NotTcp(h[37]))
    } else {
        match host_of(h[40], h.skip(41)) {
            Err(e) => Err(e),
            Ok(host) => Ok(
                VmessRequestView {
                    target: host + seq![':'] + decimal(be_value(h.subrange(38, 40))),
                    response_body_key: h.subrange(17, 33),
                    response_body_iv: h.subrange(1, 17),
                },
            ),
        }
    }
}

/// The host that a header names.
fn parse_host(atyp: u8, rest: &[u8]) -> (r: Result<String, VmessError>)
    ensures
        match (r, host_of(atyp, rest@)) {
            (Ok(host), Ok(chars)) => host@ == chars,
            (Err(e), Err(why)) => e == why,
            _ => false,
        },
{
    if atyp == 1 {
        if rest.len() < 4 {
            return Err(VmessError::ShortIpv4);
        }
        let octets = vstd::slice::slice_subrange(rest, 0, 4);
        assert(octets@ =~= rest@.take(4));
        Ok(address::ipv4_text(&buffer::to_array::<4>(octets)))
    } else if atyp == 2 {
        if rest.len() < 1 {
            return Err(VmessError::ShortDomainLen);
        }
        let l = rest[0] as usize;
        if rest.len() < 1 + l {
            return Err(VmessError::ShortDomain);
        }
        let name = vstd::slice::slice_subrange(rest, 1, 1 + l);
        match text::string_from_utf8(vstd::slice::slice_to_vec(name)) {
            Some(host) => Ok(host),
            None => Err(VmessError::BadDomain),
        }
    } else if atyp == 3 {
        if rest.len() < 16 {
            return Err(VmessError::ShortIpv6);
        }
        let octets = vstd::slice::slice_subrange(rest, 0, 16);
        assert(octets@ =~= rest@.take(16));
        let ip = address::ipv6_text(&buffer::to_array::<16>(octets));
        let mut host = String::new();
        host.push('[');
        host.append(ip.as_str());
        host.push(']');
        assert(host@ =~= seq!['['] + ip@ + seq![']']);
        Ok(host)
    } else {
        Err(VmessError::BadAddrType(atyp))
    }
}

/// Reads an opened header.
pub fn parse_vmess_plain_header(header: &[u8]) -> (r: Result<VmessRequest, VmessError>)
    ensures
        same_request(r, plain_request(header@)),
{
    if header.len() < 41 {
        return Err(VmessError::HeaderTooShort);
    }
    if header[0] != 1 {
        return Err(VmessError::BadVersion(header[0]));
    }
    let response_body_iv = buffer::to_array::<16>(vstd::slice::slice_subrange(header, 1, 17));
    let response_body_key = buffer::to_array::<16>(vstd::slice::slice_subrange(header, 17, 33));
    let security = header[35] % 16;
    if security != 5 && security != 3 && security != 0 {
        return Err(VmessError::BadSecurity(security));
    }
    if header[37] != 1 {
        return Err(VmessError::NotTcp(header[37]));
    }
    let port = header[38] as u64 * 256 + header[39] as u64;
    proof {
        let two = header@.subrange(38, 40);
        reveal_with_fuel(be_value, 3);
        assert(two.drop_last().drop_last() =~= Seq::empty());
        assert(be_value(two) == port);
    }
    let rest = vstd::slice::slice_subrange(header, 41, header.len());
    assert(rest@ =~= header@.skip(41));
    let mut target = match parse_host(header[40], rest) {
        Ok(host) => host,
        Err(e) => return Err(e),
    };
    let ghost host = target@;
    target.push(':');
    text::push_decimal(&mut target, port);
    assert(target@ =~= host + seq![':'] + decimal(port as nat));
    Ok(VmessRequest { target, response_body_key, response_body_iv })
}

/// The bytes of `a` and then those of `b`.
fn concat(a: &[u8], b: &[u8]) -> (v: Vec<u8>)
    ensures
        v@ == a@ + b@,
{
    let mut v = vstd::slice::slice_to_vec(a);
    v.extend_from_slice(b);
    assert(v@ =~= a@ + b@);
    v
}

/// The first 16 bytes of a digest or tag.
fn first_16(d: &[u8; 32]) -> (r: [u8; 16])
    ensures
        r@ == d@.take(16),
{
    let front = vstd::slice::slice_subrange(d.as_slice(), 0, 16);
    assert(front@ =~= d@.take(16));
    buffer::to_array::<16>(front)
}

/// The text that is hashed with the identifier of a user.
pub open spec fn cmd_key_salt() -> Seq<u8> {
    utf8::encode_utf8("c48619fe-8f02-49e0-b9e9-edf763e17e21"@)
}

/// The key that proves who a client is.
pub open spec fn cmd_key_of(uuid: Seq<u8>) -> Seq<u8> {
    sha256(uuid + cmd_key_salt()).take(16)
}

/// The key that proves who a client is.
pub fn vmess_cmd_key(uuid: &[u8; 16]) -> (r: [u8; 16])
    ensures
        r@ == cmd_key_of(uuid@),
        r@ == sha256(
            uuid@ + utf8::encode_utf8("c48619fe-8f02-49e0-b9e9-edf763e17e21"@),
        ).take(16),
{
    let data = concat(uuid.as_slice(), "c48619fe-8f02-49e0-b9e9-edf763e17e21".as_bytes());
    first_16(&crypto::sha256_digest(data.as_slice()))
}

/// The stand-in for one block of AES-128: a digest of key and block.
pub open spec fn block_encrypted(key: Seq<u8>, block: Seq<u8>) -> Seq<u8> {
    sha256(key + block).take(16)
}

/// Encrypts one block. No block cipher is at hand here; a digest of key and
/// block takes its place.
pub fn aes128_ecb_encrypt(key: &[u8; 16], block: &[u8; 16]) -> (r: [u8; 16])
    ensures
        r@ == block_encrypted(key@, block@),
        r@ == sha256(key@ + block@).take(16),
{
    let data = concat(key.as_slice(), block.as_slice());
    first_16(&crypto::sha256_digest(data.as_slice()))
}

/// The block that stands for a second of the clock: its number in 8 bytes,
/// two's complement, and 8 zeros.
pub open spec fn time_block(ts: int) -> Seq<u8> {
    be_bytes((ts % 0x1_0000_0000_0000_0000) as nat, 8) + seq![0u8, 0u8, 0u8, 0u8, 0u8, 0u8, 0u8, 0u8]
}

/// What a client with this key sends as its proof in this second.
pub open spec fn auth_id_at(cmd_key: Seq<u8>, ts: int) -> Seq<u8> {
    block_encrypted(cmd_key, time_block(ts))
}

/// Whether a proof was made within two minutes of `now`.
pub open spec fn auth_id_valid(auth_id: Seq<u8>, cmd_key: Seq<u8>, now: int) -> bool {
    exists|ts: int| now - 120 <= ts <= now + 120 && #[trigger] auth_id_at(cmd_key, ts) == auth_id
}

fn block_of(ts: i64) -> (b: [u8; 16])
    ensures
        b@ == time_block(ts as int),
{
    let v0: u64 = ts as u64;
    assert(v0 == (ts as int) % 0x1_0000_0000_0000_0000int) by {
        assert(ts >= 0 ==> (ts as u64) as int == ts as int) by (bit_vector);
        assert(ts < 0 ==> (ts as u64) as int == ts + 0x1_0000_0000_0000_0000) by (bit_vector);
    }
    let mut b = [0u8; 16];
    let mut v = v0;
    let mut i: usize = 8;
    assert(b@.subrange(8, 8) =~= Seq::empty());
    while i > 0
        invariant
            i <= 8,
            b@.len() == 16,
            be_bytes(v0 as nat, 8) == be_bytes(v as nat, i as nat) + b@.subrange(i as int, 8),
            forall|j: int| 8 <= j < 16 ==> b@[j] == 0,
        decreases i,
    {
        let ghost tail = b@.subrange(i as int, 8);
        i -= 1;
        b[i] = (v % 256) as u8;
        proof {
            assert(b@.subrange(i as int, 8) =~= seq![(v % 256) as u8] + tail);
            assert(be_bytes(v as nat, (i + 1) as nat) + tail =~= be_bytes(
                (v / 256) as nat,
                i as nat,
            ) + b@.subrange(i as int, 8));
        }
        v = v / 256;
    }
    assert(b@ =~= time_block(ts as int)) by {
        assert(be_bytes(v as nat, 0) =~= Seq::empty());
        assert(be_bytes(v0 as nat, 8) =~= b@.subrange(0, 8));
    }
    b
}

/// Checks the proof of a client, where the clock shows `now` seconds since
/// 1970.
pub fn validate_auth_id(auth_id: &[u8; 16], cmd_key: &[u8; 16], now: i64) -> (r: Result<
    (),
    VmessError,
>)
    requires
        i64::MIN + 120 <= now <= i64::MAX - 120,
    ensures
        r == if auth_id_valid(auth_id@, cmd_key@, now as int) {
            Ok::<(), VmessError>(())
        } else {
            Err(VmessError::InvalidAuthId)
        },
{
    let mut d: i64 = -120;
    while d <= 120
        invariant
            -120 <= d <= 121,
            i64::MIN + 120 <= now <= i64::MAX - 120,
            forall|ts: int|
                now - 120 <= ts < now + d ==> #[trigger] auth_id_at(cmd_key@, ts) != auth_id@,
        decreases 121 - d,
    {
        let block = block_of(now + d);
        let expected = aes128_ecb_encrypt(cmd_key, &block);
        assert(expected@ == auth_id_at(cmd_key@, now + d));
        if text::same_bytes(expected.as_slice(), auth_id.as_slice()) {
            return Ok(());
        }
        d += 1;
    }
    Err(VmessError::InvalidAuthId)
}

/// A tag over a label and what tells this request from others.
pub open spec fn kdf_tag(uuid: Seq<u8>, salt: Seq<u8>, auth_id: Seq<u8>, nonce: Seq<u8>) -> Seq<u8> {
    hmac_sha256(uuid, salt + auth_id + nonce)
}

fn kdf(uuid: &[u8; 16], salt: &[u8], auth_id: &[u8; 16], nonce: &[u8; 8]) -> (r: [u8; 32])
    ensures
        r@ == kdf_tag(uuid@, salt@, auth_id@, nonce@),
{
    let mut data = concat(salt, auth_id.as_slice());
    data.extend_from_slice(nonce.as_slice());
    assert(data@ =~= salt@ + auth_id@ + nonce@);
    crypto::hmac_sha256_tag(uuid.as_slice(), data.as_slice())
}

/// A key for one part of a request.
pub fn kdf16(uuid: &[u8; 16], salt: &[u8], auth_id: &[u8; 16], nonce: &[u8; 8]) -> (r: [u8; 16])
    ensures
        r@ == kdf_tag(uuid@, salt@, auth_id@, nonce@).take(16),
        r@ == hmac_sha256(uuid@, salt@ + auth_id@ + nonce@).take(16),
{
    first_16(&kdf(uuid, salt, auth_id, nonce))
}

/// A nonce for one part of a request.
pub fn kdf12(uuid: &[u8; 16], salt: &[u8], auth_id: &[u8; 16], nonce: &[u8; 8]) -> (r: [u8; 12])
    ensures
        r@ == kdf_tag(uuid@, salt@, auth_id@, nonce@).take(12),
        r@ == hmac_sha256(uuid@, salt@ + auth_id@ + nonce@).take(12),
{
    let tag = kdf(uuid, salt, auth_id, nonce);
    let front = vstd::slice::slice_subrange(tag.as_slice(), 0, 12);
    assert(front@ =~= tag@.take(12));
    buffer::to_array::<12>(front)
}

/// What a sealed part without associated data opens to.
pub open spec fn opened(ct: Seq<u8>, key: Seq<u8>, nonce: Seq<u8>) -> Option<Seq<u8>> {
    aes128_gcm_opened(key, nonce, ct, Seq::empty())
}

/// Opens a sealed part.
pub fn aead_open(ct: &[u8], key: &[u8; 16], nonce: &[u8; 12]) -> (r: Option<Vec<u8>>)
    ensures
        opt_bytes(r) == opened(ct@, key@, nonce@),
        r is Some ==> ct@.len() == r->0@.len() + 16,
{
    let none: Vec<u8> = Vec::new();
    assert(none@ =~= Seq::empty());
    crypto::aes128_gcm_open(key, nonce, ct, none.as_slice())
}

/// The 16-bit integer that an opened part holds.
pub open spec fn opened_u16(plain: Option<Seq<u8>>) -> Result<u16, VmessError> {
    match plain {
        None => Err(VmessError::DecryptFailed),
        Some(p) => if p.len() != 2 {
            Err(VmessError::BadLenBlock)
        } else {
            Ok((p[0] * 256 + p[1]) as u16)
        },
    }
}

/// Reads an opened part as a 16-bit integer.
pub fn u16_of_opened(plain: Option<Vec<u8>>) -> (r: Result<u16, VmessError>)
    ensures
        r == opened_u16(opt_bytes(plain)),
{
    match plain {
        None => Err(VmessError::DecryptFailed),
        Some(p) => if p.len() != 2 {
            Err(VmessError::BadLenBlock)
        } else {
            Ok(p[0] as u16 * 256 + p[1] as u16)
        },
    }
}

/// Opens a sealed 16-bit integer.
pub fn aead_open_2b(ct: &[u8], key: &[u8; 16], nonce: &[u8; 12]) -> (r: Result<u16, VmessError>)
    ensures
        r == opened_u16(opened(ct@, key@, nonce@)),
        r is Ok ==> ct@.len() == 18,
        r == Err::<u16, VmessError>(VmessError::BadLenBlock) ==> ct@.len() != 18,
{
    u16_of_opened(aead_open(ct, key, nonce))
}

/// The label of the key that the length of the header is sealed under.
pub open spec fn len_key_label() -> Seq<u8> {
    utf8::encode_utf8("AES Auth ID Encryption"@)
}

/// The label of the key that the header is sealed under.
pub open spec fn header_key_label() -> Seq<u8> {
    utf8::encode_utf8("AEAD Resp Header Key"@)
}

/// The label of the nonce that the header is sealed with.
pub open spec fn header_nonce_label() -> Seq<u8> {
    utf8::encode_utf8("AEAD Resp Header Len Key"@)
}

/// Twelve zeros.
pub open spec fn zero_nonce() -> Seq<u8> {
    Seq::new(12, |i: int| 0u8)
}

/// A length that a header may have.
pub open spec fn checked_len(len: Result<u16, VmessError>) -> Result<u16, VmessError> {
    match len {
        Err(e) => Err(e),
        Ok(n) => if 41 <= n <= 2048 {
            Ok(n)
        } else {
            Err(VmessError::BadHeaderLen(n))
        },
    }
}

/// Takes an opened length for that of a header.
pub fn check_header_len(len: Result<u16, VmessError>) -> (r: Result<u16, VmessError>)
    ensures
        r == checked_len(len),
{
    match len {
        Err(e) => Err(e),
        Ok(n) => if 41 <= n && n <= 2048 {
            Ok(n)
        } else {
            Err(VmessError::BadHeaderLen(n))
        },
    }
}

/// The length of the header that a request announces.
pub open spec fn announced_len(
    uuid: Seq<u8>,
    auth_id: Seq<u8>,
    nonce: Seq<u8>,
    enc_len: Seq<u8>,
) -> Result<u16, VmessError> {
    let key = kdf_tag(uuid, len_key_label(), auth_id, nonce).take(16);
    checked_len(opened_u16(opened(enc_len, key, zero_nonce())))
}

/// The request of a header that was opened, or was not.
pub open spec fn opened_request(header: Option<Seq<u8>>) -> Result<VmessRequestView, VmessError> {
    match header {
        None => Err(VmessError::DecryptFailed),
        Some(h) => plain_request(h),
    }
}

/// Reads a header that was opened, or was not.
pub fn request_of_opened(header: Option<Vec<u8>>) -> (r: Result<VmessRequest, VmessError>)
    ensures
        same_request(r, opened_request(opt_bytes(header))),
{
    match header {
        None => Err(VmessError::DecryptFailed),
        Some(h) => parse_vmess_plain_header(h.as_slice()),
    }
}

/// The request that a sealed header holds.
pub open spec fn sealed_request(
    uuid: Seq<u8>,
    auth_id: Seq<u8>,
    nonce: Seq<u8>,
    enc_header: Seq<u8>,
) -> Result<VmessRequestView, VmessError> {
    let key = kdf_tag(uuid, header_key_label(), auth_id, nonce).take(16);
    let header_nonce = kdf_tag(uuid, header_nonce_label(), auth_id, nonce).take(12);
    opened_request(opened(enc_header, key, header_nonce))
}

/// How far the reading of a request has come: what is to be read next, and
/// what was read before.
#[derive(Clone, Copy, Debug)]
pub enum DecodeState {
    AuthId,
    Nonce { auth_id: [u8; 16] },
    Len { auth_id: [u8; 16], nonce: [u8; 8] },
    Header { auth_id: [u8; 16], nonce: [u8; 8], len: u16 },
}

/// What follows on the bytes of one state.
#[derive(Debug)]
pub enum DecodeStep {
    More(DecodeState),
    Done(VmessRequest),
}

/// How far the reading of a request has come, over mathematical values.
pub enum DecodeStateView {
    AuthId,
    Nonce { auth_id: Seq<u8> },
    Len { auth_id: Seq<u8>, nonce: Seq<u8> },
    Header { auth_id: Seq<u8>, nonce: Seq<u8>, len: u16 },
}

/// What follows on the bytes of one state, over mathematical values.
pub enum DecodeStepView {
    More(DecodeStateView),
    Done(VmessRequestView),
}

impl View for DecodeState {
    type V = DecodeStateView;

    open spec fn view(&self) -> DecodeStateView {
        match *self {
            DecodeState::AuthId => DecodeStateView::AuthId,
            DecodeState::Nonce { auth_id } => DecodeStateView::Nonce { auth_id: auth_id@ },
            DecodeState::Len { auth_id, nonce } => DecodeStateView::Len {
                auth_id: auth_id@,
                nonce: nonce@,
            },
            DecodeState::Header { auth_id, nonce, len } => DecodeStateView::Header {
                auth_id: auth_id@,
                nonce: nonce@,
                len,
            },
        }
    }
}

impl View for DecodeStep {
    type V = DecodeStepView;

    open spec fn view(&self) -> DecodeStepView {
        match self {
            DecodeStep::More(state) => DecodeStepView::More(state@),
            DecodeStep::Done(request) => DecodeStepView::Done(request@),
        }
    }
}

impl DecodeStateView {
    /// How many bytes are to be read next.
    pub open spec fn wanted(self) -> nat {
        match self {
            DecodeStateView::AuthId => 16,
            DecodeStateView::Nonce { .. } => 8,
            DecodeStateView::Len { .. } => 18,
            DecodeStateView::Header { len, .. } => len as nat + 16,
        }
    }

    /// How many states may follow at most.
    pub open spec fn rank(self) -> nat {
        match self {
            DecodeStateView::AuthId => 4,
            DecodeStateView::Nonce { .. } => 3,
            DecodeStateView::Len { .. } => 2,
            DecodeStateView::Header { .. } => 1,
        }
    }
}

/// What the bytes that a state wants lead to.
pub open spec fn step(
    state: DecodeStateView,
    bytes: Seq<u8>,
    cmd_key: Seq<u8>,
    uuid: Seq<u8>,
    now: int,
) -> Result<DecodeStepView, VmessError> {
    match state {
        DecodeStateView::AuthId => if auth_id_valid(bytes, cmd_key, now) {
            Ok(DecodeStepView::More(DecodeStateView::Nonce { auth_id: bytes }))
        } else {
            Err(VmessError::InvalidAuthId)
        },
        DecodeStateView::Nonce { auth_id } => Ok(
            DecodeStepView::More(DecodeStateView::Len { auth_id, nonce: bytes }),
        ),
        DecodeStateView::Len { auth_id, nonce } => match announced_len(
            uuid,
            auth_id,
            nonce,
            bytes,
        ) {
            Err(e) => Err(e),
            Ok(len) => Ok(DecodeStepView::More(DecodeStateView::Header { auth_id, nonce, len })),
        },
        DecodeStateView::Header { auth_id, nonce, .. } => match sealed_request(
            uuid,
            auth_id,
            nonce,
            bytes,
        ) {
            Err(e) => Err(e),
            Ok(request) => Ok(DecodeStepView::Done(request)),
        },
    }
}

impl DecodeState {
    /// How many bytes are to be read next.
    pub fn wanted(&self) -> (n: usize)
        ensures
            n == self@.wanted(),
    {
        match self {
            DecodeState::AuthId => 16,
            DecodeState::Nonce { .. } => 8,
            DecodeState::Len { .. } => 18,
            DecodeState::Header { len, .. } => *len as usize + 16,
        }
    }
}

/// Takes the bytes that a state wants, at `now` seconds since 1970.
pub fn decode_step(
    state: &DecodeState,
    bytes: &[u8],
    cmd_key: &[u8; 16],
    uuid: &[u8; 16],
    now: i64,
) -> (r: Result<DecodeStep, VmessError>)
    requires
        bytes@.len() == state@.wanted(),
        i64::MIN + 120 <= now <= i64::MAX - 120,
    ensures
        match (r, step(state@, bytes@, cmd_key@, uuid@, now as int)) {
            (Ok(next), Ok(view)) => next@ == view,
            (Err(e), Err(why)) => e == why,
            _ => false,
        },
        r is Err ==> r->Err_0 != VmessError::BadLenBlock,
{
    match state {
        DecodeState::AuthId => {
            let auth_id = buffer::to_array::<16>(bytes);
            match validate_auth_id(&auth_id, cmd_key, now) {
                Ok(_) => Ok(DecodeStep::More(DecodeState::Nonce { auth_id })),
                Err(e) => Err(e),
            }
        },
        DecodeState::Nonce { auth_id } => Ok(
            DecodeStep::More(
                DecodeState::Len { auth_id: *auth_id, nonce: buffer::to_array::<8>(bytes) },
            ),
        ),
        DecodeState::Len { auth_id, nonce } => {
            let key = kdf16(uuid, "AES Auth ID Encryption".as_bytes(), auth_id, nonce);
            let zeros = [0u8; 12];
            assert(zeros@ =~= zero_nonce());
            match check_header_len(aead_open_2b(bytes, &key, &zeros)) {
                Err(e) => Err(e),
                Ok(len) => Ok(
                    DecodeStep::More(DecodeState::Header { auth_id: *auth_id, nonce: *nonce, len }),
                ),
            }
        },
        DecodeState::Header { auth_id, nonce, .. } => {
            let key = kdf16(uuid, "AEAD Resp Header Key".as_bytes(), auth_id, nonce);
            let header_nonce = kdf12(uuid, "AEAD Resp Header Len Key".as_bytes(), auth_id, nonce);
            match request_of_opened(aead_open(bytes, &key, &header_nonce)) {
                Err(e) => Err(e),
                Ok(request) => Ok(DecodeStep::Done(request)),
            }
        },
    }
}

/// What is read of a stream from a state on: the request and the number of
/// bytes that it took, or why it was refused. `None` where the stream ends
/// before that.
pub open spec fn decode_run(
    state: DecodeStateView,
    s: Seq<u8>,
    cmd_key: Seq<u8>,
    uuid: Seq<u8>,
    now: int,
) -> Option<Result<(VmessRequestView, nat), VmessError>>
    decreases state.rank(),
{
    if s.len() < state.wanted() {
        None
    } else {
        let n = state.wanted();
        match step(state, s.take(n as int), cmd_key, uuid, now) {
            Err(e) => Some(Err(e)),
            Ok(DecodeStepView::Done(request)) => Some(Ok((request, n))),
            Ok(DecodeStepView::More(next)) => match decode_run(
                next,
                s.skip(n as int),
                cmd_key,
                uuid,
                now,
            ) {
                Some(Ok((request, more))) => Some(Ok((request, n + more))),
                other => other,
            },
        }
    }
}

/// The request at the front of a stream: 16 bytes of proof, a nonce of 8
/// bytes, the sealed length of the header, and the sealed header.
pub open spec fn stream_request(s: Seq<u8>, cmd_key: Seq<u8>, uuid: Seq<u8>, now: int) -> Option<
    Result<(VmessRequestView, nat), VmessError>,
> {
    let auth_id = s.take(16);
    let nonce = s.subrange(16, 24);
    if s.len() < 16 {
        None
    } else if !auth_id_valid(auth_id, cmd_key, now) {
        Some(Err(VmessError::InvalidAuthId))
    } else if s.len() < 42 {
        None
    } else {
        match announced_len(uuid, auth_id, nonce, s.subrange(24, 42)) {
            Err(e) => Some(Err(e)),
            Ok(len) => if s.len() < 58 + len {
                None
            } else {
                match sealed_request(uuid, auth_id, nonce, s.subrange(42, 58 + len as int)) {
                    Err(e) => Some(Err(e)),
                    Ok(request) => Some(Ok((request, 58 + len as nat))),
                }
            },
        }
    }
}

/// Reading step by step from the start ends with the request at the front of
/// the stream.
pub proof fn law_steps_read_the_request(s: Seq<u8>, cmd_key: Seq<u8>, uuid: Seq<u8>, now: int)
    ensures
        decode_run(DecodeStateView::AuthId, s, cmd_key, uuid, now) == stream_request(
            s,
            cmd_key,
            uuid,
            now,
        ),
{
    reveal_with_fuel(decode_run, 5);
    if s.len() >= 16 {
        let s1 = s.skip(16);
        if s1.len() >= 8 {
            assert(s1.take(8) =~= s.subrange(16, 24));
            let s2 = s1.skip(8);
            if s2.len() >= 18 {
                assert(s2.take(18) =~= s.subrange(24, 42));
                let s3 = s2.skip(18);
                match announced_len(uuid, s.take(16), s.subrange(16, 24), s.subrange(24, 42)) {
                    Ok(len) => {
                        if s3.len() >= len + 16 {
                            assert(s3.take(len as int + 16) =~= s.subrange(42, 58 + len as int));
                        }
                    },
                    Err(_) => {},
                }
            }
        }
    }
}

/// A proof that a client with the right key made is taken for two minutes
/// before and after.
pub proof fn law_fresh_proof_is_valid(cmd_key: Seq<u8>, made: int, now: int)
    requires
        now - 120 <= made <= now + 120,
    ensures
        auth_id_valid(auth_id_at(cmd_key, made), cmd_key, now),
{
}

/// The key of an answer.
pub open spec fn response_key_of(response_key: Seq<u8>) -> Seq<u8> {
    sha256(response_key).take(16)
}

/// The first 16 bytes of a digest.
pub fn sha256_16(input: &[u8; 16]) -> (r: [u8; 16])
    ensures
        r@ == sha256(input@).take(16),
{
    first_16(&crypto::sha256_digest(input.as_slice()))
}

/// The answer to a request that was granted: four zeros, sealed under what
/// the request gave. The client that opens it finds the four zeros.
pub fn encode_vmess_aead_response(response_key: &[u8; 16], response_iv: &[u8; 16]) -> (r: Vec<u8>)
    ensures
        Some(r@) == aes128_gcm_sealed(
            response_key_of(response_key@),
            response_iv@.take(12),
            seq![0u8, 0u8, 0u8, 0u8],
            Seq::empty(),
        ),
        r@.len() == 20,
        opened(r@, response_key_of(response_key@), response_iv@.take(12)) == Some(
            seq![0u8, 0u8, 0u8, 0u8],
        ),
{
    let resp: [u8; 4] = [0, 0, 0, 0];
    assert(resp@ =~= seq![0u8, 0u8, 0u8, 0u8]);
    let key = sha256_16(response_key);
    let front = vstd::slice::slice_subrange(response_iv.as_slice(), 0, 12);
    assert(front@ =~= response_iv@.take(12));
    let nonce = buffer::to_array::<12>(front);
    let none: Vec<u8> = Vec::new();
    assert(none@ =~= Seq::empty());
    crypto::aes128_gcm_seal(&key, &nonce, resp.as_slice(), none.as_slice()).unwrap()
}

/// What a connection goes through before its request is read.
#[derive(Clone, Copy, Debug, PartialEq, Eq, Structural)]
pub enum VmessRoute {
    /// Nothing.
    Tcp,
    /// A TLS handshake.
    Tls,
    /// A WebSocket upgrade.
    Ws,
    /// A TLS handshake, and a WebSocket upgrade in it.
    WsTls,
}

/// The way of a connection over a transport, where TLS is set up or is not.
pub open spec fn route_of(transport: Seq<char>, tls: bool) -> Option<VmessRoute> {
    if transport == "tcp"@ {
        Some(
            if tls {
                VmessRoute::Tls
            } else {
                VmessRoute::Tcp
            },
        )
    } else if transport == "ws"@ {
        Some(
            if tls {
                VmessRoute::WsTls
            } else {
                VmessRoute::Ws
            },
        )
    } else {
        None
    }
}

/// Chooses the way of a connection by the configured transport and by whether
/// TLS is set up. `None` where the transport is not known.
pub fn route(transport: &str, tls: bool) -> (r: Option<VmessRoute>)
    ensures
        r == route_of(transport@, tls),
        r == if transport@ == "tcp"@ {
            Some(
                if tls {
                    VmessRoute::Tls
                } else {
                    VmessRoute::Tcp
                },
            )
        } else if transport@ == "ws"@ {
            Some(
                if tls {
                    VmessRoute::WsTls
                } else {
                    VmessRoute::Ws
                },
            )
        } else {
            None
        },
{
    if text::same_text(transport, "tcp") {
        if tls {
            Some(VmessRoute::Tls)
        } else {
            Some(VmessRoute::Tcp)
        }
    } else if text::same_text(transport, "ws") {
        if tls {
            Some(VmessRoute::WsTls)
        } else {
            Some(VmessRoute::Ws)
        }
    } else {
        None
    }
}

/// A host that a client may name.
pub enum HostView {
    V4(Seq<u8>),
    Domain(Seq<char>),
    V6(Seq<u8>),
}

impl HostView {
    /// A host that a header can hold.
    pub open spec fn valid(self) -> bool {
        match self {
            HostView::V4(octets) => octets.len() == 4,
            HostView::Domain(name) => utf8::encode_utf8(name).len() <= 255,
            HostView::V6(octets) => octets.len() == 16,
        }
    }

    /// The address type and the address, as a header holds them.
    pub open spec fn bytes(self) -> Seq<u8> {
        match self {
            HostView::V4(octets) => seq![1u8] + octets,
            HostView::Domain(name) => seq![2u8, utf8::encode_utf8(name).len() as u8]
                + utf8::encode_utf8(name),
            HostView::V6(octets) => seq![3u8] + octets,
        }
    }

    /// The text of the host, an IPv6 address in brackets.
    pub open spec fn chars(self) -> Seq<char> {
        match self {
            HostView::V4(octets) => ipv4_chars(octets),
            HostView::Domain(name) => name,
            HostView::V6(octets) => seq!['['] + ipv6_chars(octets) + seq![']'],
        }
    }
}

/// A header that asks for a TCP connection: whatever the bytes are that are
/// not looked at, it is read as a request for the host and the port that it
/// was made with.
pub proof fn law_header_names_its_target(
    iv: Seq<u8>,
    key: Seq<u8>,
    options: Seq<u8>,
    security: u8,
    reserved: u8,
    port: u16,
    host: HostView,
    rest: Seq<u8>,
)
    requires
        iv.len() == 16,
        key.len() == 16,
        options.len() == 2,
        security % 16 == 0 || security % 16 == 3 || security % 16 == 5,
        host.valid(),
    ensures
        plain_request(
            seq![1u8] + iv + key + options + seq![security, reserved, 1u8] + be_bytes(
                port as nat,
                2,
            ) + host.bytes() + rest,
        ) == Ok::<VmessRequestView, VmessError>(
            VmessRequestView {
                target: host.chars() + seq![':'] + decimal(port as nat),
                response_body_key: key,
                response_body_iv: iv,
            },
        ),
{
    reveal_with_fuel(buffer::pow256, 3);
    buffer::lemma_be_roundtrip(port as nat, 2);
    let h = seq![1u8] + iv + key + options + seq![security, reserved, 1u8] + be_bytes(
        port as nat,
        2,
    ) + host.bytes() + rest;
    assert(h.subrange(1, 17) =~= iv);
    assert(h.subrange(17, 33) =~= key);
    assert(h.subrange(38, 40) =~= be_bytes(port as nat, 2));
    assert(h.skip(41) =~= host.bytes().skip(1) + rest);
    let tail = h.skip(41);
    match host {
        HostView::V4(octets) => {
            assert(tail.take(4) =~= octets);
        },
        HostView::Domain(name) => {
            utf8::encode_utf8_valid_utf8(name);
            utf8::encode_utf8_decode_utf8(name);
            assert(tail.subrange(1, 1 + tail[0]) =~= utf8::encode_utf8(name));
        },
        HostView::V6(octets) => {
            assert(tail.take(16) =~= octets);
        },
    }
}

/// The key of a user is the front half of a digest: of the 16 bytes of the
/// UUID in their order, and then of a text that is the same for all.
pub proof fn law_command_key(uuid: Seq<u8>)
    ensures
        cmd_key_of(uuid) == sha256(
            uuid + utf8::encode_utf8("c48619fe-8f02-49e0-b9e9-edf763e17e21"@),
        ).take(16),
{
}

/// What takes the place of a block cipher: the front half of a digest of the
/// key and then the block.
pub proof fn law_encrypted_block(key: Seq<u8>, block: Seq<u8>)
    ensures
        block_encrypted(key, block) == sha256(key + block).take(16),
{
}

/// The proof of a client in a second of the clock: the front half of a digest
/// of its key, the second in 8 bytes, and 8 zeros. Seconds before 1970 count
/// down from 2^64.
pub proof fn law_proof_of_a_second(cmd_key: Seq<u8>, ts: int)
    requires
        -0x8000_0000_0000_0000 <= ts < 0x8000_0000_0000_0000,
    ensures
        ({
            let n = if ts >= 0 {
                ts as nat
            } else {
                (ts + 0x1_0000_0000_0000_0000) as nat
            };
            auth_id_at(cmd_key, ts) == sha256(
                cmd_key + (be_bytes(n, 8) + Seq::new(8, |i: int| 0u8)),
            ).take(16)
        }),
{
    assert(Seq::new(8, |i: int| 0u8) =~= seq![0u8, 0u8, 0u8, 0u8, 0u8, 0u8, 0u8, 0u8]);
    if ts < 0 {
        assert((ts + 0x1_0000_0000_0000_0000) % 0x1_0000_0000_0000_0000 == ts
            % 0x1_0000_0000_0000_0000);
    }
}

/// A proof is taken exactly where it is that of a second at most 120 away.
pub proof fn law_proofs_hold_two_minutes(auth_id: Seq<u8>, cmd_key: Seq<u8>, now: int)
    ensures
        auth_id_valid(auth_id, cmd_key, now) <==> exists|away: int|
            -120 <= away <= 120 && auth_id == #[trigger] auth_id_at(cmd_key, now + away),
{
    if auth_id_valid(auth_id, cmd_key, now) {
        let ts = choose|ts: int|
            now - 120 <= ts <= now + 120 && #[trigger] auth_id_at(cmd_key, ts) == auth_id;
        assert(auth_id_at(cmd_key, now + (ts - now)) == auth_id);
    }
}

/// The keys and the nonce of a request are the fronts of codes under the UUID:
/// of a label of their own, the proof and the nonce of the request.
pub proof fn law_keys_of_a_request(
    uuid: Seq<u8>,
    salt: Seq<u8>,
    auth_id: Seq<u8>,
    nonce: Seq<u8>,
    ct: Seq<u8>,
    key: Seq<u8>,
)
    ensures
        kdf_tag(uuid, salt, auth_id, nonce) == hmac_sha256(uuid, salt + auth_id + nonce),
        opened(ct, key, nonce) == aes128_gcm_opened(key, nonce, ct, Seq::empty()),
{
}

/// A sealed length is two bytes, most significant first, and a header has from
/// 41 to 2048 bytes.
pub proof fn law_lengths_of_headers(high: u8, low: u8, other: Seq<u8>, n: u16, e: VmessError)
    requires
        other.len() != 2,
    ensures
        opened_u16(None) == Err::<u16, VmessError>(VmessError::DecryptFailed),
        opened_u16(Some(seq![high, low])) == Ok::<u16, VmessError>((high * 256 + low) as u16),
        opened_u16(Some(other)) == Err::<u16, VmessError>(VmessError::BadLenBlock),
        checked_len(Err(e)) == Err::<u16, VmessError>(e),
        41 <= n <= 2048 ==> checked_len(Ok(n)) == Ok::<u16, VmessError>(n),
        n < 41 || n > 2048 ==> checked_len(Ok(n)) == Err::<u16, VmessError>(
            VmessError::BadHeaderLen(n),
        ),
{
}

/// The length of the header that a request announces is sealed under the key of
/// the label `AES Auth ID Encryption`, with a nonce of zeros.
pub proof fn law_announced_length(
    uuid: Seq<u8>,
    auth_id: Seq<u8>,
    nonce: Seq<u8>,
    enc_len: Seq<u8>,
)
    ensures
        ({
            let label = utf8::encode_utf8("AES Auth ID Encryption"@);
            let key = hmac_sha256(uuid, label + auth_id + nonce).take(16);
            let zeros = seq![0u8, 0u8, 0u8, 0u8, 0u8, 0u8, 0u8, 0u8, 0u8, 0u8, 0u8, 0u8];
            let got = announced_len(uuid, auth_id, nonce, enc_len);
            match aes128_gcm_opened(key, zeros, enc_len, Seq::empty()) {
                None => got == Err::<u16, VmessError>(VmessError::DecryptFailed),
                Some(plain) => {
                    let n = (plain[0] * 256 + plain[1]) as u16;
                    if plain.len() != 2 {
                        got == Err::<u16, VmessError>(VmessError::BadLenBlock)
                    } else if n < 41 || n > 2048 {
                        got == Err::<u16, VmessError>(VmessError::BadHeaderLen(n))
                    } else {
                        got == Ok::<u16, VmessError>(n)
                    }
                },
            }
        }),
{
    assert(zero_nonce() =~= seq![
        0u8,
        0u8,
        0u8,
        0u8,
        0u8,
        0u8,
        0u8,
        0u8,
        0u8,
        0u8,
        0u8,
        0u8,
    ]);
}

/// The header of a request is sealed under the key of the label `AEAD Resp
/// Header Key`, with the nonce of the label `AEAD Resp Header Len Key`.
pub proof fn law_sealed_header(
    uuid: Seq<u8>,
    auth_id: Seq<u8>,
    nonce: Seq<u8>,
    enc_header: Seq<u8>,
)
    ensures
        ({
            let key_label = utf8::encode_utf8("AEAD Resp Header Key"@);
            let nonce_label = utf8::encode_utf8("AEAD Resp Header Len Key"@);
            let key = hmac_sha256(uuid, key_label + auth_id + nonce).take(16);
            let header_nonce = hmac_sha256(uuid, nonce_label + auth_id + nonce).take(12);
            let got = sealed_request(uuid, auth_id, nonce, enc_header);
            match aes128_gcm_opened(key, header_nonce, enc_header, Seq::empty()) {
                None => got == Err::<VmessRequestView, VmessError>(VmessError::DecryptFailed),
                Some(header) => got == plain_request(header),
            }
        }),
{
}

/// A header that was opened is read, and one that was not is refused.
pub proof fn law_opened_headers(header: Seq<u8>)
    ensures
        opened_request(None) == Err::<VmessRequestView, VmessError>(VmessError::DecryptFailed),
        opened_request(Some(header)) == plain_request(header),
{
}

/// Why a header is refused, in this order: it has fewer than 41 bytes, another
/// version than 1, an encryption that is not known, a command other than to
/// connect by TCP, or no host.
pub proof fn law_refused_headers(h: Seq<u8>)
    ensures
        h.len() < 41 ==> plain_request(h) == Err::<VmessRequestView, VmessError>(
            VmessError::HeaderTooShort,
        ),
        h.len() >= 41 ==> {
            let security = (h[35] % 16) as u8;
            let known = security == 0 || security == 3 || security == 5;
            &&& h[0] != 1 ==> plain_request(h) == Err::<VmessRequestView, VmessError>(
                VmessError::BadVersion(h[0]),
            )
            &&& h[0] == 1 && !known ==> plain_request(h) == Err::<VmessRequestView, VmessError>(
                VmessError::BadSecurity(security),
            )
            &&& h[0] == 1 && known && h[37] != 1 ==> plain_request(h) == Err::<
                VmessRequestView,
                VmessError,
            >(VmessError::NotTcp(h[37]))
            &&& h[0] == 1 && known && h[37] == 1 && host_of(h[40], h.skip(41)) is Err
                ==> plain_request(h) == Err::<VmessRequestView, VmessError>(
                host_of(h[40], h.skip(41))->Err_0,
            )
        },
{
}

/// The hosts of headers by their type: an IPv4 address, a domain name behind its
/// length, an IPv6 address. What stands behind them is nothing, and where they
/// are cut off they are refused.
pub proof fn law_hosts_of_headers(
    v4: Seq<u8>,
    name: Seq<u8>,
    v6: Seq<u8>,
    len: u8,
    rest: Seq<u8>,
    atyp: u8,
)
    requires
        v4.len() <= 4,
        name.len() <= len,
        v6.len() <= 16,
    ensures
        v4.len() < 4 ==> host_of(1, v4) == Err::<Seq<char>, VmessError>(VmessError::ShortIpv4),
        v4.len() == 4 ==> host_of(1, v4 + rest) == Ok::<Seq<char>, VmessError>(ipv4_chars(v4)),
        host_of(2, Seq::empty()) == Err::<Seq<char>, VmessError>(VmessError::ShortDomainLen),
        name.len() < len ==> host_of(2, seq![len] + name) == Err::<Seq<char>, VmessError>(
            VmessError::ShortDomain,
        ),
        name.len() == len ==> host_of(2, seq![len] + name + rest) == if utf8::valid_utf8(name) {
            Ok(utf8::decode_utf8(name))
        } else {
            Err(VmessError::BadDomain)
        },
        v6.len() < 16 ==> host_of(3, v6) == Err::<Seq<char>, VmessError>(VmessError::ShortIpv6),
        v6.len() == 16 ==> host_of(3, v6 + rest) == Ok::<Seq<char>, VmessError>(
            seq!['['] + ipv6_chars(v6) + seq![']'],
        ),
        atyp == 0 || atyp > 3 ==> host_of(atyp, rest) == Err::<Seq<char>, VmessError>(
            VmessError::BadAddrType(atyp),
        ),
{
    if v4.len() == 4 {
        assert((v4 + rest).take(4) =~= v4);
    }
    if v6.len() == 16 {
        assert((v6 + rest).take(16) =~= v6);
    }
    let named = seq![len] + name + rest;
    assert(named[0] == len);
    assert((seq![len] + name)[0] == len);
    if name.len() == len {
        assert(named.subrange(1, 1 + len) =~= name);
    }
}

/// A request part by part: 16 bytes of proof, a nonce of 8 bytes, the length in
/// 18 bytes, and the header, which is sealed to 16 bytes more than its length.
/// All of these are read, and nothing behind them.
pub proof fn law_request_layout(
    auth_id: Seq<u8>,
    nonce: Seq<u8>,
    enc_len: Seq<u8>,
    enc_header: Seq<u8>,
    rest: Seq<u8>,
    cmd_key: Seq<u8>,
    uuid: Seq<u8>,
    now: int,
)
    requires
        auth_id.len() == 16,
        nonce.len() == 8,
        enc_len.len() == 18,
    ensures
        ({
            let got = stream_request(
                auth_id + nonce + enc_len + enc_header + rest,
                cmd_key,
                uuid,
                now,
            );
            if !auth_id_valid(auth_id, cmd_key, now) {
                got == Some(Err::<(VmessRequestView, nat), VmessError>(VmessError::InvalidAuthId))
            } else {
                match announced_len(uuid, auth_id, nonce, enc_len) {
                    Err(e) => got == Some(Err::<(VmessRequestView, nat), VmessError>(e)),
                    Ok(len) => {
                        &&& enc_header.len() + rest.len() < len + 16 ==> got is None
                        &&& enc_header.len() == len + 16 ==> match sealed_request(
                            uuid,
                            auth_id,
                            nonce,
                            enc_header,
                        ) {
                            Err(e) => got == Some(Err::<(VmessRequestView, nat), VmessError>(e)),
                            Ok(request) => got == Some(
                                Ok::<(VmessRequestView, nat), VmessError>(
                                    (request, 42 + enc_header.len()),
                                ),
                            ),
                        }
                    },
                }
            }
        }),
{
    let s = auth_id + nonce + enc_len + enc_header + rest;
    assert(s.take(16) =~= auth_id);
    assert(s.subrange(16, 24) =~= nonce);
    assert(s.subrange(24, 42) =~= enc_len);
    match announced_len(uuid, auth_id, nonce, enc_len) {
        Ok(len) => {
            if enc_header.len() == len + 16 {
                assert(s.subrange(42, 58 + len as int) =~= enc_header);
            }
        },
        Err(_) => {},
    }
}

/// A stream that ends before the length of the header is there is waited for,
/// unless its proof is there and is not taken.
pub proof fn law_requests_are_waited_for(s: Seq<u8>, cmd_key: Seq<u8>, uuid: Seq<u8>, now: int)
    requires
        s.len() < 42,
    ensures
        stream_request(s, cmd_key, uuid, now) == if s.len() >= 16 && !auth_id_valid(
            s.take(16),
            cmd_key,
            now,
        ) {
            Some(Err::<(VmessRequestView, nat), VmessError>(VmessError::InvalidAuthId))
        } else {
            None
        },
{
}

/// How many bytes each part of a request has.
pub proof fn law_what_is_wanted(auth_id: Seq<u8>, nonce: Seq<u8>, len: u16)
    ensures
        DecodeStateView::AuthId.wanted() == 16,
        (DecodeStateView::Nonce { auth_id }).wanted() == 8,
        (DecodeStateView::Len { auth_id, nonce }).wanted() == 18,
        (DecodeStateView::Header { auth_id, nonce, len }).wanted() == len + 16,
{
}

/// What the bytes of each part lead to. What was read before is kept.
pub proof fn law_parts_of_a_request(
    auth_id: Seq<u8>,
    nonce: Seq<u8>,
    len: u16,
    bytes: Seq<u8>,
    cmd_key: Seq<u8>,
    uuid: Seq<u8>,
    now: int,
)
    ensures
        step(DecodeStateView::AuthId, bytes, cmd_key, uuid, now) == if auth_id_valid(
            bytes,
            cmd_key,
            now,
        ) {
            Ok(DecodeStepView::More(DecodeStateView::Nonce { auth_id: bytes }))
        } else {
            Err(VmessError::InvalidAuthId)
        },
        step(DecodeStateView::Nonce { auth_id }, bytes, cmd_key, uuid, now) == Ok::<
            DecodeStepView,
            VmessError,
        >(DecodeStepView::More(DecodeStateView::Len { auth_id, nonce: bytes })),
        match announced_len(uuid, auth_id, nonce, bytes) {
            Ok(n) => step(DecodeStateView::Len { auth_id, nonce }, bytes, cmd_key, uuid, now)
                == Ok::<DecodeStepView, VmessError>(
                DecodeStepView::More(DecodeStateView::Header { auth_id, nonce, len: n }),
            ),
            Err(e) => step(DecodeStateView::Len { auth_id, nonce }, bytes, cmd_key, uuid, now)
                == Err::<DecodeStepView, VmessError>(e),
        },
        match sealed_request(uuid, auth_id, nonce, bytes) {
            Ok(request) => step(
                DecodeStateView::Header { auth_id, nonce, len },
                bytes,
                cmd_key,
                uuid,
                now,
            ) == Ok::<DecodeStepView, VmessError>(DecodeStepView::Done(request)),
            Err(e) => step(
                DecodeStateView::Header { auth_id, nonce, len },
                bytes,
                cmd_key,
                uuid,
                now,
            ) == Err::<DecodeStepView, VmessError>(e),
        },
{
}

/// The key of an answer is the front half of a digest of what the request gave.
pub proof fn law_key_of_an_answer(response_key: Seq<u8>)
    ensures
        response_key_of(response_key) == sha256(response_key).take(16),
{
}

/// Requests and the steps of reading them are seen with what they hold.
pub proof fn law_requests_are_seen(
    r: VmessRequest,
    state: DecodeState,
    auth_id: [u8; 16],
    nonce: [u8; 8],
    len: u16,
    view: VmessRequestView,
    e: VmessError,
    why: VmessError,
)
    ensures
        r@ == (VmessRequestView {
            target: r.target@,
            response_body_key: r.response_body_key@,
            response_body_iv: r.response_body_iv@,
        }),
        same_request(Ok(r), Ok(view)) <==> r@ == view,
        same_request(Err(e), Err(why)) <==> e == why,
        !same_request(Ok(r), Err(why)),
        !same_request(Err(e), Ok(view)),
        DecodeState::AuthId@ == DecodeStateView::AuthId,
        (DecodeState::Nonce { auth_id })@ == (DecodeStateView::Nonce { auth_id: auth_id@ }),
        (DecodeState::Len { auth_id, nonce })@ == (DecodeStateView::Len {
            auth_id: auth_id@,
            nonce: nonce@,
        }),
        (DecodeState::Header { auth_id, nonce, len })@ == (DecodeStateView::Header {
            auth_id: auth_id@,
            nonce: nonce@,
            len,
        }),
        DecodeStep::More(state)@ == DecodeStepView::More(state@),
        DecodeStep::Done(r)@ == DecodeStepView::Done(r@),
{
}

/// The ways of connections: over TCP and over WebSocket, each of them inside TLS
/// where that is set up, and none over any other transport.
pub proof fn law_ways_of_connections(transport: Seq<char>, tls: bool)
    ensures
        route_of("tcp"@, false) == Some(VmessRoute::Tcp),
        route_of("tcp"@, true) == Some(VmessRoute::Tls),
        route_of("ws"@, false) == Some(VmessRoute::Ws),
        route_of("ws"@, true) == Some(VmessRoute::WsTls),
        route_of(transport, tls) is Some <==> transport == "tcp"@ || transport == "ws"@,
{
    reveal_strlit("tcp");
    reveal_strlit("ws");
    assert("tcp"@.len() == 3 && "ws"@.len() == 2);
}

} // verus!
