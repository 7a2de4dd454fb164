//! Telling Reality clients from other visitors by their TLS ClientHello.
//!
//! A Reality client hides a proof in its hello. From the X25519 key that it
//! offers and the private key of the server comes a secret; from the secret
//! and the random field a key; and under that key the session identifier is a
//! sealed message that names the client's short identifier.

use crate::config::RealityConfig;
use crate::crypto;
use crate::crypto::{aes256_gcm_opened, chacha20_poly1305_opened, hex_of, hkdf_sha256, opt_bytes, x25519};
use crate::text;
use vstd::prelude::*;

verus! {

/// Where the random field of a ClientHello record starts.
pub const RANDOM_OFFSET: usize = 11;

/// How long the random field is.
pub const RANDOM_LEN: usize = 32;

/// Where the length of the session identifier stands.
pub const SID_LEN_OFFSET: usize = 43;

/// Where the session identifier starts.
pub const SID_OFFSET: usize = 44;

/// Why no X25519 key was found in a hello.
#[derive(Clone, Copy, Debug, PartialEq, Eq, Structural)]
pub enum KeyShareError {
    /// The record ends before the cipher suites.
    NoCipherSuites,
    /// The record ends before the compression methods.
    NoCompressionMethods,
    /// The record ends before the length of the extensions.
    NoExtensions,
    /// The extensions reach past the end of the record.
    ExtensionsTooLong,
    /// One extension reaches past the end of the extensions.
    ExtensionTooLong,
    /// No extension offers keys.
    NoKeyShare,
    /// The extension that offers keys has no room for its length.
    TooShort,
    /// One key reaches past the end of its extension.
    EntryTooLong,
    /// None of the keys is for X25519.
    NoX25519,
}

/// The big-endian 16-bit integer at `i`.
pub open spec fn be16(s: Seq<u8>, i: int) -> nat {
    s[i] as nat * 256 + s[i + 1] as nat
}

fn be16_at(s: &[u8], i: usize) -> (v: usize)
    requires
        i + 1 < s@.len(),
    ensures
        v == be16(s@, i as int),
        v <= 0xffff,
{
    s[i] as usize * 256 + s[i + 1] as usize
}

/// A cipher suite with AES-GCM.
pub open spec fn is_aes_suite(suite: nat) -> bool {
    ||| suite == 0x1301
    ||| suite == 0x1302
    ||| suite == 0x009c
    ||| suite == 0x009d
    ||| suite == 0xc02b
    ||| suite == 0xc02c
    ||| suite == 0xc02f
    ||| suite == 0xc030
}

/// A cipher suite with ChaCha20-Poly1305.
pub open spec fn is_chacha_suite(suite: nat) -> bool {
    suite == 0x1303 || suite == 0xcca8 || suite == 0xcca9
}

/// The cipher suites of a hello whose session identifier has 32 bytes; none
/// where they are cut off.
pub open spec fn cipher_suites(record: Seq<u8>) -> Seq<nat> {
    if record.len() < 78 || 78 + be16(record, 76) > record.len() {
        Seq::empty()
    } else {
        Seq::new(be16(record, 76) / 2, |i: int| be16(record, 78 + 2 * i))
    }
}

/// Whether a client wants AES-GCM: unless a suite with ChaCha20-Poly1305
/// comes before every suite with AES-GCM.
pub open spec fn prefers_aes(suites: Seq<nat>) -> bool {
    !exists|i: int|
        0 <= i < suites.len() && is_chacha_suite(#[trigger] suites[i]) && forall|j: int|
            0 <= j < i ==> !is_aes_suite(#[trigger] suites[j])
}

/// Whether the client that sent this hello wants AES-GCM.
pub fn cipher_suite_prefers_aes(record: &[u8]) -> (r: bool)
    ensures
        r == prefers_aes(cipher_suites(record@)),
{
    let pos: usize = SID_OFFSET + 32;
    if record.len() < pos + 2 {
        return true;
    }
    let cs_len = be16_at(record, pos);
    let cs_start = pos + 2;
    if record.len() - cs_start < cs_len {
        return true;
    }
    let ghost suites = cipher_suites(record@);
    let count = cs_len / 2;
    let mut k: usize = 0;
    while k < count
        invariant
            k <= count,
            cs_start == 78,
            78 + 2 * count <= record@.len(),
            suites == cipher_suites(record@),
            suites.len() == count,
            suites =~= Seq::new(count as nat, |i: int| be16(record@, 78 + 2 * i)),
            forall|j: int|
                0 <= j < k ==> !is_aes_suite(#[trigger] suites[j]) && !is_chacha_suite(suites[j]),
        decreases count - k,
    {
        let suite = be16_at(record, cs_start + 2 * k);
        assert(suite == suites[k as int]);
        if suite == 0x1301 || suite == 0x1302 || suite == 0x009c || suite == 0x009d || suite
            == 0xc02b || suite == 0xc02c || suite == 0xc02f || suite == 0xc030 {
            assert(is_aes_suite(suites[k as int]));
            return true;
        }
        if suite == 0x1303 || suite == 0xcca8 || suite == 0xcca9 {
            assert(is_chacha_suite(suites[k as int]));
            return false;
        }
        k += 1;
    }
    true
}

/// The first X25519 key in a list of keys: each has its group and its length
/// in front, two bytes each.
pub open spec fn x25519_entry(e: Seq<u8>) -> Result<Seq<u8>, KeyShareError>
    decreases e.len(),
{
    if e.len() < 4 {
        Err(KeyShareError::NoX25519)
    } else if 4 + be16(e, 2) > e.len() {
        Err(KeyShareError::EntryTooLong)
    } else if be16(e, 0) == 0x001d && be16(e, 2) == 32 {
        Ok(e.subrange(4, 36))
    } else {
        x25519_entry(e.skip(4 + be16(e, 2) as int))
    }
}

/// The X25519 key that a key-share extension offers: the length of the list
/// of keys, then the list, cut off where the extension ends.
pub open spec fn x25519_share(data: Seq<u8>) -> Result<Seq<u8>, KeyShareError> {
    if data.len() < 2 {
        Err(KeyShareError::TooShort)
    } else if 2 + be16(data, 0) < data.len() {
        x25519_entry(data.subrange(2, 2 + be16(data, 0) as int))
    } else {
        x25519_entry(data.skip(2))
    }
}

/// The X25519 key in a list of extensions: each has its type and its length
/// in front, two bytes each, and the first of the key-share type counts.
pub open spec fn extension_share(e: Seq<u8>) -> Result<Seq<u8>, KeyShareError>
    decreases e.len(),
{
    if e.len() < 4 {
        Err(KeyShareError::NoKeyShare)
    } else if 4 + be16(e, 2) > e.len() {
        Err(KeyShareError::ExtensionTooLong)
    } else if be16(e, 0) == 0x0033 {
        x25519_share(e.subrange(4, 4 + be16(e, 2) as int))
    } else {
        extension_share(e.skip(4 + be16(e, 2) as int))
    }
}

/// The X25519 key that a hello offers whose session identifier has 32 bytes.
/// After the identifier come the cipher suites, the compression methods and
/// the extensions, each with its length in front.
pub open spec fn hello_share(record: Seq<u8>) -> Result<Seq<u8>, KeyShareError> {
    if record.len() < 78 {
        Err(KeyShareError::NoCipherSuites)
    } else {
        let methods = 78 + be16(record, 76) as int;
        if record.len() < methods + 1 {
            Err(KeyShareError::NoCompressionMethods)
        } else {
            let extensions = methods + 1 + record[methods];
            if record.len() < extensions + 2 {
                Err(KeyShareError::NoExtensions)
            } else {
                let end = extensions + 2 + be16(record, extensions) as int;
                if record.len() < end {
                    Err(KeyShareError::ExtensionsTooLong)
                } else {
                    extension_share(record.subrange(extensions + 2, end))
                }
            }
        }
    }
}

/// A key that was looked for: the exec result holds what the spec result
/// says.
pub open spec fn same_share(
    r: Result<[u8; 32], KeyShareError>,
    s: Result<Seq<u8>, KeyShareError>,
) -> bool {
    match (r, s) {
        (Ok(key), Ok(bytes)) => key@ == bytes,
        (Err(e), Err(why)) => e == why,
        _ => false,
    }
}

/// The X25519 key that a key-share extension offers.
pub fn parse_x25519_key_share(data: &[u8]) -> (r: Result<[u8; 32], KeyShareError>)
    ensures
        same_share(r, x25519_share(data@)),
{
    if data.len() < 2 {
        return Err(KeyShareError::TooShort);
    }
    let shares_len = be16_at(data, 0);
    let mut pos: usize = 2;
    let end = if shares_len < data.len() - 2 {
        2 + shares_len
    } else {
        data.len()
    };
    assert(data@.subrange(2, data@.len() as int) =~= data@.skip(2));
    while end - pos >= 4
        invariant
            2 <= pos <= end <= data@.len(),
            x25519_share(data@) == x25519_entry(data@.subrange(pos as int, end as int)),
        decreases end - pos,
    {
        let ghost e = data@.subrange(pos as int, end as int);
        let group = be16_at(data, pos);
        let ke_len = be16_at(data, pos + 2);
        assert(be16(e, 0) == group && be16(e, 2) == ke_len);
        pos += 4;
        if end - pos < ke_len {
            return Err(KeyShareError::EntryTooLong);
        }
        if group == 0x001d && ke_len == 32 {
            let key = vstd::slice::slice_subrange(data, pos, pos + 32);
            assert(key@ =~= e.subrange(4, 36));
            return Ok(crate::buffer::to_array::<32>(key));
        }
        pos += ke_len;
        assert(data@.subrange(pos as int, end as int) =~= e.skip(4 + ke_len as int));
    }
    Err(KeyShareError::NoX25519)
}

/// The X25519 key that a hello offers whose session identifier has 32 bytes.
pub fn extract_x25519_from_key_share(record: &[u8]) -> (r: Result<[u8; 32], KeyShareError>)
    ensures
        same_share(r, hello_share(record@)),
{
    let mut pos: usize = SID_OFFSET + 32;
    if record.len() < pos + 2 {
        return Err(KeyShareError::NoCipherSuites);
    }
    let cs_len = be16_at(record, pos);
    pos += 2 + cs_len;
    if record.len() <= pos {
        return Err(KeyShareError::NoCompressionMethods);
    }
    let cm_len = record[pos] as usize;
    if record.len() - pos <= cm_len {
        return Err(KeyShareError::NoExtensions);
    }
    pos += 1 + cm_len;
    if record.len() - pos < 2 {
        return Err(KeyShareError::NoExtensions);
    }
    let ext_total = be16_at(record, pos);
    pos += 2;
    if record.len() - pos < ext_total {
        return Err(KeyShareError::ExtensionsTooLong);
    }
    let ext_end = pos + ext_total;
    while ext_end - pos >= 4
        invariant
            pos <= ext_end <= record@.len(),
            hello_share(record@) == extension_share(record@.subrange(pos as int, ext_end as int)),
        decreases ext_end - pos,
    {
        let ghost e = record@.subrange(pos as int, ext_end as int);
        let ext_type = be16_at(record, pos);
        let ext_len = be16_at(record, pos + 2);
        assert(be16(e, 0) == ext_type && be16(e, 2) == ext_len);
        pos += 4;
        if ext_end - pos < ext_len {
            return Err(KeyShareError::ExtensionTooLong);
        }
        if ext_type == 0x0033 {
            let data = vstd::slice::slice_subrange(record, pos, pos + ext_len);
            assert(data@ =~= e.subrange(4, 4 + ext_len as int));
            return parse_x25519_key_share(data);
        }
        pos += ext_len;
        assert(record@.subrange(pos as int, ext_end as int) =~= e.skip(4 + ext_len as int));
    }
    Err(KeyShareError::NoKeyShare)
}

/// Why a visitor is no Reality client, or cannot be told for one.
#[derive(Clone, Copy, Debug, PartialEq, Eq, Structural)]
pub enum RealityError {
    /// Too few bytes for a hello with a session identifier.
    TooShort,
    /// The record is of this type and no handshake.
    NotHandshake(u8),
    /// The handshake message is no ClientHello.
    NotClientHello,
    /// The session identifier has this many bytes and not 32.
    BadSessionIdLen(u8),
    /// The hello offers no X25519 key.
    KeyShare(KeyShareError),
    /// The configured private key is not in base64.
    BadPrivateKey,
    /// The configured private key has this many bytes and not 32.
    BadPrivateKeyLen(usize),
    /// The session identifier does not open under AES-GCM.
    AesFailed,
    /// The session identifier does not open under ChaCha20-Poly1305.
    ChachaFailed,
    /// A configured short identifier is not in hexadecimal.
    BadShortId,
    /// A configured short identifier has more than 8 bytes.
    ShortIdTooLong,
    /// The client names none of the configured short identifiers.
    ShortIdMismatch,
}

/// What a text holds in base64, in the URL-safe alphabet without padding or
/// else in the standard alphabet with it. White space around it is dropped.
pub open spec fn base64_either(s: Seq<char>) -> Option<Seq<u8>> {
    match crypto::base64_url_safe(text::trimmed(s)) {
        Some(v) => Some(v),
        None => crypto::base64_standard(text::trimmed(s)),
    }
}

/// Decodes base64 of either alphabet.
pub fn base64_url_decode(s: &str) -> (r: Option<Vec<u8>>)
    ensures
        opt_bytes(r) == base64_either(s@),
{
    let s = s.trim();
    match crypto::base64_url_safe_decode(s) {
        Some(v) => Some(v),
        None => crypto::base64_standard_decode(s),
    }
}

/// The X25519 key of a record that has the outer form of a Reality hello.
pub open spec fn hello_key(record: Seq<u8>) -> Result<Seq<u8>, RealityError> {
    if record.len() < 80 {
        Err(RealityError::TooShort)
    } else if record[0] != 0x16 {
        Err(RealityError::NotHandshake(record[0]))
    } else if record[5] != 0x01 {
        Err(RealityError::NotClientHello)
    } else if record[43] != 32 {
        Err(RealityError::BadSessionIdLen(record[43]))
    } else {
        match hello_share(record) {
            Ok(key) => Ok(key),
            Err(e) => Err(RealityError::KeyShare(e)),
        }
    }
}

/// Checks the outer form of a hello, and finds the X25519 key that it offers.
pub fn check_client_hello(record: &[u8]) -> (r: Result<[u8; 32], RealityError>)
    ensures
        match (r, hello_key(record@)) {
            (Ok(key), Ok(bytes)) => key@ == bytes && record@.len() >= 80,
            (Err(e), Err(why)) => e == why,
            _ => false,
        },
{
    if record.len() < SID_OFFSET + 32 + 4 {
        return Err(RealityError::TooShort);
    }
    if record[0] != 0x16 {
        return Err(RealityError::NotHandshake(record[0]));
    }
    if record[5] != 0x01 {
        return Err(RealityError::NotClientHello);
    }
    if record[SID_LEN_OFFSET] != 32 {
        return Err(RealityError::BadSessionIdLen(record[SID_LEN_OFFSET]));
    }
    match extract_x25519_from_key_share(record) {
        Ok(key) => Ok(key),
        Err(e) => Err(RealityError::KeyShare(e)),
    }
}

/// The private key among the bytes that the configured text decodes to.
pub open spec fn private_key_of(decoded: Option<Seq<u8>>) -> Result<Seq<u8>, RealityError> {
    match decoded {
        None => Err(RealityError::BadPrivateKey),
        Some(key) => if key.len() != 32 {
            Err(RealityError::BadPrivateKeyLen(key.len() as usize))
        } else {
            Ok(key)
        },
    }
}

/// Takes decoded bytes for a private key.
pub fn private_key(decoded: Option<Vec<u8>>) -> (r: Result<[u8; 32], RealityError>)
    ensures
        match (r, private_key_of(opt_bytes(decoded))) {
            (Ok(key), Ok(bytes)) => key@ == bytes,
            (Err(e), Err(why)) => e == why,
            _ => false,
        },
{
    match decoded {
        None => Err(RealityError::BadPrivateKey),
        Some(key) => if key.len() != 32 {
            Err(RealityError::BadPrivateKeyLen(key.len()))
        } else {
            Ok(crate::buffer::to_array::<32>(key.as_slice()))
        },
    }
}

/// The seven letters that separate this use of the secret from others.
pub open spec fn info_label() -> Seq<u8> {
    seq![0x52u8, 0x45u8, 0x41u8, 0x4cu8, 0x49u8, 0x54u8, 0x59u8]
}

/// The key that the session identifier is sealed under: derived from the
/// secret of the two X25519 keys, with the first 20 bytes of the random field
/// as salt.
pub open spec fn auth_key(record: Seq<u8>, private: Seq<u8>, public: Seq<u8>) -> Seq<u8> {
    hkdf_sha256(record.subrange(11, 31), x25519(private, public), info_label())
}

/// What the session identifier opens to, under the cipher that the client
/// wants: the nonce is the rest of the random field, and the whole record is
/// authenticated with it.
pub open spec fn session_plaintext(record: Seq<u8>, private: Seq<u8>, public: Seq<u8>) -> Option<
    Seq<u8>,
> {
    let key = auth_key(record, private, public);
    let nonce = record.subrange(31, 43);
    let session_id = record.subrange(44, 76);
    if prefers_aes(cipher_suites(record)) {
        aes256_gcm_opened(key, nonce, session_id, record)
    } else {
        chacha20_poly1305_opened(key, nonce, session_id, record)
    }
}

/// Opens the session identifier of a hello.
pub fn open_session_id(record: &[u8], private: &[u8; 32], public: &[u8; 32]) -> (r: Option<Vec<u8>>)
    requires
        record@.len() >= 76,
    ensures
        opt_bytes(r) == session_plaintext(record@, private@, public@),
        r is Some ==> r->0@.len() == 16,
{
    let secret = crypto::x25519_dh(private, public);
    let salt = vstd::slice::slice_subrange(record, RANDOM_OFFSET, RANDOM_OFFSET + 20);
    let info: [u8; 7] = [0x52, 0x45, 0x41, 0x4c, 0x49, 0x54, 0x59];
    assert(info@ =~= info_label());
    let key = crypto::hkdf_sha256_key(salt, secret.as_slice(), info.as_slice());
    let nonce = crate::buffer::to_array::<12>(
        vstd::slice::slice_subrange(record, RANDOM_OFFSET + 20, RANDOM_OFFSET + RANDOM_LEN),
    );
    let session_id = vstd::slice::slice_subrange(record, SID_OFFSET, SID_OFFSET + 32);
    if cipher_suite_prefers_aes(record) {
        crypto::aes256_gcm_open(&key, &nonce, session_id, record)
    } else {
        crypto::chacha20_poly1305_open(&key, &nonce, session_id, record)
    }
}

/// The characters of each text.
pub open spec fn texts(v: Seq<String>) -> Seq<Seq<char>> {
    v.map_values(|s: String| s@)
}

/// Whether an opened session identifier names a short identifier: it stands
/// after the first 8 bytes. The empty one is named by every client.
pub open spec fn names(plaintext: Seq<u8>, short_id: Seq<u8>) -> bool {
    ||| short_id.len() == 0
    ||| plaintext.len() >= 8 + short_id.len() && plaintext.subrange(8, 8 + short_id.len() as int)
        == short_id
}

/// Whether an opened session identifier names one of the configured short
/// identifiers. They are tried in order, and one that is malformed stops the
/// search.
pub open spec fn short_id_verdict(plaintext: Seq<u8>, short_ids: Seq<Seq<char>>) -> Result<
    (),
    RealityError,
>
    decreases short_ids.len(),
{
    if short_ids.len() == 0 {
        Err(RealityError::ShortIdMismatch)
    } else {
        match hex_of(short_ids[0]) {
            None => Err(RealityError::BadShortId),
            Some(id) => if id.len() > 8 {
                Err(RealityError::ShortIdTooLong)
            } else if names(plaintext, id) {
                Ok(())
            } else {
                short_id_verdict(plaintext, short_ids.skip(1))
            },
        }
    }
}

/// Looks for the short identifier that an opened session identifier names.
pub fn match_short_id(plaintext: &[u8], short_ids: &Vec<String>) -> (r: Result<(), RealityError>)
    ensures
        r == short_id_verdict(plaintext@, texts(short_ids@)),
{
    let ghost ids = texts(short_ids@);
    let mut i: usize = 0;
    assert(ids.skip(0) =~= ids);
    while i < short_ids.len()
        invariant
            i <= short_ids@.len(),
            ids == texts(short_ids@),
            short_id_verdict(plaintext@, ids) == short_id_verdict(plaintext@, ids.skip(i as int)),
        decreases short_ids@.len() - i,
    {
        assert(ids.skip(i as int)[0] == short_ids@[i as int]@);
        assert(ids.skip(i as int).skip(1) =~= ids.skip(i + 1));
        let id = match crypto::hex_decode(short_ids[i].as_str()) {
            Some(id) => id,
            None => return Err(RealityError::BadShortId),
        };
        let n = id.len();
        if n > 8 {
            return Err(RealityError::ShortIdTooLong);
        }
        if n == 0 {
            return Ok(());
        }
        if plaintext.len() >= 8 + n && text::same_bytes(
            vstd::slice::slice_subrange(plaintext, 8, 8 + n),
            id.as_slice(),
        ) {
            return Ok(());
        }
        i += 1;
    }
    Err(RealityError::ShortIdMismatch)
}

/// The verdict on a client once its session identifier was opened, or was
/// not.
pub open spec fn opened_verdict(
    opened: Option<Seq<u8>>,
    use_aes: bool,
    short_ids: Seq<Seq<char>>,
) -> Result<(), RealityError> {
    match opened {
        Some(plaintext) => short_id_verdict(plaintext, short_ids),
        None => if use_aes {
            Err(RealityError::AesFailed)
        } else {
            Err(RealityError::ChachaFailed)
        },
    }
}

/// Judges a client by what its session identifier opened to.
pub fn judge_opened(opened: Option<Vec<u8>>, use_aes: bool, short_ids: &Vec<String>) -> (r: Result<
    (),
    RealityError,
>)
    ensures
        r == opened_verdict(opt_bytes(opened), use_aes, texts(short_ids@)),
{
    match opened {
        Some(plaintext) => match_short_id(plaintext.as_slice(), short_ids),
        None => if use_aes {
            Err(RealityError::AesFailed)
        } else {
            Err(RealityError::ChachaFailed)
        },
    }
}

/// Whether the sender of a hello is a Reality client.
pub open spec fn reality_verdict(
    record: Seq<u8>,
    private_key: Seq<char>,
    short_ids: Seq<Seq<char>>,
) -> Result<(), RealityError> {
    match hello_key(record) {
        Err(e) => Err(e),
        Ok(public) => match private_key_of(base64_either(private_key)) {
            Err(e) => Err(e),
            Ok(private) => opened_verdict(
                session_plaintext(record, private, public),
                prefers_aes(cipher_suites(record)),
                short_ids,
            ),
        },
    }
}

/// Tells a Reality client by its hello.
pub fn verify_reality_client(record: &[u8], cfg: &RealityConfig) -> (r: Result<(), RealityError>)
    ensures
        r == reality_verdict(record@, cfg.private_key@, texts(cfg.short_ids@)),
{
    let public = match check_client_hello(record) {
        Ok(key) => key,
        Err(e) => return Err(e),
    };
    let private = match private_key(base64_url_decode(cfg.private_key.as_str())) {
        Ok(key) => key,
        Err(e) => return Err(e),
    };
    let opened = open_session_id(record, &private, &public);
    judge_opened(opened, cipher_suite_prefers_aes(record), &cfg.short_ids)
}

/// What becomes of a visitor.
#[derive(Clone, Copy, Debug, PartialEq, Eq, Structural)]
pub enum Admission {
    /// The TLS handshake goes on with this server.
    Accept,
    /// The connection is handed to the configured destination, as it is.
    Forward(RealityError),
}

/// Decides what becomes of a visitor who sent this hello: a Reality client is
/// accepted, and anyone else is forwarded.
pub fn admission(record: &[u8], cfg: &RealityConfig) -> (r: Admission)
    ensures
        match reality_verdict(record@, cfg.private_key@, texts(cfg.short_ids@)) {
            Ok(_) => r == Admission::Accept,
            Err(e) => r == Admission::Forward(e),
        },
{
    match verify_reality_client(record, cfg) {
        Ok(_) => Admission::Accept,
        Err(e) => Admission::Forward(e),
    }
}

/// An extension of a hello: its type and its data.
pub struct ExtensionView {
    pub kind: nat,
    pub data: Seq<u8>,
}

/// The two bytes of a 16-bit integer.
pub open spec fn two_bytes(v: nat) -> Seq<u8> {
    seq![(v / 256) as u8, (v % 256) as u8]
}

/// A list of extensions as a hello carries it.
pub open spec fn extension_bytes(exts: Seq<ExtensionView>) -> Seq<u8>
    decreases exts.len(),
{
    if exts.len() == 0 {
        Seq::empty()
    } else {
        two_bytes(exts[0].kind) + two_bytes(exts[0].data.len()) + exts[0].data + extension_bytes(
            exts.skip(1),
        )
    }
}

/// Whatever extensions stand before it, the key-share extension is found, and
/// the first of them counts.
pub proof fn law_key_share_is_found(exts: Seq<ExtensionView>, k: int)
    requires
        0 <= k < exts.len(),
        forall|i: int|
            0 <= i < exts.len() ==> (#[trigger] exts[i]).kind <= 0xffff && exts[i].data.len()
                <= 0xffff,
        exts[k].kind == 0x0033,
        forall|i: int| 0 <= i < k ==> (#[trigger] exts[i]).kind != 0x0033,
    ensures
        extension_share(extension_bytes(exts)) == x25519_share(exts[k].data),
    decreases exts.len(),
{
    let e = extension_bytes(exts);
    let n = exts[0].data.len();
    let rest = extension_bytes(exts.skip(1));
    assert(be16(e, 0) == exts[0].kind);
    assert(be16(e, 2) == n);
    if k == 0 {
        assert(e.subrange(4, 4 + n as int) =~= exts[0].data);
    } else {
        assert(exts[0].kind != 0x0033);
        assert(e.skip(4 + n as int) =~= rest);
        assert forall|i: int| 0 <= i < k - 1 implies (#[trigger] exts.skip(1)[i]).kind
            != 0x0033 by {
            assert(exts[i + 1].kind != 0x0033);
        }
        assert forall|i: int| 0 <= i < exts.skip(1).len() implies (#[trigger] exts.skip(1)[i]).kind
            <= 0xffff && exts.skip(1)[i].data.len() <= 0xffff by {
            assert(exts[i + 1].kind <= 0xffff);
        }
        law_key_share_is_found(exts.skip(1), k - 1);
    }
}

/// A client is taken that names a configured short identifier, where those
/// up to it are well formed. So where an empty one is configured, every client
/// is taken.
pub proof fn law_named_clients_are_taken(plaintext: Seq<u8>, short_ids: Seq<Seq<char>>, k: int)
    requires
        0 <= k < short_ids.len(),
        forall|i: int|
            0 <= i <= k ==> hex_of(#[trigger] short_ids[i]) is Some && hex_of(
                short_ids[i],
            )->0.len() <= 8,
        short_ids[k].len() == 0 || names(plaintext, hex_of(short_ids[k])->0),
    ensures
        short_id_verdict(plaintext, short_ids) is Ok,
    decreases k,
{
    assert(hex_of(short_ids[0]) is Some);
    if k > 0 {
        assert forall|i: int| 0 <= i <= k - 1 implies hex_of(#[trigger] short_ids.skip(1)[i]) is Some
            && hex_of(short_ids.skip(1)[i])->0.len() <= 8 by {
            assert(hex_of(short_ids[i + 1]) is Some);
        }
        law_named_clients_are_taken(plaintext, short_ids.skip(1), k - 1);
    }
}

/// A client is taken only if it names one of the configured short
/// identifiers.
pub proof fn law_taken_clients_are_named(plaintext: Seq<u8>, short_ids: Seq<Seq<char>>)
    requires
        short_id_verdict(plaintext, short_ids) is Ok,
    ensures
        exists|i: int|
            0 <= i < short_ids.len() && hex_of(#[trigger] short_ids[i]) is Some && names(
                plaintext,
                hex_of(short_ids[i])->0,
            ),
    decreases short_ids.len(),
{
    if !names(plaintext, hex_of(short_ids[0])->0) {
        law_taken_clients_are_named(plaintext, short_ids.skip(1));
        let i = choose|i: int|
            0 <= i < short_ids.skip(1).len() && hex_of(#[trigger] short_ids.skip(1)[i]) is Some
                && names(plaintext, hex_of(short_ids.skip(1)[i])->0);
        assert(short_ids[i + 1] == short_ids.skip(1)[i]);
    }
}

/// A visitor is accepted exactly where all of this holds: the record is a
/// hello that offers an X25519 key, the configured private key has 32 bytes,
/// the session identifier opens under the key that both sides derive, and it
/// names a configured short identifier. The configured short identifiers are
/// taken to be well formed.
pub proof fn law_who_is_accepted(
    record: Seq<u8>,
    private_key: Seq<char>,
    short_ids: Seq<Seq<char>>,
)
    requires
        forall|i: int|
            0 <= i < short_ids.len() ==> hex_of(#[trigger] short_ids[i]) is Some && hex_of(
                short_ids[i],
            )->0.len() <= 8,
    ensures
        reality_verdict(record, private_key, short_ids) is Ok <==> {
            &&& hello_key(record) is Ok
            &&& base64_either(private_key) is Some
            &&& base64_either(private_key)->0.len() == 32
            &&& ({
                let opened = session_plaintext(
                    record,
                    base64_either(private_key)->0,
                    hello_key(record)->Ok_0,
                );
                &&& opened is Some
                &&& exists|i: int|
                    0 <= i < short_ids.len() && names(opened->0, hex_of(#[trigger] short_ids[i])->0)
            })
        },
{
    if hello_key(record) is Ok && private_key_of(base64_either(private_key)) is Ok {
        let opened = session_plaintext(
            record,
            base64_either(private_key)->0,
            hello_key(record)->Ok_0,
        );
        if opened is Some {
            let plaintext = opened->0;
            if short_id_verdict(plaintext, short_ids) is Ok {
                law_taken_clients_are_named(plaintext, short_ids);
            }
            if exists|i: int|
                0 <= i < short_ids.len() && names(plaintext, hex_of(#[trigger] short_ids[i])->0) {
                let i = choose|i: int|
                    0 <= i < short_ids.len() && names(plaintext, hex_of(#[trigger] short_ids[i])->0);
                law_named_clients_are_taken(plaintext, short_ids, i);
            }
        }
    }
}

/// Whether bytes start with others.
pub open spec fn starts_with(s: Seq<u8>, prefix: Seq<u8>) -> bool {
    exists|rest: Seq<u8>| s == #[trigger] (prefix + rest)
}

/// What bytes start with is what stands at their front.
proof fn lemma_starts_with(s: Seq<u8>, prefix: Seq<u8>)
    ensures
        starts_with(s, prefix) <==> s.len() >= prefix.len() && s.take(prefix.len() as int)
            == prefix,
{
    if starts_with(s, prefix) {
        let rest = choose|rest: Seq<u8>| s == #[trigger] (prefix + rest);
        assert(s.take(prefix.len() as int) =~= prefix);
    }
    if s.len() >= prefix.len() && s.take(prefix.len() as int) == prefix {
        assert(s =~= prefix + s.skip(prefix.len() as int));
    }
}

/// A client names a short identifier of up to 8 bytes by the bytes from the
/// ninth on, whatever stands before and behind them.
proof fn lemma_names(plaintext: Seq<u8>, id: Seq<u8>)
    requires
        plaintext.len() >= 8,
    ensures
        names(plaintext, id) <==> starts_with(plaintext.skip(8), id),
{
    let s = plaintext.skip(8);
    lemma_starts_with(s, id);
    if id.len() == 0 {
        assert(s.take(0) =~= id);
    }
    if s.len() >= id.len() {
        assert(s.take(id.len() as int) =~= plaintext.subrange(8, 8 + id.len() as int));
    }
}

/// Any client is taken whose session identifier opens to 8 bytes, the bytes of
/// the configured short identifier, and whatever fills up the rest.
pub proof fn law_short_id_in_its_place(head: Seq<u8>, short_id: Seq<char>, tail: Seq<u8>)
    requires
        head.len() == 8,
        hex_of(short_id) is Some,
        hex_of(short_id)->0.len() <= 8,
    ensures
        short_id_verdict(head + hex_of(short_id)->0 + tail, seq![short_id]) == Ok::<
            (),
            RealityError,
        >(()),
{
    let id = hex_of(short_id)->0;
    let plaintext = head + id + tail;
    assert(plaintext.skip(8) =~= id + tail);
    lemma_names(plaintext, id);
}

/// No client is taken whose session identifier opens to 8 bytes and others that
/// do not start with a configured short identifier.
pub proof fn law_other_clients_are_not_taken(
    head: Seq<u8>,
    rest: Seq<u8>,
    short_ids: Seq<Seq<char>>,
)
    requires
        head.len() == 8,
        forall|i: int|
            0 <= i < short_ids.len() ==> hex_of(#[trigger] short_ids[i]) is Some && hex_of(
                short_ids[i],
            )->0.len() <= 8 && !starts_with(rest, hex_of(short_ids[i])->0),
    ensures
        short_id_verdict(head + rest, short_ids) == Err::<(), RealityError>(
            RealityError::ShortIdMismatch,
        ),
    decreases short_ids.len(),
{
    let plaintext = head + rest;
    if short_ids.len() > 0 {
        assert(plaintext.skip(8) =~= rest);
        assert(hex_of(short_ids[0]) is Some);
        lemma_names(plaintext, hex_of(short_ids[0])->0);
        let others = short_ids.skip(1);
        assert forall|i: int| 0 <= i < others.len() implies hex_of(#[trigger] others[i]) is Some
            && hex_of(others[i])->0.len() <= 8 && !starts_with(rest, hex_of(others[i])->0) by {
            assert(others[i] == short_ids[i + 1]);
        }
        law_other_clients_are_not_taken(head, rest, others);
    }
}

/// The configured short identifiers are tried in their order: those that a
/// client does not name are passed over, the one that it names has it taken,
/// and one that is malformed has it turned away.
pub proof fn law_short_ids_are_tried_in_order(
    head: Seq<u8>,
    rest: Seq<u8>,
    before: Seq<Seq<char>>,
    short_id: Seq<char>,
    after: Seq<Seq<char>>,
)
    requires
        head.len() == 8,
        forall|i: int|
            0 <= i < before.len() ==> hex_of(#[trigger] before[i]) is Some && hex_of(
                before[i],
            )->0.len() <= 8 && !starts_with(rest, hex_of(before[i])->0),
    ensures
        ({
            let got = short_id_verdict(head + rest, before + seq![short_id] + after);
            match hex_of(short_id) {
                None => got == Err::<(), RealityError>(RealityError::BadShortId),
                Some(id) => {
                    &&& id.len() > 8 ==> got == Err::<(), RealityError>(
                        RealityError::ShortIdTooLong,
                    )
                    &&& id.len() <= 8 && starts_with(rest, id) ==> got == Ok::<(), RealityError>(())
                },
            }
        }),
    decreases before.len(),
{
    let plaintext = head + rest;
    let all = before + seq![short_id] + after;
    assert(plaintext.skip(8) =~= rest);
    if before.len() == 0 {
        assert(all[0] == short_id);
        if hex_of(short_id) is Some {
            lemma_names(plaintext, hex_of(short_id)->0);
        }
    } else {
        assert(all[0] == before[0]);
        assert(hex_of(before[0]) is Some);
        lemma_names(plaintext, hex_of(before[0])->0);
        assert(all.skip(1) =~= before.skip(1) + seq![short_id] + after);
        let others = before.skip(1);
        assert forall|i: int| 0 <= i < others.len() implies hex_of(#[trigger] others[i]) is Some
            && hex_of(others[i])->0.len() <= 8 && !starts_with(rest, hex_of(others[i])->0) by {
            assert(others[i] == before[i + 1]);
        }
        law_short_ids_are_tried_in_order(head, rest, others, short_id, after);
    }
}

/// The cipher suites by number: those with AES-GCM and those with
/// ChaCha20-Poly1305.
pub proof fn law_cipher_suites_by_number(suite: nat)
    ensures
        is_aes_suite(suite) <==> seq![
            0x1301nat,
            0x1302,
            0x009c,
            0x009d,
            0xc02b,
            0xc02c,
            0xc02f,
            0xc030,
        ].contains(suite),
        is_chacha_suite(suite) <==> seq![0x1303nat, 0xcca8, 0xcca9].contains(suite),
{
    let aes = seq![0x1301nat, 0x1302, 0x009c, 0x009d, 0xc02b, 0xc02c, 0xc02f, 0xc030];
    let chacha = seq![0x1303nat, 0xcca8, 0xcca9];
    assert(aes[0] == 0x1301 && aes[1] == 0x1302 && aes[2] == 0x009c && aes[3] == 0x009d && aes[4]
        == 0xc02b && aes[5] == 0xc02c && aes[6] == 0xc02f && aes[7] == 0xc030);
    assert(chacha[0] == 0x1303 && chacha[1] == 0xcca8 && chacha[2] == 0xcca9);
}

/// The first suite that tells decides: AES-GCM or ChaCha20-Poly1305. Where none
/// tells, it is AES-GCM.
pub proof fn law_first_suite_decides(before: Seq<nat>, suite: nat, after: Seq<nat>)
    requires
        forall|i: int|
            0 <= i < before.len() ==> !is_aes_suite(#[trigger] before[i]) && !is_chacha_suite(
                before[i],
            ),
    ensures
        is_aes_suite(suite) ==> prefers_aes(before + seq![suite] + after),
        is_chacha_suite(suite) ==> !prefers_aes(before + seq![suite] + after),
        prefers_aes(before),
{
    let all = before + seq![suite] + after;
    let k = before.len() as int;
    assert(all[k] == suite);
    if is_aes_suite(suite) && !prefers_aes(all) {
        let i = choose|i: int|
            0 <= i < all.len() && is_chacha_suite(#[trigger] all[i]) && forall|j: int|
                0 <= j < i ==> !is_aes_suite(#[trigger] all[j]);
        if i < k {
            assert(all[i] == before[i]);
        } else {
            assert(!is_aes_suite(all[k]) || i == k);
        }
    }
    if is_chacha_suite(suite) {
        assert forall|j: int| 0 <= j < k implies !is_aes_suite(#[trigger] all[j]) by {
            assert(all[j] == before[j]);
        }
    }
    if !prefers_aes(before) {
        let i = choose|i: int|
            0 <= i < before.len() && is_chacha_suite(#[trigger] before[i]) && forall|j: int|
                0 <= j < i ==> !is_aes_suite(#[trigger] before[j]);
        assert(!is_chacha_suite(before[i]));
    }
}

/// The cipher suites stand behind the session identifier: their length in two
/// bytes, then two bytes for each, most significant first. Where they are cut
/// off there are none.
pub proof fn law_cipher_suites_in_a_hello(
    front: Seq<u8>,
    high: u8,
    low: u8,
    suites: Seq<u8>,
    rest: Seq<u8>,
    i: int,
)
    requires
        front.len() == 76,
    ensures
        suites.len() == high * 256 + low ==> {
            let got = cipher_suites(front + seq![high, low] + suites + rest);
            &&& got.len() == suites.len() / 2
            &&& 0 <= i < suites.len() / 2 ==> got[i] == suites[2 * i] * 256 + suites[2 * i + 1]
        },
        suites.len() < high * 256 + low ==> cipher_suites(front + seq![high, low] + suites).len()
            == 0,
        cipher_suites(front).len() == 0,
        cipher_suites(front.push(high)).len() == 0,
{
    let all = front + seq![high, low] + suites + rest;
    assert(all[76] == high && all[77] == low);
    let cut = front + seq![high, low] + suites;
    assert(cut[76] == high && cut[77] == low);
    if suites.len() == high * 256 + low && 0 <= i < suites.len() / 2 {
        assert(all[78 + 2 * i] == suites[2 * i]);
        assert(all[78 + 2 * i + 1] == suites[2 * i + 1]);
    }
}

/// The keys of a key-share extension one by one: group and length, two bytes
/// each, and the key. The first for X25519 with 32 bytes is taken, and any other
/// is passed over; one that is cut off has them all refused.
pub proof fn law_keys_one_by_one(
    group_high: u8,
    group_low: u8,
    high: u8,
    low: u8,
    key: Seq<u8>,
    rest: Seq<u8>,
    short: Seq<u8>,
)
    ensures
        short.len() < 4 ==> x25519_entry(short) == Err::<Seq<u8>, KeyShareError>(
            KeyShareError::NoX25519,
        ),
        key.len() < high * 256 + low ==> x25519_entry(
            seq![group_high, group_low, high, low] + key,
        ) == Err::<Seq<u8>, KeyShareError>(KeyShareError::EntryTooLong),
        key.len() == high * 256 + low ==> x25519_entry(
            seq![group_high, group_low, high, low] + key + rest,
        ) == if group_high == 0 && group_low == 29 && key.len() == 32 {
            Ok(key)
        } else {
            x25519_entry(rest)
        },
{
    let e = seq![group_high, group_low, high, low] + key + rest;
    assert(e[0] == group_high && e[1] == group_low && e[2] == high && e[3] == low);
    let cut = seq![group_high, group_low, high, low] + key;
    assert(cut[2] == high && cut[3] == low);
    if key.len() == high * 256 + low {
        assert(e.skip(4 + key.len() as int) =~= rest);
        if key.len() == 32 {
            assert(e.subrange(4, 36) =~= key);
        }
    }
}

/// A key-share extension: the length of the keys in two bytes, and the keys;
/// what stands behind them is nothing, and a length that is too large is cut
/// down.
pub proof fn law_key_share_extension(high: u8, low: u8, keys: Seq<u8>, rest: Seq<u8>)
    ensures
        keys.len() == high * 256 + low ==> x25519_share(seq![high, low] + keys + rest)
            == x25519_entry(keys),
        keys.len() < high * 256 + low ==> x25519_share(seq![high, low] + keys) == x25519_entry(
            keys,
        ),
        x25519_share(Seq::empty()) == Err::<Seq<u8>, KeyShareError>(KeyShareError::TooShort),
        x25519_share(seq![high]) == Err::<Seq<u8>, KeyShareError>(KeyShareError::TooShort),
{
    let data = seq![high, low] + keys + rest;
    assert(data[0] == high && data[1] == low);
    let cut = seq![high, low] + keys;
    assert(cut[0] == high && cut[1] == low);
    assert(cut.skip(2) =~= keys);
    if keys.len() == high * 256 + low {
        assert(data.subrange(2, 2 + keys.len() as int) =~= keys);
        if rest.len() == 0 {
            assert(data.skip(2) =~= keys);
        }
    }
}

/// The extensions one by one: type and length, two bytes each, and the data. The
/// first of the type 51 is taken, and any other is passed over; one that is cut
/// off has them all refused.
pub proof fn law_extensions_one_by_one(
    kind_high: u8,
    kind_low: u8,
    high: u8,
    low: u8,
    data: Seq<u8>,
    rest: Seq<u8>,
    short: Seq<u8>,
)
    ensures
        short.len() < 4 ==> extension_share(short) == Err::<Seq<u8>, KeyShareError>(
            KeyShareError::NoKeyShare,
        ),
        data.len() < high * 256 + low ==> extension_share(
            seq![kind_high, kind_low, high, low] + data,
        ) == Err::<Seq<u8>, KeyShareError>(KeyShareError::ExtensionTooLong),
        data.len() == high * 256 + low ==> extension_share(
            seq![kind_high, kind_low, high, low] + data + rest,
        ) == if kind_high == 0 && kind_low == 51 {
            x25519_share(data)
        } else {
            extension_share(rest)
        },
{
    let e = seq![kind_high, kind_low, high, low] + data + rest;
    assert(e[0] == kind_high && e[1] == kind_low && e[2] == high && e[3] == low);
    let cut = seq![kind_high, kind_low, high, low] + data;
    assert(cut[2] == high && cut[3] == low);
    if data.len() == high * 256 + low {
        assert(e.skip(4 + data.len() as int) =~= rest);
        assert(e.subrange(4, 4 + data.len() as int) =~= data);
    }
}

/// Behind the session identifier of a hello stand the cipher suites, the
/// compression methods and the extensions, each behind its length, and the key
/// is looked for in the extensions.
pub proof fn law_hello_layout(
    front: Seq<u8>,
    suites: Seq<u8>,
    methods: Seq<u8>,
    extensions: Seq<u8>,
    rest: Seq<u8>,
)
    requires
        front.len() == 76,
        suites.len() <= 0xffff,
        methods.len() <= 0xff,
        extensions.len() <= 0xffff,
    ensures
        hello_share(
            front + two_bytes(suites.len()) + suites + seq![methods.len() as u8] + methods
                + two_bytes(extensions.len()) + extensions + rest,
        ) == extension_share(extensions),
{
    let s = front + two_bytes(suites.len()) + suites + seq![methods.len() as u8] + methods
        + two_bytes(extensions.len()) + extensions + rest;
    let m = 78 + suites.len() as int;
    let e = m + 1 + methods.len() as int;
    assert(s[76] == (suites.len() / 256) as u8 && s[77] == (suites.len() % 256) as u8);
    assert(s[m] == methods.len());
    assert(s[e] == (extensions.len() / 256) as u8 && s[e + 1] == (extensions.len() % 256) as u8);
    assert(s.subrange(e + 2, e + 2 + extensions.len() as int) =~= extensions);
}

/// A hello that ends early offers no key, and the part that is missing is named.
pub proof fn law_cut_off_hellos(
    front: Seq<u8>,
    suites: Seq<u8>,
    methods: Seq<u8>,
    extensions: Seq<u8>,
    count: u8,
    total: nat,
)
    requires
        front.len() == 76,
        suites.len() <= total <= 0xffff,
    ensures
        hello_share(front) == Err::<Seq<u8>, KeyShareError>(KeyShareError::NoCipherSuites),
        hello_share(front.push(count)) == Err::<Seq<u8>, KeyShareError>(
            KeyShareError::NoCipherSuites,
        ),
        hello_share(front + two_bytes(total) + suites) == Err::<Seq<u8>, KeyShareError>(
            KeyShareError::NoCompressionMethods,
        ),
        methods.len() < count + 2 ==> hello_share(
            front + two_bytes(suites.len()) + suites + seq![count] + methods,
        ) == Err::<Seq<u8>, KeyShareError>(KeyShareError::NoExtensions),
        methods.len() == count && extensions.len() < total ==> hello_share(
            front + two_bytes(suites.len()) + suites + seq![count] + methods + two_bytes(total)
                + extensions,
        ) == Err::<Seq<u8>, KeyShareError>(KeyShareError::ExtensionsTooLong),
{
    let a = front + two_bytes(total) + suites;
    assert(a[76] == (total / 256) as u8 && a[77] == (total % 256) as u8);
    let n = suites.len();
    let m = 78 + n as int;
    let b = front + two_bytes(n) + suites + seq![count] + methods;
    assert(b[76] == (n / 256) as u8 && b[77] == (n % 256) as u8);
    assert(b[m] == count);
    let c = front + two_bytes(n) + suites + seq![count] + methods + two_bytes(total) + extensions;
    assert(c[76] == (n / 256) as u8 && c[77] == (n % 256) as u8);
    assert(c[m] == count);
    if methods.len() == count {
        let e = m + 1 + count as int;
        assert(c[e] == (total / 256) as u8 && c[e + 1] == (total % 256) as u8);
    }
}

/// The outer form of a hello is checked in this order: 80 bytes, a handshake, a
/// ClientHello, a session identifier of 32 bytes, and then the key.
pub proof fn law_outer_form(record: Seq<u8>)
    ensures
        record.len() < 80 ==> hello_key(record) == Err::<Seq<u8>, RealityError>(
            RealityError::TooShort,
        ),
        record.len() >= 80 ==> {
            &&& record[0] != 22 ==> hello_key(record) == Err::<Seq<u8>, RealityError>(
                RealityError::NotHandshake(record[0]),
            )
            &&& record[0] == 22 && record[5] != 1 ==> hello_key(record) == Err::<
                Seq<u8>,
                RealityError,
            >(RealityError::NotClientHello)
            &&& record[0] == 22 && record[5] == 1 && record[43] != 32 ==> hello_key(record)
                == Err::<Seq<u8>, RealityError>(RealityError::BadSessionIdLen(record[43]))
            &&& record[0] == 22 && record[5] == 1 && record[43] == 32 ==> match hello_share(
                record,
            ) {
                Ok(key) => hello_key(record) == Ok::<Seq<u8>, RealityError>(key),
                Err(e) => hello_key(record) == Err::<Seq<u8>, RealityError>(
                    RealityError::KeyShare(e),
                ),
            }
        },
{
}

/// A private key has 32 bytes, and is written in base64: in the URL-safe
/// alphabet, or else in the standard one, with white space around it or without.
pub proof fn law_private_keys(key: Seq<u8>, w1: Seq<char>, s: Seq<char>, w2: Seq<char>)
    requires
        text::all_white_space(w1),
        text::all_white_space(w2),
        s.len() > 0 ==> !text::is_white_space(s[0]) && !text::is_white_space(s.last()),
    ensures
        private_key_of(None) == Err::<Seq<u8>, RealityError>(RealityError::BadPrivateKey),
        key.len() == 32 ==> private_key_of(Some(key)) == Ok::<Seq<u8>, RealityError>(key),
        key.len() != 32 ==> private_key_of(Some(key)) == Err::<Seq<u8>, RealityError>(
            RealityError::BadPrivateKeyLen(key.len() as usize),
        ),
        base64_either(w1 + s + w2) == if crypto::base64_url_safe(s) is Some {
            crypto::base64_url_safe(s)
        } else {
            crypto::base64_standard(s)
        },
{
    text::lemma_trimmed_around(w1, s, w2);
    assert(text::trimmed(s) =~= s);
}

/// The session identifier of a hello is opened under a key that is derived from
/// the secret of the two X25519 keys and the first 20 bytes of the random field,
/// with its last 12 bytes as the nonce and the whole record beside it.
pub proof fn law_session_id_is_opened(
    front: Seq<u8>,
    salt: Seq<u8>,
    nonce: Seq<u8>,
    len: u8,
    session_id: Seq<u8>,
    rest: Seq<u8>,
    private: Seq<u8>,
    public: Seq<u8>,
)
    requires
        front.len() == 11,
        salt.len() == 20,
        nonce.len() == 12,
        session_id.len() == 32,
    ensures
        ({
            let record = front + salt + nonce + seq![len] + session_id + rest;
            let secret = x25519(private, public);
            let label = vstd::utf8::encode_utf8("REALITY"@);
            let key = crypto::hmac_sha256(crypto::hmac_sha256(salt, secret), label + seq![1u8]);
            &&& auth_key(record, private, public) == key
            &&& session_plaintext(record, private, public) == if prefers_aes(
                cipher_suites(record),
            ) {
                aes256_gcm_opened(key, nonce, session_id, record)
            } else {
                chacha20_poly1305_opened(key, nonce, session_id, record)
            }
        }),
{
    let record = front + salt + nonce + seq![len] + session_id + rest;
    assert(record.subrange(11, 31) =~= salt);
    assert(record.subrange(31, 43) =~= nonce);
    assert(record.subrange(44, 76) =~= session_id);
    reveal_strlit("REALITY");
    assert(vstd::utf8::is_ascii_chars("REALITY"@));
    vstd::utf8::is_ascii_chars_encode_utf8("REALITY"@);
    assert(vstd::utf8::encode_utf8("REALITY"@) =~= info_label());
    assert(info_label().push(1) =~= info_label() + seq![1u8]);
}

/// A visitor is judged in this order: by the hello, by the configured private
/// key, by whether the session identifier opens, and by the short identifier.
pub proof fn law_order_of_judgement(
    record: Seq<u8>,
    private_key: Seq<char>,
    short_ids: Seq<Seq<char>>,
)
    ensures
        match (hello_key(record), private_key_of(base64_either(private_key))) {
            (Err(e), _) => reality_verdict(record, private_key, short_ids) == Err::<
                (),
                RealityError,
            >(e),
            (Ok(_), Err(e)) => reality_verdict(record, private_key, short_ids) == Err::<
                (),
                RealityError,
            >(e),
            (Ok(public), Ok(private)) => match session_plaintext(record, private, public) {
                Some(plaintext) => reality_verdict(record, private_key, short_ids)
                    == short_id_verdict(plaintext, short_ids),
                None => reality_verdict(record, private_key, short_ids) == Err::<(), RealityError>(
                    if prefers_aes(cipher_suites(record)) {
                        RealityError::AesFailed
                    } else {
                        RealityError::ChachaFailed
                    },
                ),
            },
        },
{
}

/// What was opened is judged by its short identifier, and what was not by the
/// cipher that it did not open under.
pub proof fn law_what_was_opened(plaintext: Seq<u8>, use_aes: bool, short_ids: Seq<Seq<char>>)
    ensures
        opened_verdict(Some(plaintext), use_aes, short_ids) == short_id_verdict(
            plaintext,
            short_ids,
        ),
        opened_verdict(None, true, short_ids) == Err::<(), RealityError>(RealityError::AesFailed),
        opened_verdict(None, false, short_ids) == Err::<(), RealityError>(
            RealityError::ChachaFailed,
        ),
{
}

/// Where the fields of a hello stand, and how texts and keys are seen.
pub proof fn law_fields_of_a_hello(
    v: Seq<String>,
    i: int,
    key: [u8; 32],
    bytes: Seq<u8>,
    e: KeyShareError,
    why: KeyShareError,
)
    requires
        0 <= i < v.len(),
    ensures
        RANDOM_OFFSET == 11,
        RANDOM_LEN == 32,
        SID_LEN_OFFSET == RANDOM_OFFSET + RANDOM_LEN,
        SID_OFFSET == SID_LEN_OFFSET + 1,
        texts(v).len() == v.len(),
        texts(v)[i] == v[i]@,
        same_share(Ok(key), Ok(bytes)) <==> key@ == bytes,
        same_share(Err(e), Err(why)) <==> e == why,
        !same_share(Ok(key), Err(why)),
        !same_share(Err(e), Ok(bytes)),
{
}

} // verus!
