//! Telling Reality clients by a short identifier in the random field of their
//! TLS ClientHello.

use crate::config::RealityConfig;
use crate::crypto;
use crate::crypto::{hex_of, opt_bytes};
use crate::text;
use crate::vless::tls::reality::texts;
use vstd::prelude::*;

verus! {

/// Where the random field of a ClientHello record starts.
pub const RANDOM_OFFSET: usize = 11;

/// How long the random field is.
pub const RANDOM_LEN: usize = 32;

/// Why a visitor is no Reality client, or cannot be told for one.
#[derive(Clone, Copy, Debug, PartialEq, Eq, Structural)]
pub enum RealityError {
    /// Too few bytes for a hello.
    TooShort,
    /// The record is of this type and no handshake.
    NotTls(u8),
    /// The handshake message is no ClientHello.
    NotClientHello,
    /// The configured private key is not in base64.
    BadPrivateKey,
    /// The configured private key has this many bytes and not 32.
    BadPrivateKeyLen(usize),
    /// A configured short identifier is not in hexadecimal.
    BadShortId,
    /// A configured short identifier has more than 8 bytes.
    ShortIdTooLong,
    /// The hello ends in none of the configured short identifiers.
    ShortIdMismatch,
}

/// The bytes that a text holds in base64. White space around it is dropped.
pub fn base64_decode(s: &str) -> (r: Option<Vec<u8>>)
    ensures
        opt_bytes(r) == crypto::base64_standard(text::trimmed(s@)),
{
    crypto::base64_standard_decode(s.trim())
}

/// Whether the random field ends in a short identifier.
pub open spec fn random_ends_in(random: Seq<u8>, short_id: Seq<u8>) -> bool {
    short_id.len() <= random.len() && random.skip(random.len() - short_id.len()) == short_id
}

/// Whether the random field ends in one of the configured short identifiers.
/// They are tried in order, and one that is malformed stops the search.
pub open spec fn random_verdict(random: Seq<u8>, short_ids: Seq<Seq<char>>) -> Result<
    (),
    RealityError,
>
    decreases short_ids.len(),
{
    if short_ids.len() == 0 {
        Err(RealityError::ShortIdMismatch)
    } else {
        match hex_of(short_ids[0]) {
            None => Err(RealityError::BadShortId),
            Some(id) => if id.len() > 8 {
                Err(RealityError::ShortIdTooLong)
            } else if random_ends_in(random, id) {
                Ok(())
            } else {
                random_verdict(random, short_ids.skip(1))
            },
        }
    }
}

/// Whether the sender of a hello is a Reality client, where the configured
/// private key decodes to `private_key`.
pub open spec fn hello_verdict(
    hello: Seq<u8>,
    private_key: Option<Seq<u8>>,
    short_ids: Seq<Seq<char>>,
) -> Result<(), RealityError> {
    if hello.len() < 43 {
        Err(RealityError::TooShort)
    } else if hello[0] != 0x16 {
        Err(RealityError::NotTls(hello[0]))
    } else if hello[5] != 0x01 {
        Err(RealityError::NotClientHello)
    } else {
        match private_key {
            None => Err(RealityError::BadPrivateKey),
            Some(key) => if key.len() != 32 {
                Err(RealityError::BadPrivateKeyLen(key.len() as usize))
            } else {
                random_verdict(hello.subrange(11, 43), short_ids)
            },
        }
    }
}

/// Looks for the short identifier that the random field ends in.
fn match_random(random: &[u8], short_ids: &Vec<String>) -> (r: Result<(), RealityError>)
    requires
        random@.len() == 32,
    ensures
        r == random_verdict(random@, texts(short_ids@)),
{
    let ghost ids = texts(short_ids@);
    let mut i: usize = 0;
    assert(ids.skip(0) =~= ids);
    while i < short_ids.len()
        invariant
            i <= short_ids@.len(),
            random@.len() == 32,
            ids == texts(short_ids@),
            random_verdict(random@, ids) == random_verdict(random@, ids.skip(i as int)),
        decreases short_ids@.len() - i,
    {
        assert(ids.skip(i as int)[0] == short_ids@[i as int]@);
        assert(ids.skip(i as int).skip(1) =~= ids.skip(i + 1));
        let id = match crypto::hex_decode(short_ids[i].as_str()) {
            Some(id) => id,
            None => return Err(RealityError::BadShortId),
        };
        if id.len() > 8 {
            return Err(RealityError::ShortIdTooLong);
        }
        let offset = 32 - id.len();
        let tail = vstd::slice::slice_subrange(random, offset, 32);
        assert(tail@ =~= random@.skip(offset as int));
        if text::same_bytes(tail, id.as_slice()) {
            return Ok(());
        }
        i += 1;
    }
    Err(RealityError::ShortIdMismatch)
}

/// Judges a hello, given what the configured private key decodes to.
pub fn judge_hello(hello: &[u8], private_key: Option<Vec<u8>>, short_ids: &Vec<String>) -> (r:
    Result<(), RealityError>)
    ensures
        r == hello_verdict(hello@, opt_bytes(private_key), texts(short_ids@)),
{
    if hello.len() < RANDOM_OFFSET + RANDOM_LEN {
        return Err(RealityError::TooShort);
    }
    if hello[0] != 0x16 {
        return Err(RealityError::NotTls(hello[0]));
    }
    if hello[5] != 0x01 {
        return Err(RealityError::NotClientHello);
    }
    match private_key {
        None => Err(RealityError::BadPrivateKey),
        Some(key) => if key.len() != 32 {
            Err(RealityError::BadPrivateKeyLen(key.len()))
        } else {
            let random = vstd::slice::slice_subrange(
                hello,
                RANDOM_OFFSET,
                RANDOM_OFFSET + RANDOM_LEN,
            );
            match_random(random, short_ids)
        },
    }
}

/// Tells a Reality client by its hello.
pub fn verify_reality_client(client_hello: &[u8], cfg: &RealityConfig) -> (r: Result<
    (),
    RealityError,
>)
    ensures
        r == hello_verdict(
            client_hello@,
            crypto::base64_standard(text::trimmed(cfg.private_key@)),
            texts(cfg.short_ids@),
        ),
{
    judge_hello(client_hello, base64_decode(cfg.private_key.as_str()), &cfg.short_ids)
}

/// What becomes of a visitor.
#[derive(Clone, Copy, Debug, PartialEq, Eq, Structural)]
pub enum Admission {
    /// The TLS handshake goes on with this server.
    Accept,
    /// The connection is handed to the configured destination, as it is.
    Forward(RealityError),
}

/// Decides what becomes of a visitor who sent this hello: a Reality client is
/// accepted, and anyone else is forwarded.
pub fn admission(client_hello: &[u8], cfg: &RealityConfig) -> (r: Admission)
    ensures
        match hello_verdict(
            client_hello@,
            crypto::base64_standard(text::trimmed(cfg.private_key@)),
            texts(cfg.short_ids@),
        ) {
            Ok(_) => r == Admission::Accept,
            Err(e) => r == Admission::Forward(e),
        },
{
    match verify_reality_client(client_hello, cfg) {
        Ok(_) => Admission::Accept,
        Err(e) => Admission::Forward(e),
    }
}

/// Where the configured short identifiers are well formed, a client is taken
/// exactly where its random field ends in one of them.
pub proof fn law_short_id_decides(random: Seq<u8>, short_ids: Seq<Seq<char>>)
    requires
        forall|i: int|
            0 <= i < short_ids.len() ==> hex_of(#[trigger] short_ids[i]) is Some && hex_of(
                short_ids[i],
            )->0.len() <= 8,
    ensures
        random_verdict(random, short_ids) is Ok <==> exists|i: int|
            0 <= i < short_ids.len() && random_ends_in(random, hex_of(#[trigger] short_ids[i])->0),
    decreases short_ids.len(),
{
    if short_ids.len() > 0 {
        let rest = short_ids.skip(1);
        assert forall|i: int| 0 <= i < rest.len() implies hex_of(#[trigger] rest[i]) is Some
            && hex_of(rest[i])->0.len() <= 8 by {
            assert(hex_of(short_ids[i + 1]) is Some);
        }
        law_short_id_decides(random, rest);
        assert(hex_of(short_ids[0]) is Some);
        if random_ends_in(random, hex_of(short_ids[0])->0) {
        } else if random_verdict(random, rest) is Ok {
            let i = choose|i: int|
                0 <= i < rest.len() && random_ends_in(random, hex_of(#[trigger] rest[i])->0);
            assert(short_ids[i + 1] == rest[i]);
        } else {
            assert forall|i: int| 0 <= i < short_ids.len() implies !random_ends_in(
                random,
                hex_of(#[trigger] short_ids[i])->0,
            ) by {
                if i > 0 {
                    assert(rest[i - 1] == short_ids[i]);
                }
            }
        }
    }
}

/// Whether bytes end in others.
pub open spec fn is_behind(s: Seq<u8>, suffix: Seq<u8>) -> bool {
    exists|front: Seq<u8>| s == #[trigger] (front + suffix)
}

/// What bytes end in is what stands at their end.
proof fn lemma_is_behind(s: Seq<u8>, suffix: Seq<u8>)
    ensures
        is_behind(s, suffix) <==> random_ends_in(s, suffix),
{
    if is_behind(s, suffix) {
        let front = choose|front: Seq<u8>| s == #[trigger] (front + suffix);
        assert(s.skip(s.len() - suffix.len()) =~= suffix);
    }
    if random_ends_in(s, suffix) {
        let front = s.take(s.len() - suffix.len());
        assert(s =~= front + suffix);
    }
}

/// A client is taken whose random field is anything and then the bytes of the
/// configured short identifier.
pub proof fn law_short_id_at_the_end(front: Seq<u8>, short_id: Seq<char>)
    requires
        hex_of(short_id) is Some,
        hex_of(short_id)->0.len() <= 8,
    ensures
        random_verdict(front + hex_of(short_id)->0, seq![short_id]) == Ok::<(), RealityError>(()),
{
    let id = hex_of(short_id)->0;
    assert(is_behind(front + id, id));
    lemma_is_behind(front + id, id);
}

/// The configured short identifiers are tried in their order: those that the
/// random field does not end in are passed over, the one that it ends in has the
/// client taken, and one that is malformed has it turned away. Where none is
/// left the client is turned away too.
pub proof fn law_short_ids_are_tried_in_order(
    random: Seq<u8>,
    before: Seq<Seq<char>>,
    short_id: Seq<char>,
    after: Seq<Seq<char>>,
)
    requires
        forall|i: int|
            0 <= i < before.len() ==> hex_of(#[trigger] before[i]) is Some && hex_of(
                before[i],
            )->0.len() <= 8 && !is_behind(random, hex_of(before[i])->0),
    ensures
        random_verdict(random, before) == Err::<(), RealityError>(RealityError::ShortIdMismatch),
        ({
            let got = random_verdict(random, before + seq![short_id] + after);
            match hex_of(short_id) {
                None => got == Err::<(), RealityError>(RealityError::BadShortId),
                Some(id) => {
                    &&& id.len() > 8 ==> got == Err::<(), RealityError>(
                        RealityError::ShortIdTooLong,
                    )
                    &&& id.len() <= 8 && is_behind(random, id) ==> got == Ok::<(), RealityError>(())
                },
            }
        }),
    decreases before.len(),
{
    let all = before + seq![short_id] + after;
    if before.len() == 0 {
        assert(all[0] == short_id);
        if hex_of(short_id) is Some {
            lemma_is_behind(random, hex_of(short_id)->0);
        }
    } else {
        assert(all[0] == before[0]);
        assert(hex_of(before[0]) is Some);
        lemma_is_behind(random, hex_of(before[0])->0);
        assert(all.skip(1) =~= before.skip(1) + seq![short_id] + after);
        let others = before.skip(1);
        assert forall|i: int| 0 <= i < others.len() implies hex_of(#[trigger] others[i]) is Some
            && hex_of(others[i])->0.len() <= 8 && !is_behind(random, hex_of(others[i])->0) by {
            assert(others[i] == before[i + 1]);
        }
        law_short_ids_are_tried_in_order(random, others, short_id, after);
    }
}

/// A hello is judged in this order: 43 bytes, a handshake, a ClientHello, a
/// private key of 32 bytes, and then the 32 bytes of its random field, which
/// stand behind the first 11.
pub proof fn law_order_of_judgement(
    front: Seq<u8>,
    random: Seq<u8>,
    rest: Seq<u8>,
    short: Seq<u8>,
    private_key: Option<Seq<u8>>,
    short_ids: Seq<Seq<char>>,
)
    requires
        front.len() == 11,
        random.len() == 32,
        short.len() < 43,
    ensures
        hello_verdict(short, private_key, short_ids) == Err::<(), RealityError>(
            RealityError::TooShort,
        ),
        ({
            let got = hello_verdict(front + random + rest, private_key, short_ids);
            if front[0] != 22 {
                got == Err::<(), RealityError>(RealityError::NotTls(front[0]))
            } else if front[5] != 1 {
                got == Err::<(), RealityError>(RealityError::NotClientHello)
            } else if private_key is None {
                got == Err::<(), RealityError>(RealityError::BadPrivateKey)
            } else if private_key->0.len() != 32 {
                got == Err::<(), RealityError>(
                    RealityError::BadPrivateKeyLen(private_key->0.len() as usize),
                )
            } else {
                got == random_verdict(random, short_ids)
            }
        }),
        RANDOM_OFFSET == 11,
        RANDOM_LEN == 32,
{
    let hello = front + random + rest;
    assert(hello[0] == front[0] && hello[5] == front[5]);
    assert(hello.subrange(11, 43) =~= random);
}

} // verus!
