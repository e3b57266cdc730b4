//! Writing a log stream record by record.

use vstd::prelude::*;
use vstd::string::StringSliceAdditionalSpecFns;
use crate::cipher::aes_cfb_ecdh::{
    spec_aes128_cfb_decrypt, spec_aes128_cfb_encrypt, spec_aes_key, Cipher,
};
use crate::cipher::key_pair::{
    spec_ecdh, spec_is_curve_point, spec_is_secret_scalar, spec_owns, spec_peers_agree,
    spec_public_point,
};
use crate::cipher::CipherError;
use crate::compression::{deflate_chunk, new_deflater};
use crate::encoding::{hex_decode, spec_hex_decode};
use crate::io::frame::{
    copy_range, encode_header, encode_record, lemma_record_is_framed, lemma_record_layout,
    lemma_record_parses, spec_check_sync_marker, spec_header, spec_record, spec_record_len,
    spec_u16_le, spec_valid_length,
};
use crate::io::log_reader::{
    spec_open_frame, spec_read_body, LogBufReadError, OpenedView, RecordView,
};
use crate::io::primitive::{
    CompressMode, EncryptMode, Mode, SINGLE_LOG_CONTENT_MAX_LENGTH, SYNC_MARKER,
};

verus! {

/// Why a record was not written.
#[derive(Debug, Clone, Copy, PartialEq, Eq, Structural)]
pub enum LogBufWriteError {
    /// The server's public key is not hex text, or not a point of the curve.
    InvalidPublicKey,
    /// The writer's own key pair is not one.
    InvalidKey,
    /// The payload is empty or longer than 16 KiB.
    InvalidLogLength,
    /// The payload could not be deflated.
    CompressError,
}

/// Whether the keys let a record of this mode be sealed. Without
/// encryption no key is looked at. With it, the server's public key has to
/// be the hex text of a point of the curve, and the client has to hold a
/// key pair.
pub open spec fn spec_check_keys(
    mode: Mode,
    peer_text: Seq<char>,
    client_secret: Option<Seq<u8>>,
) -> Result<(), LogBufWriteError> {
    if mode.spec_encrypt() == EncryptMode::Aes {
        if spec_hex_decode(peer_text) is None {
            Err(LogBufWriteError::InvalidPublicKey)
        } else if client_secret is None || spec_public_point(client_secret->0) is None {
            Err(LogBufWriteError::InvalidKey)
        } else if !spec_is_curve_point(spec_hex_decode(peer_text)->0) {
            Err(LogBufWriteError::InvalidPublicKey)
        } else {
            Ok(())
        }
    } else {
        Ok(())
    }
}

/// The client key that a record carries: the client's public key, 64
/// bytes, if the record is encrypted, else nothing.
pub open spec fn spec_client_key(mode: Mode, client_secret: Option<Seq<u8>>) -> Seq<u8> {
    if mode.spec_encrypt() == EncryptMode::Aes {
        spec_public_point(client_secret->0)->0
    } else {
        Seq::empty()
    }
}

/// The payload as a record carries it: encrypted for the holder of the
/// public key `peer_text` under the client's secret scalar and `iv`, if the
/// mode says so, else as it is.
pub open spec fn spec_sealed_payload(
    mode: Mode,
    peer_text: Seq<char>,
    client_secret: Option<Seq<u8>>,
    iv: Seq<u8>,
    payload: Seq<u8>,
) -> Seq<u8> {
    if mode.spec_encrypt() == EncryptMode::Aes {
        spec_aes128_cfb_encrypt(
            spec_aes_key(spec_ecdh(client_secret->0, spec_hex_decode(peer_text)->0)),
            iv,
            payload,
        )
    } else {
        payload
    }
}

/// The record that sealing makes of a payload that is already compressed
/// as its mode says: encrypted, if the mode says so, then framed. Or why
/// there is no such record: a key is refused, or the payload is empty or
/// longer than 16 KiB.
pub open spec fn spec_seal_record(
    mode: Mode,
    peer_text: Seq<char>,
    client_secret: Option<Seq<u8>>,
    iv: Seq<u8>,
    payload: Seq<u8>,
) -> Result<Seq<u8>, LogBufWriteError> {
    match spec_check_keys(mode, peer_text, client_secret) {
        Err(e) => Err(e),
        Ok(_) => if !spec_valid_length(payload.len() as int) {
            Err(LogBufWriteError::InvalidLogLength)
        } else {
            Ok(
                spec_record(
                    mode,
                    iv,
                    spec_client_key(mode, client_secret),
                    spec_sealed_payload(mode, peer_text, client_secret, iv, payload),
                ),
            )
        },
    }
}

/// Whether a record that is sealed has the shape of a record: the client
/// key it carries is a point of the curve, 64 bytes, what it carries of the
/// payload has the length of the payload, and so the record has one byte
/// of mode, 80 of IV and client key if it is encrypted, two of length, the
/// payload's, and eight of sync marker.
pub open spec fn spec_sealed_in_shape(
    mode: Mode,
    peer_text: Seq<char>,
    client_secret: Option<Seq<u8>>,
    iv: Seq<u8>,
    payload: Seq<u8>,
) -> bool {
    spec_seal_record(mode, peer_text, client_secret, iv, payload) matches Ok(rec) ==> {
        &&& rec.len() == spec_record_len(mode, payload.len() as int)
        &&& spec_sealed_payload(mode, peer_text, client_secret, iv, payload).len()
            == payload.len()
        &&& mode.spec_encrypt() == EncryptMode::Aes ==> spec_is_curve_point(
            spec_client_key(mode, client_secret),
        )
    }
}

/// Whether the `len` bytes at offset `pos` of `data` are a record that
/// opens to `payload` for a reader that holds `server`: the frame parses,
/// decryption gives `payload`, and the sync marker ends the record.
pub open spec fn spec_opens_at(
    data: Seq<u8>,
    pos: int,
    len: int,
    server: Option<Seq<u8>>,
    mode: Mode,
    payload: Seq<u8>,
) -> bool {
    &&& spec_open_frame(data, pos, server) == Ok::<OpenedView, LogBufReadError>(
        OpenedView::Payload { mode, decrypted: payload, end: pos + len - 8 },
    )
    &&& spec_check_sync_marker(data, pos + len - 8) == Ok::<(), LogBufReadError>(())
    &&& spec_valid_length(payload.len() as int)
}

/// Whether the record `rec` opens to `payload` for a reader that holds
/// `server`, wherever it stands in a stream.
pub open spec fn spec_opens_to(
    rec: Seq<u8>,
    server: Option<Seq<u8>>,
    mode: Mode,
    payload: Seq<u8>,
) -> bool {
    forall|prefix: Seq<u8>, rest: Seq<u8>| #[trigger]
        spec_opens_at(
            prefix + rec + rest,
            prefix.len() as int,
            rec.len() as int,
            server,
            mode,
            payload,
        )
}

/// Whether the record `rec` opens to `payload` for those it was written
/// for: for every reader if it is not encrypted, else for the holder of the
/// secret scalar of the public key `peer_text`.
pub open spec fn spec_opens_for_readers(
    rec: Seq<u8>,
    peer_text: Seq<char>,
    mode: Mode,
    payload: Seq<u8>,
) -> bool {
    &&& forall|server: Seq<u8>| #[trigger]
        spec_owns(server, peer_text) ==> spec_opens_to(rec, Some(server), mode, payload)
    &&& mode.spec_encrypt() == EncryptMode::Off ==> forall|server: Option<Seq<u8>>| #[trigger]
        spec_opens_to(rec, server, mode, payload)
}

/// Whether a step of writing ended as `outcome` says: a record is
/// appended, a failure leaves what was written as it was.
pub open spec fn spec_written_as(
    outcome: Result<Seq<u8>, LogBufWriteError>,
    res: Result<(), LogBufWriteError>,
    before: Seq<u8>,
    after: Seq<u8>,
) -> bool {
    match outcome {
        Ok(rec) => res is Ok && after == before + rec,
        Err(e) => res == Err::<(), LogBufWriteError>(e) && after == before,
    }
}

/// An unencrypted record opens to its payload for every reader.
pub proof fn lemma_plain_record_opens(
    mode: Mode,
    iv: Seq<u8>,
    payload: Seq<u8>,
    server: Option<Seq<u8>>,
)
    requires
        mode.spec_encrypt() == EncryptMode::Off,
        spec_valid_length(payload.len() as int),
    ensures
        spec_opens_to(spec_record(mode, iv, Seq::empty(), payload), server, mode, payload),
{
    let rec = spec_record(mode, iv, Seq::empty(), payload);
    let iv16 = Seq::new(16, |i: int| 0u8);
    let key64 = Seq::new(64, |i: int| 0u8);
    assert(rec == spec_record(mode, iv16, key64, payload));
    assert forall|prefix: Seq<u8>, rest: Seq<u8>| #[trigger]
        spec_opens_at(
            prefix + rec + rest,
            prefix.len() as int,
            rec.len() as int,
            server,
            mode,
            payload,
        ) by {
        lemma_record_parses(prefix, mode, iv16, key64, payload, rest);
    }
}

/// An encrypted record opens to its payload for the holder of the secret
/// scalar of the key it was sealed for.
proof fn lemma_sealed_record_opens(
    mode: Mode,
    iv: Seq<u8>,
    client_secret: Seq<u8>,
    peer: Seq<u8>,
    payload: Seq<u8>,
    server: Seq<u8>,
)
    requires
        mode.spec_encrypt() == EncryptMode::Aes,
        iv.len() == 16,
        spec_valid_length(payload.len() as int),
        spec_public_point(client_secret) matches Some(client_key) && spec_is_curve_point(
            client_key,
        ),
        spec_is_secret_scalar(server),
        spec_public_point(server) == Some(peer),
        spec_peers_agree(client_secret, peer, spec_ecdh(client_secret, peer)),
        ({
            let key = spec_aes_key(spec_ecdh(client_secret, peer));
            let sealed = spec_aes128_cfb_encrypt(key, iv, payload);
            sealed.len() == payload.len() && spec_aes128_cfb_decrypt(key, iv, sealed) == payload
        }),
    ensures
        spec_opens_to(
            spec_record(
                mode,
                iv,
                spec_public_point(client_secret)->0,
                spec_aes128_cfb_encrypt(
                    spec_aes_key(spec_ecdh(client_secret, peer)),
                    iv,
                    payload,
                ),
            ),
            Some(server),
            mode,
            payload,
        ),
{
    let client_key = spec_public_point(client_secret)->0;
    let key = spec_aes_key(spec_ecdh(client_secret, peer));
    let sealed = spec_aes128_cfb_encrypt(key, iv, payload);
    let rec = spec_record(mode, iv, client_key, sealed);
    assert(spec_ecdh(server, client_key) == spec_ecdh(client_secret, peer));
    assert forall|prefix: Seq<u8>, rest: Seq<u8>| #[trigger]
        spec_opens_at(
            prefix + rec + rest,
            prefix.len() as int,
            rec.len() as int,
            Some(server),
            mode,
            payload,
        ) by {
        lemma_record_parses(prefix, mode, iv, client_key, sealed, rest);
    }
}

/// The secret scalar of the client's key pair, if there is a client and
/// its key pair is one.
pub open spec fn spec_client_secret(client: Option<&Cipher>) -> Option<Seq<u8>> {
    match client {
        Some(cipher) => cipher.spec_secret(),
        None => None,
    }
}

/// Judges the keys that a record of this mode would be sealed with,
/// before anything is done to its payload.
pub fn check_keys(mode: Mode, pub_key: &str, client: Option<&Cipher>) -> (res: Result<
    (),
    LogBufWriteError,
>)
    ensures
        res == spec_check_keys(mode, pub_key@, spec_client_secret(client)),
{
    match mode.encrypt() {
        EncryptMode::Off => Ok(()),
        EncryptMode::Aes => {
            let peer = match hex_decode(pub_key) {
                Some(peer) => peer,
                None => {
                    return Err(LogBufWriteError::InvalidPublicKey);
                },
            };
            let client = match client {
                Some(client) => client,
                None => {
                    return Err(LogBufWriteError::InvalidKey);
                },
            };
            match client.get_key_pair().to_public_key_untagged_bytes() {
                Ok(_) => {},
                Err(_) => {
                    return Err(LogBufWriteError::InvalidKey);
                },
            }
            match client.get_shared_key(peer.as_slice()) {
                Ok(_) => Ok(()),
                Err(CipherError::InvalidKey) => Err(LogBufWriteError::InvalidKey),
                Err(CipherError::InvalidPublicKey) => Err(LogBufWriteError::InvalidPublicKey),
            }
        },
    }
}

/// Writes one record of a payload that is already compressed as `mode`
/// says: encrypts it, if `mode` says so, for the holder of the public key
/// `pub_key` with the client's key pair and `iv`, and appends the framed
/// record to `out`. Nothing is appended where a key is refused or missing
/// or the payload is empty or longer than 16 KiB.
///
/// A record that was written opens to `payload` again: for every reader if
/// it is not encrypted, else for the holder of the secret scalar of
/// `pub_key`.
pub fn seal_record(
    out: &mut Vec<u8>,
    mode: Mode,
    pub_key: &str,
    payload: Vec<u8>,
    client: Option<&Cipher>,
    iv: &[u8],
) -> (res: Result<(), LogBufWriteError>)
    requires
        iv@.len() == 16,
    ensures
        spec_written_as(
            spec_seal_record(mode, pub_key@, spec_client_secret(client), iv@, payload@),
            res,
            old(out)@,
            final(out)@,
        ),
        spec_seal_record(mode, pub_key@, spec_client_secret(client), iv@, payload@) matches Ok(
            rec,
        ) ==> spec_opens_for_readers(rec, pub_key@, mode, payload@),
        spec_sealed_in_shape(mode, pub_key@, spec_client_secret(client), iv@, payload@),
        res is Ok ==> final(out)@.len() == old(out)@.len() + spec_record_len(
            mode,
            payload@.len() as int,
        ),
{
    let mut buf = payload;
    match mode.encrypt() {
        EncryptMode::Aes => {
            let peer = match hex_decode(pub_key) {
                Some(peer) => peer,
                None => {
                    return Err(LogBufWriteError::InvalidPublicKey);
                },
            };
            let client = match client {
                Some(client) => client,
                None => {
                    return Err(LogBufWriteError::InvalidKey);
                },
            };
            let client_key = match client.get_key_pair().to_public_key_untagged_bytes() {
                Ok(client_key) => client_key,
                Err(_) => {
                    return Err(LogBufWriteError::InvalidKey);
                },
            };
            match client.encrypt_inplace(peer.as_slice(), iv, &mut buf) {
                Ok(_) => {},
                Err(CipherError::InvalidKey) => {
                    return Err(LogBufWriteError::InvalidKey);
                },
                Err(CipherError::InvalidPublicKey) => {
                    return Err(LogBufWriteError::InvalidPublicKey);
                },
            }
            if !encode_record(out, mode, iv, client_key.as_slice(), buf.as_slice()) {
                return Err(LogBufWriteError::InvalidLogLength);
            }
            proof {
                let secret = client.spec_secret()->0;
                let rec = spec_record(mode, iv@, client_key@, buf@);
                lemma_record_is_framed(mode, iv@, client_key@, buf@);
                assert forall|server: Seq<u8>| #[trigger]
                    spec_owns(server, pub_key@) implies spec_opens_to(
                    rec,
                    Some(server),
                    mode,
                    payload@,
                ) by {
                    lemma_sealed_record_opens(mode, iv@, secret, peer@, payload@, server);
                }
            }
            Ok(())
        },
        EncryptMode::Off => {
            let no_key: Vec<u8> = Vec::new();
            if !encode_record(out, mode, iv, no_key.as_slice(), buf.as_slice()) {
                return Err(LogBufWriteError::InvalidLogLength);
            }
            proof {
                let rec = spec_record(mode, iv@, Seq::empty(), payload@);
                assert(no_key@ == Seq::<u8>::empty());
                let iv16 = Seq::new(16, |i: int| 0u8);
                let key64 = Seq::new(64, |i: int| 0u8);
                assert(rec == spec_record(mode, iv16, key64, payload@));
                lemma_record_is_framed(mode, iv16, key64, payload@);
                assert forall|server: Option<Seq<u8>>| #[trigger]
                    spec_opens_to(rec, server, mode, payload@) by {
                    lemma_plain_record_opens(mode, iv@, payload@, server);
                }
                assert forall|server: Seq<u8>| #[trigger]
                    spec_owns(server, pub_key@) implies spec_opens_to(
                    rec,
                    Some(server),
                    mode,
                    payload@,
                ) by {
                    lemma_plain_record_opens(mode, iv@, payload@, Some(server));
                }
            }
            Ok(())
        },
    }
}

/// A record that is not compressed and opens to a payload reads back as
/// that payload under a reader whose compressed records are chunks of one
/// ZLIB stream, whatever that stream would have made of it.
pub proof fn lemma_opened_record_streams_back(
    rec: Seq<u8>,
    server: Option<Seq<u8>>,
    mode: Mode,
    payload: Seq<u8>,
    prefix: Seq<u8>,
    rest: Seq<u8>,
    inflated: Option<Seq<u8>>,
)
    requires
        spec_opens_to(rec, server, mode, payload),
        mode.spec_compress() == CompressMode::Off,
    ensures
        spec_read_body(prefix + rec + rest, prefix.len() as int, server, inflated) == Ok::<
            RecordView,
            LogBufReadError,
        >(RecordView::Log { plain: payload, next: (prefix.len() + rec.len()) as int }),
{
    assert(spec_opens_at(
        prefix + rec + rest,
        prefix.len() as int,
        rec.len() as int,
        server,
        mode,
        payload,
    ));
}

/// Where the parts of a sealed record stand in it. An encrypted record has
/// the IV at 1..17, the client's public key at 17..81, the length of the
/// payload at 81..83 and the encrypted payload behind it; a record that is
/// not encrypted has the length at 1..3 and the payload behind it.
pub proof fn lemma_sealed_record_layout(
    mode: Mode,
    peer_text: Seq<char>,
    client_secret: Option<Seq<u8>>,
    iv: Seq<u8>,
    payload: Seq<u8>,
)
    requires
        iv.len() == 16,
        spec_seal_record(mode, peer_text, client_secret, iv, payload) is Ok,
        spec_sealed_in_shape(mode, peer_text, client_secret, iv, payload),
    ensures
        ({
            let rec = spec_seal_record(mode, peer_text, client_secret, iv, payload)->Ok_0;
            let n = payload.len() as int;
            let length_at: int = if mode.spec_encrypt() == EncryptMode::Aes {
                81
            } else {
                1
            };
            &&& rec.len() == length_at + 2 + n + 8
            &&& rec[0] == mode.spec_to_u8()
            &&& mode.spec_encrypt() == EncryptMode::Aes ==> rec.subrange(1, 17) == iv
                && rec.subrange(17, 81) == spec_client_key(mode, client_secret)
            &&& rec.subrange(length_at, length_at + 2) == spec_u16_le(n)
            &&& rec.subrange(length_at + 2, length_at + 2 + n) == spec_sealed_payload(
                mode,
                peer_text,
                client_secret,
                iv,
                payload,
            )
            &&& rec.subrange(length_at + 2 + n, length_at + 2 + n + 8) == SYNC_MARKER@
        }),
{
    let sealed = spec_sealed_payload(mode, peer_text, client_secret, iv, payload);
    let n = payload.len() as int;
    let rec = spec_seal_record(mode, peer_text, client_secret, iv, payload)->Ok_0;
    if mode.spec_encrypt() == EncryptMode::Aes {
        lemma_record_layout(mode, iv, spec_client_key(mode, client_secret), sealed);
        assert(rec.subrange(81, 83) == spec_u16_le(n));
    } else {
        let key64 = Seq::new(64, |i: int| 0u8);
        assert(rec == spec_record(mode, iv, key64, sealed));
        lemma_record_layout(mode, iv, key64, sealed);
        assert(rec.subrange(1, 3) == spec_u16_le(n));
    }
}

/// Sealed records that carry different IVs or different client keys
/// differ.
pub proof fn lemma_sealed_records_differ(
    mode: Mode,
    iv: Seq<u8>,
    client_key: Seq<u8>,
    payload: Seq<u8>,
    other_iv: Seq<u8>,
    other_client_key: Seq<u8>,
    other_payload: Seq<u8>,
)
    requires
        mode.spec_encrypt() == EncryptMode::Aes,
        iv.len() == 16,
        other_iv.len() == 16,
        client_key.len() == 64,
        other_client_key.len() == 64,
        iv != other_iv || client_key != other_client_key,
    ensures
        spec_record(mode, iv, client_key, payload) != spec_record(
            mode,
            other_iv,
            other_client_key,
            other_payload,
        ),
{
    lemma_record_layout(mode, iv, client_key, payload);
    lemma_record_layout(mode, other_iv, other_client_key, other_payload);
}

/// A record that was sealed begins with its mode byte and ends with the
/// sync marker, and its payload has 1 to 16384 bytes.
pub proof fn lemma_sealed_record_is_framed(
    mode: Mode,
    peer_text: Seq<char>,
    client_secret: Option<Seq<u8>>,
    iv: Seq<u8>,
    payload: Seq<u8>,
)
    ensures
        spec_seal_record(mode, peer_text, client_secret, iv, payload) matches Ok(rec) ==> {
            &&& rec[0] == mode.spec_to_u8()
            &&& rec.len() >= 11
            &&& rec.subrange(rec.len() - 8, rec.len() as int) == SYNC_MARKER@
            &&& spec_valid_length(payload.len() as int)
        },
{
    if spec_seal_record(mode, peer_text, client_secret, iv, payload) is Ok {
        if mode.spec_encrypt() == EncryptMode::Aes {
            let peer = spec_hex_decode(peer_text)->0;
            let key = spec_aes_key(spec_ecdh(client_secret->0, peer));
            lemma_record_is_framed(
                mode,
                iv,
                spec_public_point(client_secret->0)->0,
                spec_aes128_cfb_encrypt(key, iv, payload),
            );
        } else {
            lemma_record_is_framed(mode, iv, Seq::empty(), payload);
        }
    }
}

/// The payload of a record before it is sealed, for a writer whose
/// compressed records are chunks of one ZLIB stream: the plaintext, or
/// what the stream made of it.
pub open spec fn spec_stream_payload(mode: Mode, body: Seq<u8>, deflated: Option<Seq<u8>>) -> Seq<
    u8,
> {
    if mode.spec_compress() == CompressMode::Zlib {
        deflated->0
    } else {
        body
    }
}

/// The record that a writer whose compressed records are chunks of one
/// ZLIB stream makes of a plaintext, or why there is none. The keys are
/// judged first, so that the stream is fed nothing of a record that is
/// refused for its keys. What a chunk deflates to depends on the chunks
/// before it: `deflated` is what the stream made of this one, `None` where
/// it failed.
pub open spec fn spec_write_body(
    mode: Mode,
    peer_text: Seq<char>,
    client_secret: Option<Seq<u8>>,
    iv: Seq<u8>,
    body: Seq<u8>,
    deflated: Option<Seq<u8>>,
) -> Result<Seq<u8>, LogBufWriteError> {
    match spec_check_keys(mode, peer_text, client_secret) {
        Err(e) => Err(e),
        Ok(_) => if mode.spec_compress() == CompressMode::Zlib && deflated is None {
            Err(LogBufWriteError::CompressError)
        } else {
            spec_seal_record(
                mode,
                peer_text,
                client_secret,
                iv,
                spec_stream_payload(mode, body, deflated),
            )
        },
    }
}

/// Whether a step of a writer whose compressed records are chunks of one
/// ZLIB stream ended as its IV and what the stream made of the plaintext
/// say: the IV has 16 bytes; what was written is the record of
/// [`spec_write_body`], or nothing where there is none; a record that was
/// written has the shape of a record; and one that is not compressed opens
/// to the plaintext for those it was written for.
pub open spec fn spec_stream_written_as(
    mode: Mode,
    peer_text: Seq<char>,
    client_secret: Option<Seq<u8>>,
    iv: Seq<u8>,
    body: Seq<u8>,
    deflated: Option<Seq<u8>>,
    res: Result<(), LogBufWriteError>,
    before: Seq<u8>,
    after: Seq<u8>,
) -> bool {
    let outcome = spec_write_body(mode, peer_text, client_secret, iv, body, deflated);
    let payload = spec_stream_payload(mode, body, deflated);
    &&& iv.len() == 16
    &&& spec_written_as(outcome, res, before, after)
    &&& res is Ok ==> spec_sealed_in_shape(mode, peer_text, client_secret, iv, payload)
    &&& mode.spec_compress() == CompressMode::Off ==> (outcome matches Ok(rec)
        ==> spec_opens_for_readers(rec, peer_text, mode, body))
}

/// A writer into a buffer held in memory, with the key pair that its
/// encrypted records are sealed under and the ZLIB stream that its
/// compressed records are chunks of.
pub struct LogBufWriterV4<'a> {
    writer: Vec<u8>,
    cipher: &'a Cipher,
    compressor: flate2::Compress,
}

impl<'a> LogBufWriterV4<'a> {
    /// What has been written.
    pub closed spec fn spec_written(&self) -> Seq<u8> {
        self.writer@
    }

    /// The secret scalar of the writer's key pair.
    pub closed spec fn spec_secret(&self) -> Option<Seq<u8>> {
        self.cipher.spec_secret()
    }

    /// A writer that appends to `writer`, with a fresh ZLIB stream.
    pub fn new(writer: Vec<u8>, cipher: &'a Cipher) -> (res: LogBufWriterV4<'a>)
        ensures
            res.spec_written() == writer@,
            res.spec_secret() == cipher.spec_secret(),
    {
        LogBufWriterV4 { writer, cipher, compressor: new_deflater() }
    }

    /// The buffer that the writer appends to.
    pub fn into_inner(&mut self) -> (inner: &mut Vec<u8>)
        ensures
            inner@ == old(self).spec_written(),
            final(self).spec_written() == final(inner)@,
            final(self).spec_secret() == old(self).spec_secret(),
    {
        &mut self.writer
    }

    /// Appends the 28-byte header.
    pub fn write_head(&mut self) -> (res: Result<(), LogBufWriteError>)
        ensures
            res is Ok,
            final(self).spec_written() == old(self).spec_written() + spec_header(),
            final(self).spec_secret() == old(self).spec_secret(),
            spec_header().len() == 28,
    {
        encode_header(&mut self.writer);
        Ok(())
    }

    /// Feeds `bytes` to the writer's ZLIB stream and returns what it
    /// deflates to after a sync flush. There is room for a little more than
    /// the 16 KiB of a payload; what does not fit is cut off, and the chunk
    /// is then too long for a record.
    pub fn compress_zlib(&mut self, bytes: &[u8]) -> (res: Result<Vec<u8>, LogBufWriteError>)
        ensures
            final(self).spec_written() == old(self).spec_written(),
            final(self).spec_secret() == old(self).spec_secret(),
            res matches Err(e) ==> e == LogBufWriteError::CompressError,
    {
        match deflate_chunk(&mut self.compressor, bytes, SINGLE_LOG_CONTENT_MAX_LENGTH + 64) {
            Some(chunk) => Ok(chunk),
            None => Err(LogBufWriteError::CompressError),
        }
    }

    /// Writes `body` as one record: judges the keys, deflates `body` if the
    /// mode says so, encrypts it, if the mode says so, for the holder of
    /// the public key `pub_key` under the writer's key pair and a fresh
    /// IV, and appends the framed record. Nothing is appended on a failure,
    /// and where a key is refused the ZLIB stream is fed nothing. Only
    /// where what the stream made of `body` is then too long for a record
    /// has the stream taken `body` in without a record to show for it.
    ///
    /// The payload of a compressed record is what the writer's ZLIB stream
    /// makes of `body`. A record that is not compressed opens to the bytes
    /// of `body`: for every reader if it is not encrypted, else for the
    /// holder of the secret scalar of `pub_key`.
    pub fn write_single_log(
        &mut self,
        mode_tuple: &(CompressMode, EncryptMode),
        pub_key: &str,
        body: &str,
    ) -> (res: Result<(), LogBufWriteError>)
        ensures
            final(self).spec_secret() == old(self).spec_secret(),
            exists|iv: Seq<u8>, deflated: Option<Seq<u8>>| #[trigger]
                spec_stream_written_as(
                    Mode::spec_from_modes(mode_tuple.0, mode_tuple.1),
                    pub_key@,
                    old(self).spec_secret(),
                    iv,
                    body.spec_bytes(),
                    deflated,
                    res,
                    old(self).spec_written(),
                    final(self).spec_written(),
                ),
            res is Ok && mode_tuple.0 == CompressMode::Off ==> final(self).spec_written().len()
                == old(self).spec_written().len() + spec_record_len(
                Mode::spec_from_modes(mode_tuple.0, mode_tuple.1),
                body.spec_bytes().len() as int,
            ),
    {
        let ghost secret = self.spec_secret();
        let ghost before = self.spec_written();
        let mode = Mode::from(mode_tuple);
        let bytes = body.as_bytes();
        let iv = Cipher::random_iv();
        match check_keys(mode, pub_key, Some(self.cipher)) {
            Ok(_) => {},
            Err(e) => {
                assert(spec_stream_written_as(
                    mode,
                    pub_key@,
                    secret,
                    iv@,
                    bytes@,
                    None,
                    Err(e),
                    before,
                    before,
                ));
                return Err(e);
            },
        }
        let payload = match mode_tuple.0 {
            CompressMode::Off => copy_range(bytes, 0, bytes.len()),
            CompressMode::Zlib => match self.compress_zlib(bytes) {
                Ok(chunk) => chunk,
                Err(e) => {
                    assert(spec_stream_written_as(
                        mode,
                        pub_key@,
                        secret,
                        iv@,
                        bytes@,
                        None,
                        Err(e),
                        before,
                        before,
                    ));
                    return Err(e);
                },
            },
        };
        assert(bytes@.subrange(0, bytes@.len() as int) == bytes@);
        let ghost deflated = Some(payload@);
        let res = seal_record(&mut self.writer, mode, pub_key, payload, Some(self.cipher), &iv);
        assert(spec_stream_written_as(
            mode,
            pub_key@,
            secret,
            iv@,
            bytes@,
            deflated,
            res,
            before,
            self.spec_written(),
        ));
        res
    }
}

} // verus!
