//! Writing a log stream whose compressed records are each a ZLIB stream of
//! their own, and whose encrypted records are each sealed under a fresh
//! key pair.

use vstd::prelude::*;
use vstd::string::StringSliceAdditionalSpecFns;
use vstd::utf8::encode_utf8;
use crate::cipher::aes_cfb_ecdh::Cipher;
use crate::cipher::key_pair::{
    lemma_key_pair_owns_its_public_key, spec_is_secret_scalar, spec_owns, spec_public_point,
    KeyPair,
};
use crate::compression::{compress_zlib, spec_zlib_compress};
use crate::io::frame::{
    copy_range, encode_header, lemma_header_parses, spec_header, spec_record, spec_record_len,
};
use crate::io::log_reader::{
    lemma_utf8_text_is_kept, spec_lossy_texts, LogBufReadError, RecordView,
};
use crate::io::log_writer::{
    lemma_plain_record_opens, seal_record, spec_client_secret, spec_opens_at, spec_opens_to,
    spec_seal_record, spec_sealed_in_shape, spec_written_as,
};
use crate::io::primitive::SINGLE_LOG_CONTENT_MAX_LENGTH;
use crate::log_reader::{
    lemma_end_of_stream, lemma_record_then_rest, spec_inflate_payload, spec_read_all,
    spec_read_record, spec_read_records,
};

pub use crate::io::log_writer::LogBufWriteError;
pub use crate::io::primitive::{CompressMode, EncryptMode, Mode};

verus! {

/// The payload that a plaintext gives before encryption: deflated if the
/// mode says so.
pub open spec fn spec_compress_payload(mode: Mode, body: Seq<u8>) -> Result<
    Seq<u8>,
    LogBufWriteError,
> {
    if mode.spec_compress() == CompressMode::Zlib {
        match spec_zlib_compress(body) {
            Some(stream) => Ok(stream),
            None => Err(LogBufWriteError::CompressError),
        }
    } else {
        Ok(body)
    }
}

/// The payload that a plaintext gives before encryption, where there is
/// one.
pub open spec fn spec_payload(mode: Mode, body: Seq<u8>) -> Seq<u8> {
    match spec_compress_payload(mode, body) {
        Ok(payload) => payload,
        Err(_) => Seq::empty(),
    }
}

/// The record that a plaintext is written as, or why there is none.
pub open spec fn spec_write_record(
    mode: Mode,
    peer_text: Seq<char>,
    client_secret: Option<Seq<u8>>,
    iv: Seq<u8>,
    body: Seq<u8>,
) -> Result<Seq<u8>, LogBufWriteError> {
    match spec_compress_payload(mode, body) {
        Err(e) => Err(e),
        Ok(payload) => spec_seal_record(mode, peer_text, client_secret, iv, payload),
    }
}

/// Whether the record `rec` reads back as `plain` for a reader that holds
/// `server`, wherever it stands in a stream.
pub open spec fn spec_reads_back(rec: Seq<u8>, server: Option<Seq<u8>>, plain: Seq<u8>) -> bool {
    forall|prefix: Seq<u8>, rest: Seq<u8>| #[trigger]
        spec_read_record(prefix + rec + rest, prefix.len() as int, server) == Ok::<
            RecordView,
            LogBufReadError,
        >(RecordView::Log { plain, next: (prefix.len() + rec.len()) as int })
}

/// Whether the record `rec` reads back as `plain` for those it was written
/// for: for every reader if it is not encrypted, else for the holder of the
/// secret scalar of the public key `peer_text`.
pub open spec fn spec_reads_back_for_readers(
    rec: Seq<u8>,
    peer_text: Seq<char>,
    encrypt: EncryptMode,
    plain: Seq<u8>,
) -> bool {
    &&& forall|server: Seq<u8>| #[trigger]
        spec_owns(server, peer_text) ==> spec_reads_back(rec, Some(server), plain)
    &&& encrypt == EncryptMode::Off ==> forall|server: Option<Seq<u8>>| #[trigger]
        spec_reads_back(rec, server, plain)
}

/// Appends the 28-byte header to `writer`.
pub fn write_head(writer: &mut Vec<u8>) -> (res: Result<(), LogBufWriteError>)
    ensures
        res is Ok,
        final(writer)@ == old(writer)@ + spec_header(),
        spec_header().len() == 28,
{
    encode_header(writer);
    Ok(())
}

/// A record that opens to a payload reads back as the plaintext that the
/// payload inflates to.
proof fn lemma_opened_record_reads_back(
    rec: Seq<u8>,
    server: Option<Seq<u8>>,
    mode: Mode,
    payload: Seq<u8>,
    plain: Seq<u8>,
)
    requires
        spec_opens_to(rec, server, mode, payload),
        spec_inflate_payload(mode, payload) == Ok::<
            Seq<u8>,
            LogBufReadError,
        >(plain),
        plain.len() <= i64::MAX,
    ensures
        spec_reads_back(rec, server, plain),
{
    assert forall|prefix: Seq<u8>, rest: Seq<u8>| #[trigger]
        spec_read_record(prefix + rec + rest, prefix.len() as int, server) == Ok::<
            RecordView,
            LogBufReadError,
        >(RecordView::Log { plain, next: (prefix.len() + rec.len()) as int }) by {
        assert(spec_opens_at(
            prefix + rec + rest,
            prefix.len() as int,
            rec.len() as int,
            server,
            mode,
            payload,
        ));
    }
}

/// Writes `body` as one record, sealed with the client's key pair and
/// `iv` where the mode asks for encryption: deflates it if the mode says
/// so, encrypts it for the holder of the public key `pub_key`, and appends
/// the framed record to `writer`. Nothing is appended on a failure.
///
/// A record that was written reads back as the bytes of `body`: for every
/// reader if it is not encrypted, else for the holder of the secret scalar
/// of `pub_key`.
pub fn write_single_log_with(
    writer: &mut Vec<u8>,
    mode_tuple: &(CompressMode, EncryptMode),
    pub_key: &str,
    body: &str,
    client: Option<&Cipher>,
    iv: &[u8],
) -> (res: Result<(), LogBufWriteError>)
    requires
        iv@.len() == 16,
    ensures
        spec_written_as(
            spec_write_record(
                Mode::spec_from_modes(mode_tuple.0, mode_tuple.1),
                pub_key@,
                spec_client_secret(client),
                iv@,
                body.spec_bytes(),
            ),
            res,
            old(writer)@,
            final(writer)@,
        ),
        res is Ok && body.spec_bytes().len() <= i64::MAX ==> spec_reads_back_for_readers(
            final(writer)@.skip(old(writer)@.len() as int),
            pub_key@,
            mode_tuple.1,
            body.spec_bytes(),
        ),
        res is Ok ==> spec_sealed_in_shape(
            Mode::spec_from_modes(mode_tuple.0, mode_tuple.1),
            pub_key@,
            spec_client_secret(client),
            iv@,
            spec_payload(Mode::spec_from_modes(mode_tuple.0, mode_tuple.1), body.spec_bytes()),
        ),
        res is Ok ==> final(writer)@.len() == old(writer)@.len() + spec_record_len(
            Mode::spec_from_modes(mode_tuple.0, mode_tuple.1),
            spec_payload(
                Mode::spec_from_modes(mode_tuple.0, mode_tuple.1),
                body.spec_bytes(),
            ).len() as int,
        ),
{
    let mode = Mode::from(mode_tuple);
    let bytes = body.as_bytes();
    let payload = match mode_tuple.0 {
        CompressMode::Off => copy_range(bytes, 0, bytes.len()),
        CompressMode::Zlib => match compress_zlib(bytes) {
            Ok(stream) => stream,
            Err(_) => {
                return Err(LogBufWriteError::CompressError);
            },
        },
    };
    assert(bytes@.subrange(0, bytes@.len() as int) == bytes@);
    let ghost payload_view = payload@;
    let res = seal_record(writer, mode, pub_key, payload, client, iv);
    proof {
        if res is Ok && bytes@.len() <= i64::MAX {
            let rec = spec_seal_record(
                mode,
                pub_key@,
                spec_client_secret(client),
                iv@,
                payload_view,
            )->Ok_0;
            assert(writer@.skip(old(writer)@.len() as int) == rec);
            assert forall|server: Seq<u8>| #[trigger]
                spec_owns(server, pub_key@) implies spec_reads_back(
                rec,
                Some(server),
                bytes@,
            ) by {
                lemma_opened_record_reads_back(rec, Some(server), mode, payload_view, bytes@);
            }
            if mode_tuple.1 == EncryptMode::Off {
                assert forall|server: Option<Seq<u8>>| #[trigger]
                    spec_reads_back(rec, server, bytes@) by {
                    lemma_opened_record_reads_back(rec, server, mode, payload_view, bytes@);
                }
            }
        }
    }
    res
}

/// Writes `body` as one record. Where the mode asks for encryption, the
/// record is sealed for the holder of the public key `pub_key` under a
/// key pair and an IV that are made for this record alone.
///
/// Without encryption the record depends on mode and `body` alone. With
/// it, the record is what [`write_single_log_with`] writes under some
/// secret scalar and some IV. In both cases a record that was written
/// reads back as the bytes of `body` for those it was written for.
pub fn write_single_log(
    writer: &mut Vec<u8>,
    mode_tuple: &(CompressMode, EncryptMode),
    pub_key: &str,
    body: &str,
) -> (res: Result<(), LogBufWriteError>)
    ensures
        mode_tuple.1 == EncryptMode::Off ==> spec_written_as(
            spec_write_record(
                Mode::spec_from_modes(mode_tuple.0, mode_tuple.1),
                pub_key@,
                None,
                Seq::empty(),
                body.spec_bytes(),
            ),
            res,
            old(writer)@,
            final(writer)@,
        ),
        mode_tuple.1 == EncryptMode::Aes ==> exists|client_secret: Seq<u8>, iv: Seq<u8>|
            {
                &&& spec_is_secret_scalar(client_secret)
                &&& iv.len() == 16
                &&& spec_written_as(
                    #[trigger] spec_write_record(
                        Mode::spec_from_modes(mode_tuple.0, mode_tuple.1),
                        pub_key@,
                        Some(client_secret),
                        iv,
                        body.spec_bytes(),
                    ),
                    res,
                    old(writer)@,
                    final(writer)@,
                )
                &&& res is Ok ==> spec_sealed_in_shape(
                    Mode::spec_from_modes(mode_tuple.0, mode_tuple.1),
                    pub_key@,
                    Some(client_secret),
                    iv,
                    spec_payload(
                        Mode::spec_from_modes(mode_tuple.0, mode_tuple.1),
                        body.spec_bytes(),
                    ),
                )
            },
        res is Ok && body.spec_bytes().len() <= i64::MAX ==> spec_reads_back_for_readers(
            final(writer)@.skip(old(writer)@.len() as int),
            pub_key@,
            mode_tuple.1,
            body.spec_bytes(),
        ),
        res is Ok ==> final(writer)@.len() == old(writer)@.len() + spec_record_len(
            Mode::spec_from_modes(mode_tuple.0, mode_tuple.1),
            spec_payload(
                Mode::spec_from_modes(mode_tuple.0, mode_tuple.1),
                body.spec_bytes(),
            ).len() as int,
        ),
{
    match mode_tuple.1 {
        EncryptMode::Off => {
            let iv = [0u8; 16];
            write_single_log_with(writer, mode_tuple, pub_key, body, None, &iv)
        },
        EncryptMode::Aes => {
            let iv = Cipher::random_iv();
            let pair = match KeyPair::random() {
                Ok(pair) => pair,
                Err(_) => {
                    let res = write_single_log_with(writer, mode_tuple, pub_key, body, None, &iv);
                    proof {
                        let mode = Mode::spec_from_modes(mode_tuple.0, mode_tuple.1);
                        let secret = choose|secret: Seq<u8>|
                            spec_is_secret_scalar(secret) && #[trigger] spec_public_point(secret)
                                is None;
                        let bytes = body.spec_bytes();
                        assert(spec_write_record(mode, pub_key@, Some(secret), iv@, bytes)
                            == spec_write_record(mode, pub_key@, None, iv@, bytes));
                    }
                    return res;
                },
            };
            proof {
                lemma_key_pair_owns_its_public_key(pair);
            }
            // The private key of a key pair that was just made is a valid one.
            let client = match Cipher::new(pair.private_key.as_str()) {
                Ok(client) => client,
                Err(_) => {
                    return Err(LogBufWriteError::InvalidKey);
                },
            };
            let res = write_single_log_with(writer, mode_tuple, pub_key, body, Some(&client), &iv);
            proof {
                let mode = Mode::spec_from_modes(mode_tuple.0, mode_tuple.1);
                let secret = pair.spec_secret()->0;
                assert(spec_written_as(
                    spec_write_record(mode, pub_key@, Some(secret), iv@, body.spec_bytes()),
                    res,
                    old(writer)@,
                    writer@,
                ));
            }
            res
        },
    }
}

/// A file of the header and one record that reads back as the UTF-8 bytes
/// of a text reads as that text and nothing else, without a failure.
pub proof fn lemma_written_file_reads_back(rec: Seq<u8>, server: Option<Seq<u8>>, body: Seq<char>)
    requires
        spec_reads_back(rec, server, encode_utf8(body)),
        encode_utf8(body).len() > 0,
    ensures
        spec_read_all(spec_header() + rec, server) == (
            seq![encode_utf8(body)],
            Ok::<(), LogBufReadError>(()),
        ),
        spec_lossy_texts(spec_read_all(spec_header() + rec, server).0) == seq![body],
{
    let plain = encode_utf8(body);
    let data = spec_header() + rec;
    let next = (28 + rec.len()) as int;
    lemma_header_parses(rec);
    assert(data == spec_header() + rec + Seq::<u8>::empty());
    assert(spec_read_record(data, 28, server) == Ok::<RecordView, LogBufReadError>(
        RecordView::Log { plain, next },
    ));
    lemma_record_then_rest(data, 28, server, plain, next);
    lemma_end_of_stream(data, server);
    assert(seq![plain] + Seq::<Seq<u8>>::empty() == seq![plain]);
    lemma_utf8_text_is_kept(body);
    assert(spec_lossy_texts(seq![plain]) == seq![body]);
}

/// The bytes of records written one after the other.
pub open spec fn spec_records(recs: Seq<Seq<u8>>) -> Seq<u8>
    decreases recs.len(),
{
    if recs.len() == 0 {
        Seq::empty()
    } else {
        recs[0] + spec_records(recs.skip(1))
    }
}

/// Whether each of `recs` reads back as the plaintext at its place in
/// `plains`, and none of these is empty.
pub open spec fn spec_all_read_back(
    recs: Seq<Seq<u8>>,
    plains: Seq<Seq<u8>>,
    server: Option<Seq<u8>>,
) -> bool {
    &&& recs.len() == plains.len()
    &&& forall|i: int| 0 <= i < plains.len() ==> (#[trigger] plains[i]).len() > 0
    &&& forall|i: int|
        0 <= i < recs.len() ==> spec_reads_back(#[trigger] recs[i], server, plains[i])
}

/// Records that each read back as a plaintext that is not empty read back
/// one after the other, in the order in which they were written, and
/// reading ends without a failure where the stream ends.
pub proof fn lemma_written_records_read_back(
    prefix: Seq<u8>,
    recs: Seq<Seq<u8>>,
    plains: Seq<Seq<u8>>,
    server: Option<Seq<u8>>,
)
    requires
        spec_all_read_back(recs, plains, server),
    ensures
        spec_read_records(prefix + spec_records(recs), prefix.len() as int, server) == (
            plains,
            Ok::<(), LogBufReadError>(()),
        ),
    decreases recs.len(),
{
    let data = prefix + spec_records(recs);
    if recs.len() == 0 {
        assert(data == prefix);
        lemma_end_of_stream(data, server);
        assert(plains == Seq::<Seq<u8>>::empty());
    } else {
        let rec = recs[0];
        let later = spec_records(recs.skip(1));
        let next = (prefix.len() + rec.len()) as int;
        assert(spec_reads_back(rec, server, plains[0]));
        assert(plains[0].len() > 0);
        assert(data == prefix + rec + later);
        assert(spec_read_record(data, prefix.len() as int, server) == Ok::<
            RecordView,
            LogBufReadError,
        >(RecordView::Log { plain: plains[0], next }));
        lemma_record_then_rest(data, prefix.len() as int, server, plains[0], next);
        assert forall|i: int| 0 <= i < recs.skip(1).len() implies spec_reads_back(
            #[trigger] recs.skip(1)[i],
            server,
            plains.skip(1)[i],
        ) by {
            assert(recs.skip(1)[i] == recs[i + 1]);
            assert(plains.skip(1)[i] == plains[i + 1]);
        }
        assert forall|i: int| 0 <= i < plains.skip(1).len() implies (#[trigger] plains.skip(
            1,
        )[i]).len() > 0 by {
            assert(plains.skip(1)[i] == plains[i + 1]);
        }
        lemma_written_records_read_back(prefix + rec, recs.skip(1), plains.skip(1), server);
        assert(data == (prefix + rec) + later);
        assert(seq![plains[0]] + plains.skip(1) == plains);
    }
}

/// A file of the header and records that each read back as a plaintext
/// that is not empty reads as those plaintexts, in order, without a
/// failure.
pub proof fn lemma_written_file_reads_in_order(
    recs: Seq<Seq<u8>>,
    plains: Seq<Seq<u8>>,
    server: Option<Seq<u8>>,
)
    requires
        spec_all_read_back(recs, plains, server),
    ensures
        spec_read_all(spec_header() + spec_records(recs), server) == (
            plains,
            Ok::<(), LogBufReadError>(()),
        ),
{
    lemma_header_parses(spec_records(recs));
    lemma_written_records_read_back(spec_header(), recs, plains, server);
}

/// Round trip without compression or encryption: a text of 1 to 16384
/// UTF-8 bytes, written behind a header, reads as that text and nothing
/// else, whatever keys and IV writer and reader were given.
pub proof fn lemma_plain_round_trip(
    body: Seq<char>,
    peer_text: Seq<char>,
    client_secret: Option<Seq<u8>>,
    iv: Seq<u8>,
    server: Option<Seq<u8>>,
)
    requires
        1 <= encode_utf8(body).len() <= SINGLE_LOG_CONTENT_MAX_LENGTH,
    ensures
        spec_write_record(Mode::M11, peer_text, client_secret, iv, encode_utf8(body)) matches Ok(
            rec,
        ) && spec_read_all(spec_header() + rec, server) == (
            seq![encode_utf8(body)],
            Ok::<(), LogBufReadError>(()),
        ) && spec_lossy_texts(spec_read_all(spec_header() + rec, server).0) == seq![body],
{
    let plain = encode_utf8(body);
    let rec = spec_record(Mode::M11, iv, Seq::empty(), plain);
    lemma_plain_record_opens(Mode::M11, iv, plain, server);
    lemma_opened_record_reads_back(rec, server, Mode::M11, plain, plain);
    lemma_written_file_reads_back(rec, server, body);
}

/// Without compression or encryption the record depends on the plaintext
/// alone: the same input gives the same bytes, whatever keys and IV the
/// writer was given.
pub proof fn lemma_plain_write_is_deterministic(
    body: Seq<u8>,
    peer_text: Seq<char>,
    client_secret: Option<Seq<u8>>,
    iv: Seq<u8>,
    other_peer_text: Seq<char>,
    other_client_secret: Option<Seq<u8>>,
    other_iv: Seq<u8>,
)
    ensures
        spec_write_record(Mode::M11, peer_text, client_secret, iv, body) == spec_write_record(
            Mode::M11,
            other_peer_text,
            other_client_secret,
            other_iv,
            body,
        ),
{
}

} // verus!
