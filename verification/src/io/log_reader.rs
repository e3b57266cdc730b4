//! Reading a log stream record by record.

use vstd::prelude::*;
use vstd::utf8::{decode_utf8, encode_utf8, valid_utf8};
use crate::cipher::aes_cfb_ecdh::{spec_aes128_cfb_decrypt, spec_aes_key, Cipher};
use crate::cipher::key_pair::{spec_ecdh, spec_is_curve_point};
use crate::compression::{inflate_chunk, new_inflater};
use crate::io::frame::{
    append_bytes, check_sync_marker, parse_frame, parse_header, spec_parse_frame,
    spec_parse_header, Frame, FrameView, Parsed, ParsedView,
};
use crate::io::primitive::{
    CompressMode, EncryptMode, Mode, SINGLE_LOG_CONTENT_MAX_LENGTH, SYNC_MARKER,
};

verus! {

/// Why reading a log stream stopped with a failure.
#[derive(Debug, Clone, Copy, PartialEq, Eq, Structural)]
pub enum LogBufReadError {
    /// The stream ended in the middle of the header.
    IoError,
    /// The private key is not the hex form of a valid scalar.
    InvalidSecret,
    /// The stream does not start with the magic number.
    InValidMagicNumber,
    /// The version byte is neither 3 nor 4.
    InvalidVersion,
    /// The eight bytes after a header or a payload are not the sync marker.
    InvalidSyncMarker,
    /// A record declares a payload of zero or of more than 16 KiB bytes.
    InvalidLogLength,
    /// The client key of a record is not a point of the curve, or the
    /// reader's key pair is not one.
    DecryptionError,
    /// The payload does not inflate.
    DecompressError,
}

/// A record whose payload has been decrypted: either a soft stop, or the
/// mode, the decrypted payload and the offset of the sync marker.
pub enum Opened {
    /// `-1`, `-2`, `-3` as for a frame; `-5` where decryption left nothing.
    Stop(i64),
    Payload { mode: Mode, decrypted: Vec<u8>, end: usize },
}

/// The mathematical content of an [`Opened`].
pub enum OpenedView {
    Stop(int),
    Payload { mode: Mode, decrypted: Seq<u8>, end: int },
}

impl View for Opened {
    type V = OpenedView;

    open spec fn view(&self) -> OpenedView {
        match self {
            Opened::Stop(code) => OpenedView::Stop(*code as int),
            Opened::Payload { mode, decrypted, end } => OpenedView::Payload {
                mode: *mode,
                decrypted: decrypted@,
                end: *end as int,
            },
        }
    }
}

/// What one step of reading yields: a soft stop, or the plaintext of a
/// record and the offset of the next.
pub enum RecordView {
    Stop(int),
    Log { plain: Seq<u8>, next: int },
}

/// The payload of a frame after decryption with the reader's secret
/// scalar. An unencrypted payload is itself.
pub open spec fn spec_decrypt_payload(secret: Option<Seq<u8>>, frame: FrameView) -> Result<
    Seq<u8>,
    LogBufReadError,
> {
    if frame.mode.spec_encrypt() == EncryptMode::Aes {
        if secret is Some && spec_is_curve_point(frame.client_key) {
            Ok(
                spec_aes128_cfb_decrypt(
                    spec_aes_key(spec_ecdh(secret->0, frame.client_key)),
                    frame.iv,
                    frame.payload,
                ),
            )
        } else {
            Err(LogBufReadError::DecryptionError)
        }
    } else {
        Ok(frame.payload)
    }
}

/// The record at offset `pos` with its payload decrypted.
pub open spec fn spec_open_frame(data: Seq<u8>, pos: int, secret: Option<Seq<u8>>) -> Result<
    OpenedView,
    LogBufReadError,
> {
    match spec_parse_frame(data, pos) {
        Err(e) => Err(e),
        Ok(ParsedView::Stop(code)) => Ok(OpenedView::Stop(code)),
        Ok(ParsedView::Frame(frame)) => match spec_decrypt_payload(secret, frame) {
            Err(e) => Err(e),
            Ok(decrypted) => if frame.mode.spec_encrypt() == EncryptMode::Aes && decrypted.len()
                == 0 {
                Ok(OpenedView::Stop(-5))
            } else {
                Ok(OpenedView::Payload { mode: frame.mode, decrypted, end: frame.end })
            },
        },
    }
}

/// What a record yields once its plaintext is known: the sync marker must
/// stand at offset `end`. Where the stream ends before the marker does, the
/// record is cut off and ends the stream with the stop `-1`. A plaintext
/// too long for its length to be returned counts as one that did not
/// inflate.
pub open spec fn spec_deliver(data: Seq<u8>, end: int, plain: Seq<u8>) -> Result<
    RecordView,
    LogBufReadError,
> {
    if data.len() < end + 8 {
        Ok(RecordView::Stop(-1))
    } else if plain.len() > i64::MAX {
        Err(LogBufReadError::DecompressError)
    } else if data.subrange(end, end + 8) != SYNC_MARKER@ {
        Err(LogBufReadError::InvalidSyncMarker)
    } else {
        Ok(RecordView::Log { plain, next: end + 8 })
    }
}

/// Parses the record at offset `pos` and decrypts its payload.
pub fn open_frame(data: &[u8], pos: usize, cipher: &Cipher) -> (res: Result<
    Opened,
    LogBufReadError,
>)
    ensures
        res matches Ok(opened) ==> spec_open_frame(data@, pos as int, cipher.spec_secret()) == Ok::<
            OpenedView,
            LogBufReadError,
        >(opened@),
        res matches Err(e) ==> spec_open_frame(data@, pos as int, cipher.spec_secret()) == Err::<
            OpenedView,
            LogBufReadError,
        >(e),
        res matches Ok(Opened::Payload { decrypted, end, .. }) ==> pos < end && end + 8
            <= data@.len() && 0 < decrypted@.len() <= SINGLE_LOG_CONTENT_MAX_LENGTH,
{
    let frame = match parse_frame(data, pos) {
        Err(e) => {
            return Err(e);
        },
        Ok(Parsed::Stop(code)) => {
            return Ok(Opened::Stop(code));
        },
        Ok(Parsed::Frame(frame)) => frame,
    };
    let Frame { mode, iv, client_key, payload, end } = frame;
    let mut buf = payload;
    match mode.encrypt() {
        EncryptMode::Aes => {
            match cipher.decrypt_inplace(client_key.as_slice(), iv.as_slice(), &mut buf) {
                Ok(_) => {},
                Err(_) => {
                    return Err(LogBufReadError::DecryptionError);
                },
            }
            if buf.len() == 0 {
                return Ok(Opened::Stop(-5));
            }
        },
        EncryptMode::Off => {},
    }
    Ok(Opened::Payload { mode, decrypted: buf, end })
}

/// Checks the sync marker at offset `end` and, where it stands, hands
/// `plain` over in `out_buffer` and returns its length. A stop or a failure
/// leaves `out_buffer` as it was.
pub fn deliver(data: &[u8], end: usize, plain: Vec<u8>, out_buffer: &mut Vec<u8>) -> (res: Result<
    i64,
    LogBufReadError,
>)
    ensures
        match spec_deliver(data@, end as int, plain@) {
            Ok(RecordView::Log { plain: delivered, next }) => {
                &&& res == Ok::<i64, LogBufReadError>(delivered.len() as i64)
                &&& delivered == plain@
                &&& final(out_buffer)@ == plain@
                &&& next == end + 8
                &&& end + 8 <= data@.len()
                &&& end + 8 <= usize::MAX
            },
            Ok(RecordView::Stop(code)) => {
                &&& res == Ok::<i64, LogBufReadError>(code as i64)
                &&& code == -1
                &&& final(out_buffer)@ == old(out_buffer)@
            },
            Err(e) => {
                &&& res == Err::<i64, LogBufReadError>(e)
                &&& final(out_buffer)@ == old(out_buffer)@
            },
        },
{
    if data.len() < end || data.len() - end < 8 {
        return Ok(-1);
    }
    if plain.len() as u64 > 0x7fff_ffff_ffff_ffff {
        return Err(LogBufReadError::DecompressError);
    }
    match check_sync_marker(data, end) {
        Err(e) => Err(e),
        Ok(_) => {
            let n = plain.len() as i64;
            *out_buffer = plain;
            Ok(n)
        },
    }
}

/// The text that bytes which are not UTF-8 are handed over as: what of
/// them is UTF-8 decoded, with U+FFFD in place of the rest.
pub uninterp spec fn spec_utf8_replaced(bytes: Seq<u8>) -> Seq<char>;

/// The text that `bytes` are handed over as: their UTF-8 decoding, lossy
/// where they are not UTF-8.
pub open spec fn spec_utf8_lossy(bytes: Seq<u8>) -> Seq<char> {
    if valid_utf8(bytes) {
        decode_utf8(bytes)
    } else {
        spec_utf8_replaced(bytes)
    }
}

/// The texts of a sequence of plaintexts.
pub open spec fn spec_lossy_texts(logs: Seq<Seq<u8>>) -> Seq<Seq<char>> {
    logs.map_values(|bytes: Seq<u8>| spec_utf8_lossy(bytes))
}

/// The characters of each string of a sequence.
pub open spec fn spec_texts(strings: Seq<String>) -> Seq<Seq<char>> {
    strings.map_values(|s: String| s@)
}

/// `String::from_utf8_lossy`: valid UTF-8 is decoded as it is.
#[verifier::external_body]
pub(crate) fn utf8_lossy(bytes: &[u8]) -> (text: String)
    ensures
        valid_utf8(bytes@) ==> text@ == decode_utf8(bytes@),
        !valid_utf8(bytes@) ==> text@ == spec_utf8_replaced(bytes@),
{
    String::from_utf8_lossy(bytes).into_owned()
}

/// Text that was encoded as UTF-8 is handed over as it was.
pub proof fn lemma_utf8_text_is_kept(text: Seq<char>)
    ensures
        spec_utf8_lossy(encode_utf8(text)) == text,
{
    vstd::utf8::encode_utf8_valid_utf8(text);
    vstd::utf8::encode_utf8_decode_utf8(text);
}

/// The content of `output` once it has taken what a ZLIB stream made of
/// a chunk: the inflated bytes are appended. They are refused where the
/// stream failed (`None`) or where they are more than 16 KiB.
pub open spec fn spec_take_chunk(inflated: Option<Seq<u8>>, output: Seq<u8>) -> Result<
    Seq<u8>,
    LogBufReadError,
> {
    if inflated is Some && inflated->0.len() <= SINGLE_LOG_CONTENT_MAX_LENGTH {
        Ok(output + inflated->0)
    } else {
        Err(LogBufReadError::DecompressError)
    }
}

/// Whether taking a chunk ended as `outcome` says: the new content is in
/// place and its length returned, or `output` is as it was.
pub open spec fn spec_chunk_taken(
    outcome: Result<Seq<u8>, LogBufReadError>,
    res: Result<usize, LogBufReadError>,
    before: Seq<u8>,
    after: Seq<u8>,
) -> bool {
    match outcome {
        Ok(all) => res == Ok::<usize, LogBufReadError>(all.len() as usize) && after == all,
        Err(e) => res == Err::<usize, LogBufReadError>(e) && after == before,
    }
}

/// The bytes of an inflated chunk, if there is one.
pub open spec fn spec_chunk(chunk: Option<Vec<u8>>) -> Option<Seq<u8>> {
    match chunk {
        Some(bytes) => Some(bytes@),
        None => None,
    }
}

/// Takes what a ZLIB stream made of a chunk: appends the inflated bytes to
/// `output` and returns its new length. Where the stream failed, or where
/// it gave more than 16 KiB, `output` stays as it is and the chunk is
/// refused.
pub fn take_chunk(chunk: Option<Vec<u8>>, output: &mut Vec<u8>) -> (res: Result<
    usize,
    LogBufReadError,
>)
    ensures
        spec_chunk_taken(
            spec_take_chunk(spec_chunk(chunk), old(output)@),
            res,
            old(output)@,
            final(output)@,
        ),
{
    let bytes = match chunk {
        Some(bytes) => bytes,
        None => {
            return Err(LogBufReadError::DecompressError);
        },
    };
    if bytes.len() > SINGLE_LOG_CONTENT_MAX_LENGTH {
        return Err(LogBufReadError::DecompressError);
    }
    append_bytes(output, bytes.as_slice());
    Ok(output.len())
}

/// What reading one record at offset `pos` yields for a reader whose
/// compressed records are chunks of one ZLIB stream. What a chunk inflates
/// to depends on the chunks before it: `inflated` is what the stream made
/// of this one, `None` where it failed. More than 16 KiB count as a failure.
pub open spec fn spec_read_body(
    data: Seq<u8>,
    pos: int,
    secret: Option<Seq<u8>>,
    inflated: Option<Seq<u8>>,
) -> Result<RecordView, LogBufReadError> {
    match spec_open_frame(data, pos, secret) {
        Err(e) => Err(e),
        Ok(OpenedView::Stop(code)) => Ok(RecordView::Stop(code)),
        Ok(OpenedView::Payload { mode, decrypted, end }) => if mode.spec_compress()
            == CompressMode::Zlib {
            if inflated is Some && inflated->0.len() <= SINGLE_LOG_CONTENT_MAX_LENGTH {
                spec_deliver(data, end, inflated->0)
            } else {
                Err(LogBufReadError::DecompressError)
            }
        } else {
            spec_deliver(data, end, decrypted)
        },
    }
}

/// Whether a step of reading ended as `outcome` says: a record hands over
/// its plaintext and moves the reader behind it; a soft stop or a failure
/// leaves reader and buffer as they were.
pub open spec fn spec_step_matches(
    outcome: Result<RecordView, LogBufReadError>,
    res: Result<i64, LogBufReadError>,
    old_position: int,
    new_position: int,
    old_buffer: Seq<u8>,
    new_buffer: Seq<u8>,
) -> bool {
    match outcome {
        Ok(RecordView::Log { plain, next }) => {
            &&& res == Ok::<i64, LogBufReadError>(plain.len() as i64)
            &&& plain.len() <= i64::MAX
            &&& new_position == next
            &&& old_position < next
            &&& new_buffer == plain
        },
        Ok(RecordView::Stop(code)) => {
            &&& res == Ok::<i64, LogBufReadError>(code as i64)
            &&& -5 <= code <= -1
            &&& new_position == old_position
            &&& new_buffer == old_buffer
        },
        Err(e) => {
            &&& res == Err::<i64, LogBufReadError>(e)
            &&& new_position == old_position
            &&& new_buffer == old_buffer
        },
    }
}

/// The plaintexts of the records from offset `pos` on, in order, up to the
/// first soft stop, empty plaintext or failure, and how reading ended, for a
/// reader whose compressed records are chunks of one ZLIB stream.
/// `answers` holds what the stream made of the payload of each record in
/// turn; where they run out, the stream counts as failed.
pub open spec fn spec_read_stream(
    data: Seq<u8>,
    pos: int,
    secret: Option<Seq<u8>>,
    answers: Seq<Option<Seq<u8>>>,
) -> (Seq<Seq<u8>>, Result<(), LogBufReadError>)
    decreases data.len() - pos,
{
    let answer = if answers.len() > 0 {
        answers[0]
    } else {
        None
    };
    match spec_read_body(data, pos, secret, answer) {
        Err(e) => (Seq::empty(), Err(e)),
        Ok(RecordView::Stop(_)) => (Seq::empty(), Ok(())),
        Ok(RecordView::Log { plain, next }) => if plain.len() == 0 {
            (Seq::empty(), Ok(()))
        } else {
            let rest = spec_read_stream(data, next, secret, answers.skip(1));
            (seq![plain] + rest.0, rest.1)
        },
    }
}

/// The plaintexts of a whole stream that starts at offset `pos`, header
/// first, and how reading ended.
pub open spec fn spec_read_stream_all(
    data: Seq<u8>,
    pos: int,
    secret: Option<Seq<u8>>,
    answers: Seq<Option<Seq<u8>>>,
) -> (Seq<Seq<u8>>, Result<(), LogBufReadError>) {
    match spec_parse_header(data, pos) {
        Err(e) => (Seq::empty(), Err(e)),
        Ok(first) => spec_read_stream(data, first, secret, answers),
    }
}

/// A reader over a whole stream held in memory, with the key to open its
/// encrypted records and the ZLIB stream that its compressed records are
/// chunks of.
pub struct LogBufReaderV4<'a> {
    reader: Vec<u8>,
    position: usize,
    cipher: &'a Cipher,
    decompressor: flate2::Decompress,
}

impl<'a> LogBufReaderV4<'a> {
    /// The stream.
    pub closed spec fn spec_data(&self) -> Seq<u8> {
        self.reader@
    }

    /// The offset of the next byte to read.
    pub closed spec fn spec_position(&self) -> int {
        self.position as int
    }

    /// The secret scalar that encrypted records are opened with.
    pub closed spec fn spec_secret(&self) -> Option<Seq<u8>> {
        self.cipher.spec_secret()
    }

    /// A reader at the start of `reader`, with a fresh ZLIB stream.
    pub fn new(reader: Vec<u8>, cipher: &'a Cipher) -> (res: LogBufReaderV4<'a>)
        ensures
            res.spec_data() == reader@,
            res.spec_position() == 0,
            res.spec_secret() == cipher.spec_secret(),
    {
        LogBufReaderV4 { reader, position: 0, cipher, decompressor: new_inflater() }
    }

    /// Reads a header from where the reader stands and moves behind it. A
    /// failure leaves the reader where it was.
    pub fn read_header(&mut self) -> (res: Result<(), LogBufReadError>)
        ensures
            final(self).spec_data() == old(self).spec_data(),
            final(self).spec_secret() == old(self).spec_secret(),
            match spec_parse_header(old(self).spec_data(), old(self).spec_position()) {
                Ok(first) => res is Ok && final(self).spec_position() == first,
                Err(e) => res == Err::<(), LogBufReadError>(e) && final(self).spec_position()
                    == old(self).spec_position(),
            },
    {
        match parse_header(self.reader.as_slice(), self.position) {
            Ok(first) => {
                self.position = first;
                Ok(())
            },
            Err(e) => Err(e),
        }
    }

    /// Feeds `input` to the reader's ZLIB stream and hands what it
    /// inflates to on to [`take_chunk`], which appends it to `output` if
    /// it has at most 16 KiB. What the stream makes of `input` depends on
    /// all that it was fed before.
    pub fn decompress_zlib(&mut self, input: &[u8], output: &mut Vec<u8>) -> (res: Result<
        usize,
        LogBufReadError,
    >)
        ensures
            final(self).spec_data() == old(self).spec_data(),
            final(self).spec_position() == old(self).spec_position(),
            final(self).spec_secret() == old(self).spec_secret(),
            exists|inflated: Option<Seq<u8>>|
                spec_chunk_taken(
                    #[trigger] spec_take_chunk(inflated, old(output)@),
                    res,
                    old(output)@,
                    final(output)@,
                ),
    {
        let chunk = inflate_chunk(
            &mut self.decompressor,
            input,
            SINGLE_LOG_CONTENT_MAX_LENGTH + 1,
        );
        take_chunk(chunk, output)
    }

    /// Reads the record where the reader stands. For a record, its
    /// plaintext replaces the content of `out_buffer`, its length is
    /// returned and the reader moves behind it. For a soft stop the code is
    /// returned: `-1` where fewer than 11 bytes are left or the record is
    /// cut off, `-2` or `-3` for an unknown compress or encrypt nibble, `-5`
    /// where decryption left nothing. A stop or a failure leaves reader and
    /// buffer as they were.
    ///
    /// The plaintext of a compressed record is what the reader's ZLIB
    /// stream makes of its payload.
    pub fn read_body(&mut self, out_buffer: &mut Vec<u8>) -> (res: Result<i64, LogBufReadError>)
        ensures
            final(self).spec_data() == old(self).spec_data(),
            final(self).spec_secret() == old(self).spec_secret(),
            exists|inflated: Option<Seq<u8>>|
                spec_step_matches(
                    #[trigger] spec_read_body(
                        old(self).spec_data(),
                        old(self).spec_position(),
                        old(self).spec_secret(),
                        inflated,
                    ),
                    res,
                    old(self).spec_position(),
                    final(self).spec_position(),
                    old(out_buffer)@,
                    final(out_buffer)@,
                ),
    {
        let ghost data = self.spec_data();
        let ghost pos = self.spec_position();
        let ghost secret = self.spec_secret();
        let (mode, decrypted, end) = match open_frame(
            self.reader.as_slice(),
            self.position,
            self.cipher,
        ) {
            Err(e) => {
                assert(spec_step_matches(
                    spec_read_body(data, pos, secret, None),
                    Err(e),
                    pos,
                    pos,
                    out_buffer@,
                    out_buffer@,
                ));
                return Err(e);
            },
            Ok(Opened::Stop(code)) => {
                assert(spec_step_matches(
                    spec_read_body(data, pos, secret, None),
                    Ok(code),
                    pos,
                    pos,
                    out_buffer@,
                    out_buffer@,
                ));
                return Ok(code);
            },
            Ok(Opened::Payload { mode, decrypted, end }) => (mode, decrypted, end),
        };
        let ghost inflated: Option<Seq<u8>>;
        let plain = match mode.compress() {
            CompressMode::Off => {
                proof {
                    inflated = None;
                }
                decrypted
            },
            CompressMode::Zlib => {
                let mut plain: Vec<u8> = Vec::new();
                match self.decompress_zlib(decrypted.as_slice(), &mut plain) {
                    Ok(_) => {
                        proof {
                            inflated = Some(plain@);
                        }
                        plain
                    },
                    Err(_) => {
                        assert(spec_step_matches(
                            spec_read_body(data, pos, secret, None),
                            Err(LogBufReadError::DecompressError),
                            pos,
                            pos,
                            out_buffer@,
                            out_buffer@,
                        ));
                        return Err(LogBufReadError::DecompressError);
                    },
                }
            },
        };
        let ghost outcome = spec_read_body(data, pos, secret, inflated);
        match deliver(self.reader.as_slice(), end, plain, out_buffer) {
            Ok(n) => {
                self.position = end + 8;
                assert(spec_step_matches(
                    outcome,
                    Ok(n),
                    pos,
                    self.position as int,
                    old(out_buffer)@,
                    out_buffer@,
                ));
                Ok(n)
            },
            Err(e) => {
                assert(spec_step_matches(
                    outcome,
                    Err(e),
                    pos,
                    self.position as int,
                    old(out_buffer)@,
                    out_buffer@,
                ));
                Err(e)
            },
        }
    }

    /// Reads a whole stream from where the reader stands: the header, then
    /// record after record up to the first soft stop, empty plaintext or
    /// failure. The text of each record is appended to `out`, in the order
    /// of the stream; what was read before a failure stays there.
    ///
    /// The plaintext of a compressed record is what the reader's ZLIB
    /// stream makes of its payload.
    pub fn read(&mut self, out: &mut Vec<String>) -> (res: Result<(), LogBufReadError>)
        ensures
            final(self).spec_data() == old(self).spec_data(),
            final(self).spec_secret() == old(self).spec_secret(),
            exists|answers: Seq<Option<Seq<u8>>>|
                {
                    let all = #[trigger] spec_read_stream_all(
                        old(self).spec_data(),
                        old(self).spec_position(),
                        old(self).spec_secret(),
                        answers,
                    );
                    &&& res == all.1
                    &&& spec_texts(final(out)@) == spec_texts(old(out)@) + spec_lossy_texts(all.0)
                },
    {
        let ghost data = self.spec_data();
        let ghost start = self.spec_position();
        let ghost secret = self.spec_secret();
        let mut buffer: Vec<u8> = Vec::new();
        match self.read_header() {
            Ok(_) => {},
            Err(e) => {
                proof {
                    let all = spec_read_stream_all(data, start, secret, Seq::empty());
                    assert(spec_texts(out@) == spec_texts(out@) + spec_lossy_texts(all.0));
                }
                return Err(e);
            },
        }
        let ghost first = self.spec_position();
        let ghost mut seen: Seq<Option<Seq<u8>>> = Seq::empty();
        let ghost mut done: Seq<Seq<u8>> = Seq::empty();
        proof {
            assert(spec_texts(out@) == spec_texts(out@) + spec_lossy_texts(done));
            assert forall|tail: Seq<Option<Seq<u8>>>| #[trigger]
                spec_read_stream(data, first, secret, seen + tail) == (
                    done + spec_read_stream(data, first, secret, tail).0,
                    spec_read_stream(data, first, secret, tail).1,
                ) by {
                assert(seen + tail == tail);
                assert(done + spec_read_stream(data, first, secret, tail).0 == spec_read_stream(
                    data,
                    first,
                    secret,
                    tail,
                ).0);
            }
        }
        loop
            invariant
                data == old(self).spec_data(),
                start == old(self).spec_position(),
                secret == old(self).spec_secret(),
                self.spec_data() == data,
                self.spec_secret() == secret,
                spec_parse_header(data, start) == Ok::<int, LogBufReadError>(first),
                forall|tail: Seq<Option<Seq<u8>>>| #[trigger]
                    spec_read_stream(data, first, secret, seen + tail) == (
                        done + spec_read_stream(data, self.spec_position(), secret, tail).0,
                        spec_read_stream(data, self.spec_position(), secret, tail).1,
                    ),
                spec_texts(out@) == spec_texts(old(out)@) + spec_lossy_texts(done),
            decreases self.spec_data().len() - self.spec_position(),
        {
            let ghost pos = self.spec_position();
            let ghost buffer_before = buffer@;
            let step = self.read_body(&mut buffer);
            let ghost answer = choose|inflated: Option<Seq<u8>>|
                spec_step_matches(
                    #[trigger] spec_read_body(data, pos, secret, inflated),
                    step,
                    pos,
                    self.spec_position(),
                    buffer_before,
                    buffer@,
                );
            let ghost last = seq![answer];
            proof {
                assert(last[0] == answer);
                assert(done + Seq::<Seq<u8>>::empty() == done);
            }
            let size = match step {
                Ok(size) => size,
                Err(e) => {
                    proof {
                        assert(spec_read_stream(data, pos, secret, last).1 == Err::<
                            (),
                            LogBufReadError,
                        >(e));
                        let all = spec_read_stream_all(data, start, secret, seen + last);
                        assert(all == spec_read_stream(data, first, secret, seen + last));
                        assert(all.0 == done);
                    }
                    return Err(e);
                },
            };
            if size <= 0 {
                proof {
                    assert(spec_read_stream(data, pos, secret, last) == (
                        Seq::<Seq<u8>>::empty(),
                        Ok::<(), LogBufReadError>(()),
                    ));
                    let all = spec_read_stream_all(data, start, secret, seen + last);
                    assert(all == spec_read_stream(data, first, secret, seen + last));
                    assert(all.0 == done);
                }
                return Ok(());
            }
            let text = utf8_lossy(buffer.as_slice());
            let ghost texts = out@;
            out.push(text);
            proof {
                let plain = buffer@;
                let next = self.spec_position();
                assert forall|tail: Seq<Option<Seq<u8>>>| #[trigger]
                    spec_read_stream(data, first, secret, seen.push(answer) + tail) == (
                        done.push(plain) + spec_read_stream(data, next, secret, tail).0,
                        spec_read_stream(data, next, secret, tail).1,
                    ) by {
                    let longer = last + tail;
                    assert(seen.push(answer) + tail == seen + longer);
                    assert(longer[0] == answer);
                    assert(longer.skip(1) == tail);
                    let here = spec_read_stream(data, pos, secret, longer);
                    let rest = spec_read_stream(data, next, secret, tail);
                    assert(here == (seq![plain] + rest.0, rest.1));
                    assert(spec_read_stream(data, first, secret, seen + longer) == (
                        done + here.0,
                        here.1,
                    ));
                    assert(done + (seq![plain] + rest.0) == done.push(plain) + rest.0);
                }
                assert(spec_lossy_texts(done.push(plain)) == spec_lossy_texts(done).push(
                    spec_utf8_lossy(plain),
                ));
                assert(spec_texts(texts.push(text)) == spec_texts(texts).push(text@));
                seen = seen.push(answer);
                done = done.push(plain);
            }
        }
    }
}

} // verus!
