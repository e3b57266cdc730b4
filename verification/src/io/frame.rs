//! The layout of the header and of a record, as functions on bytes.
//!
//! A file is the 28-byte header followed by records. A record is
//!
//! ```text
//! mode (1) | iv (16) | client key (64) | length (2, LE) | payload | sync marker (8)
//! ```
//!
//! where IV and client key are there only if the record is encrypted.

use vstd::prelude::*;
use vstd::slice::slice_to_vec;
use crate::io::log_reader::LogBufReadError;
use crate::io::primitive::{
    lemma_mode_byte_round_trip, CompressMode, EncryptMode, FileVersion, Mode, MAGIC_NUMBER,
    SINGLE_LOG_CONTENT_MAX_LENGTH, SYNC_MARKER,
};

verus! {

/// Length of the initialisation vector of an encrypted record.
pub const IV_LENGTH: usize = 16;

/// Length of an untagged public key: the coordinates X and Y, 32 bytes each.
pub const PUBLIC_KEY_LENGTH: usize = 64;

/// The fewest bytes that must be left for a record to be looked at: those
/// of a mode, a length and a sync marker.
pub const MIN_REMAINING_LENGTH: usize = 11;

/// The protocol name carried by the header, `ATRealTimeLog` in ASCII.
pub const PROTO_NAME: [u8; 13] = [
    0x41, 0x54, 0x52, 0x65, 0x61, 0x6C, 0x54, 0x69, 0x6D, 0x65, 0x4C, 0x6F, 0x67,
];

/// `n` as two bytes, low byte first.
pub open spec fn spec_u16_le(n: int) -> Seq<u8> {
    seq![(n % 256) as u8, (n / 256) as u8]
}

/// The number that two bytes encode, low byte first.
pub open spec fn spec_u16_from_le(lo: u8, hi: u8) -> int {
    lo as int + 256 * (hi as int)
}

/// The header every file starts with.
pub open spec fn spec_header() -> Seq<u8> {
    MAGIC_NUMBER@ + seq![4u8] + spec_u16_le(13) + PROTO_NAME@ + SYNC_MARKER@
}

/// The IV and the client key of an encrypted record; empty otherwise.
pub open spec fn spec_envelope(mode: Mode, iv: Seq<u8>, client_key: Seq<u8>) -> Seq<u8> {
    if mode.spec_encrypt() == EncryptMode::Aes {
        iv + client_key
    } else {
        Seq::empty()
    }
}

/// One record on disk.
pub open spec fn spec_record(mode: Mode, iv: Seq<u8>, client_key: Seq<u8>, payload: Seq<u8>) -> Seq<
    u8,
> {
    seq![mode.spec_to_u8()] + spec_envelope(mode, iv, client_key) + spec_u16_le(
        payload.len() as int,
    ) + payload + SYNC_MARKER@
}

/// Whether a payload of `n` bytes may be framed.
pub open spec fn spec_valid_length(n: int) -> bool {
    0 < n <= SINGLE_LOG_CONTENT_MAX_LENGTH
}

/// Appends `src` to `out`.
pub(crate) fn append_bytes(out: &mut Vec<u8>, src: &[u8])
    ensures
        final(out)@ == old(out)@ + src@,
{
    let n = src.len();
    let mut i: usize = 0;
    while i < n
        invariant
            n == src@.len(),
            i <= n,
            out@ == old(out)@ + src@.take(i as int),
        decreases n - i,
    {
        out.push(src[i]);
        i += 1;
        assert(src@.take(i as int) == src@.take(i - 1).push(src@[i - 1]));
    }
    assert(src@.take(n as int) == src@);
}

/// Appends `n` as two bytes, low byte first.
pub(crate) fn append_u16_le(out: &mut Vec<u8>, n: u16)
    ensures
        final(out)@ == old(out)@ + spec_u16_le(n as int),
{
    out.push((n % 256) as u8);
    out.push((n / 256) as u8);
    assert(out@ == old(out)@ + spec_u16_le(n as int));
}

/// Appends the header to `out`.
pub fn encode_header(out: &mut Vec<u8>)
    ensures
        final(out)@ == old(out)@ + spec_header(),
        spec_header().len() == 28,
{
    append_bytes(out, &MAGIC_NUMBER);
    out.push(4);
    append_u16_le(out, 13);
    append_bytes(out, &PROTO_NAME);
    append_bytes(out, &SYNC_MARKER);
    assert(out@ == old(out)@ + spec_header());
}

/// Appends one record to `out`, or leaves `out` as it is where the payload
/// is empty or longer than 16 KiB.
///
/// `iv` and `client_key` are written for an encrypted mode only.
pub fn encode_record(
    out: &mut Vec<u8>,
    mode: Mode,
    iv: &[u8],
    client_key: &[u8],
    payload: &[u8],
) -> (written: bool)
    ensures
        written == spec_valid_length(payload@.len() as int),
        written ==> final(out)@ == old(out)@ + spec_record(mode, iv@, client_key@, payload@),
        !written ==> final(out)@ == old(out)@,
{
    let n = payload.len();
    if n == 0 || n > SINGLE_LOG_CONTENT_MAX_LENGTH {
        return false;
    }
    out.push(mode.to_u8());
    match mode.encrypt() {
        EncryptMode::Aes => {
            append_bytes(out, iv);
            append_bytes(out, client_key);
        },
        EncryptMode::Off => {},
    }
    append_u16_le(out, n as u16);
    append_bytes(out, payload);
    append_bytes(out, &SYNC_MARKER);
    assert(out@ == old(out)@ + spec_record(mode, iv@, client_key@, payload@));
    true
}

/// What a record announces before its payload is opened: its mode, the IV
/// and client key it carries if encrypted, its payload, and the offset at
/// which its sync marker starts.
pub struct Frame {
    pub mode: Mode,
    pub iv: Vec<u8>,
    pub client_key: Vec<u8>,
    pub payload: Vec<u8>,
    pub end: usize,
}

/// The mathematical content of a [`Frame`].
pub struct FrameView {
    pub mode: Mode,
    pub iv: Seq<u8>,
    pub client_key: Seq<u8>,
    pub payload: Seq<u8>,
    pub end: int,
}

impl View for Frame {
    type V = FrameView;

    open spec fn view(&self) -> FrameView {
        FrameView {
            mode: self.mode,
            iv: self.iv@,
            client_key: self.client_key@,
            payload: self.payload@,
            end: self.end as int,
        }
    }
}

/// What stands at an offset of the stream: a frame, or one of the soft stops
/// that end reading without a failure.
pub enum Parsed {
    /// Fewer than 11 bytes are left or the record runs past the end of the
    /// stream (`-1`), or a nibble of the mode byte is unknown (`-2` for
    /// compress, `-3` for encrypt).
    Stop(i64),
    Frame(Frame),
}

/// The mathematical content of a [`Parsed`].
pub enum ParsedView {
    Stop(int),
    Frame(FrameView),
}

impl View for Parsed {
    type V = ParsedView;

    open spec fn view(&self) -> ParsedView {
        match self {
            Parsed::Stop(code) => ParsedView::Stop(*code as int),
            Parsed::Frame(frame) => ParsedView::Frame(frame@),
        }
    }
}

/// The outcome of checking for the sync marker at offset `at`.
pub open spec fn spec_check_sync_marker(data: Seq<u8>, at: int) -> Result<(), LogBufReadError> {
    if data.len() < at + 8 {
        Err(LogBufReadError::IoError)
    } else if data.subrange(at, at + 8) != SYNC_MARKER@ {
        Err(LogBufReadError::InvalidSyncMarker)
    } else {
        Ok(())
    }
}

/// The outcome of parsing what follows the version byte of a header: the
/// length of the protocol name at offset `pos`, the name, which is taken
/// as it is, and the sync marker. The offset of the first record.
pub open spec fn spec_parse_remain_header(data: Seq<u8>, pos: int) -> Result<int, LogBufReadError> {
    if data.len() < pos + 2 {
        Err(LogBufReadError::IoError)
    } else {
        let name_end = pos + 2 + spec_u16_from_le(data[pos], data[pos + 1]);
        if data.len() < name_end {
            Err(LogBufReadError::IoError)
        } else {
            match spec_check_sync_marker(data, name_end) {
                Err(e) => Err(e),
                Ok(_) => Ok(name_end + 8),
            }
        }
    }
}

/// The outcome of parsing a header at offset `pos`: the offset of the
/// first record.
pub open spec fn spec_parse_header(data: Seq<u8>, pos: int) -> Result<int, LogBufReadError> {
    if data.len() < pos + 4 {
        Err(LogBufReadError::IoError)
    } else if data.subrange(pos, pos + 4) != MAGIC_NUMBER@ {
        Err(LogBufReadError::InValidMagicNumber)
    } else if data.len() < pos + 5 {
        Err(LogBufReadError::IoError)
    } else if FileVersion::spec_from_u8(data[pos + 4]) is None {
        Err(LogBufReadError::InvalidVersion)
    } else {
        spec_parse_remain_header(data, pos + 5)
    }
}

/// The outcome of parsing a record's frame at offset `pos`. A record that
/// is cut off, be it in its IV, client key, length, payload or sync marker,
/// is what a writer leaves behind that was dropped in the middle of it: it
/// ends the stream like the end itself, with the stop `-1`.
pub open spec fn spec_parse_frame(data: Seq<u8>, pos: int) -> Result<ParsedView, LogBufReadError> {
    if data.len() - pos < MIN_REMAINING_LENGTH {
        Ok(ParsedView::Stop(-1))
    } else if CompressMode::spec_from_u8(data[pos] / 16) is None {
        Ok(ParsedView::Stop(-2))
    } else if EncryptMode::spec_from_u8(data[pos] % 16) is None {
        Ok(ParsedView::Stop(-3))
    } else {
        let mode = Mode::spec_from_u8(data[pos])->0;
        let encrypted = mode.spec_encrypt() == EncryptMode::Aes;
        let length_at = if encrypted {
            pos + 1 + IV_LENGTH + PUBLIC_KEY_LENGTH
        } else {
            pos + 1
        };
        if data.len() < length_at + 2 {
            Ok(ParsedView::Stop(-1))
        } else {
            let n = spec_u16_from_le(data[length_at], data[length_at + 1]);
            if !spec_valid_length(n) {
                Err(LogBufReadError::InvalidLogLength)
            } else if data.len() < length_at + 2 + n + 8 {
                Ok(ParsedView::Stop(-1))
            } else {
                Ok(
                    ParsedView::Frame(
                        FrameView {
                            mode,
                            iv: if encrypted {
                                data.subrange(pos + 1, pos + 1 + IV_LENGTH)
                            } else {
                                Seq::empty()
                            },
                            client_key: if encrypted {
                                data.subrange(pos + 1 + IV_LENGTH, length_at)
                            } else {
                                Seq::empty()
                            },
                            payload: data.subrange(length_at + 2, length_at + 2 + n),
                            end: length_at + 2 + n,
                        },
                    ),
                )
            }
        }
    }
}

/// Copies `data[from..to]`.
pub(crate) fn copy_range(data: &[u8], from: usize, to: usize) -> (out: Vec<u8>)
    requires
        from <= to <= data@.len(),
    ensures
        out@ == data@.subrange(from as int, to as int),
{
    slice_to_vec(&data[from..to])
}

/// Whether `data[at..at + marker.len()]` exists and equals `marker`.
pub(crate) fn has_bytes_at(data: &[u8], at: usize, marker: &[u8]) -> (found: bool)
    ensures
        found == (at + marker@.len() <= data@.len() && data@.subrange(
            at as int,
            at + marker@.len(),
        ) == marker@),
{
    let n = marker.len();
    if data.len() < at || data.len() - at < n {
        return false;
    }
    let mut i: usize = 0;
    while i < n
        invariant
            n == marker@.len(),
            i <= n,
            at + n <= data@.len() <= usize::MAX,
            data@.subrange(at as int, at + i) == marker@.take(i as int),
        decreases n - i,
    {
        if data[at + i] != marker[i] {
            assert(data@.subrange(at as int, at + n)[i as int] != marker@[i as int]);
            return false;
        }
        i += 1;
        assert(data@.subrange(at as int, at + i) == data@.subrange(at as int, at + i - 1).push(
            data@[at + i - 1],
        ));
        assert(marker@.take(i as int) == marker@.take(i - 1).push(marker@[i - 1]));
    }
    assert(marker@.take(n as int) == marker@);
    true
}

/// Checks that the sync marker stands at offset `at`.
pub fn check_sync_marker(data: &[u8], at: usize) -> (res: Result<(), LogBufReadError>)
    ensures
        res == spec_check_sync_marker(data@, at as int),
        res is Ok ==> at + 8 <= usize::MAX,
{
    if data.len() < at || data.len() - at < 8 {
        Err(LogBufReadError::IoError)
    } else if has_bytes_at(data, at, &SYNC_MARKER) {
        Ok(())
    } else {
        Err(LogBufReadError::InvalidSyncMarker)
    }
}

/// Parses what follows the version byte of a header, from offset `pos`,
/// and returns the offset of the first record.
pub fn parse_remain_header(data: &[u8], pos: usize) -> (res: Result<usize, LogBufReadError>)
    ensures
        res matches Ok(next) ==> spec_parse_remain_header(data@, pos as int) == Ok::<
            int,
            LogBufReadError,
        >(next as int) && pos < next <= data@.len(),
        res matches Err(e) ==> spec_parse_remain_header(data@, pos as int) == Err::<
            int,
            LogBufReadError,
        >(e),
{
    let len = data.len();
    if len < pos || len - pos < 2 {
        return Err(LogBufReadError::IoError);
    }
    let name_len: usize = data[pos] as usize + 256 * (data[pos + 1] as usize);
    if len - pos - 2 < name_len {
        return Err(LogBufReadError::IoError);
    }
    let name_end = pos + 2 + name_len;
    match check_sync_marker(data, name_end) {
        Err(e) => Err(e),
        Ok(_) => Ok(name_end + 8),
    }
}

/// Parses a header at offset `pos` and returns the offset of the first
/// record.
pub fn parse_header(data: &[u8], pos: usize) -> (res: Result<usize, LogBufReadError>)
    ensures
        res matches Ok(next) ==> spec_parse_header(data@, pos as int) == Ok::<
            int,
            LogBufReadError,
        >(next as int) && pos < next <= data@.len(),
        res matches Err(e) ==> spec_parse_header(data@, pos as int) == Err::<
            int,
            LogBufReadError,
        >(e),
{
    let len = data.len();
    if len < pos || len - pos < 4 {
        return Err(LogBufReadError::IoError);
    }
    if !has_bytes_at(data, pos, &MAGIC_NUMBER) {
        return Err(LogBufReadError::InValidMagicNumber);
    }
    if len - pos < 5 {
        return Err(LogBufReadError::IoError);
    }
    if FileVersion::from_u8(data[pos + 4]).is_none() {
        return Err(LogBufReadError::InvalidVersion);
    }
    parse_remain_header(data, pos + 5)
}

/// Parses the frame of the record at offset `pos`, up to the end of its
/// payload. That the eight bytes of a sync marker follow is made sure of;
/// what they are is left for once the payload has been opened.
pub fn parse_frame(data: &[u8], pos: usize) -> (res: Result<Parsed, LogBufReadError>)
    ensures
        res matches Ok(p) ==> spec_parse_frame(data@, pos as int) == Ok::<
            ParsedView,
            LogBufReadError,
        >(p@),
        res matches Err(e) ==> spec_parse_frame(data@, pos as int) == Err::<
            ParsedView,
            LogBufReadError,
        >(e),
        res matches Ok(Parsed::Frame(f)) ==> pos < f.end && f.end + 8 <= data@.len(),
{
    let len = data.len();
    if len < pos || len - pos < MIN_REMAINING_LENGTH {
        return Ok(Parsed::Stop(-1));
    }
    let ms = data[pos];
    let compress = match CompressMode::from_u8(ms / 16) {
        Some(c) => c,
        None => {
            return Ok(Parsed::Stop(-2));
        },
    };
    let encrypt = match EncryptMode::from_u8(ms % 16) {
        Some(e) => e,
        None => {
            return Ok(Parsed::Stop(-3));
        },
    };
    let mode = Mode::from(&(compress, encrypt));
    let mut length_at = pos + 1;
    let mut iv: Vec<u8> = Vec::new();
    let mut client_key: Vec<u8> = Vec::new();
    match encrypt {
        EncryptMode::Aes => {
            if len - length_at < IV_LENGTH + PUBLIC_KEY_LENGTH {
                return Ok(Parsed::Stop(-1));
            }
            iv = copy_range(data, length_at, length_at + IV_LENGTH);
            client_key =
            copy_range(data, length_at + IV_LENGTH, length_at + IV_LENGTH + PUBLIC_KEY_LENGTH);
            length_at = length_at + IV_LENGTH + PUBLIC_KEY_LENGTH;
        },
        EncryptMode::Off => {},
    }
    if len - length_at < 2 {
        return Ok(Parsed::Stop(-1));
    }
    let n: usize = data[length_at] as usize + 256 * (data[length_at + 1] as usize);
    if n == 0 || n > SINGLE_LOG_CONTENT_MAX_LENGTH {
        return Err(LogBufReadError::InvalidLogLength);
    }
    let start = length_at + 2;
    if len - start < n + 8 {
        return Ok(Parsed::Stop(-1));
    }
    let payload = copy_range(data, start, start + n);
    Ok(Parsed::Frame(Frame { mode, iv, client_key, payload, end: start + n }))
}

/// The header is 28 bytes long, and a stream that starts with it parses
/// to offset 28, whatever follows.
pub proof fn lemma_header_parses(rest: Seq<u8>)
    ensures
        spec_header().len() == 28,
        spec_parse_header(spec_header() + rest, 0) == Ok::<int, LogBufReadError>(28),
{
    let data = spec_header() + rest;
    assert(data.subrange(0, 4) == MAGIC_NUMBER@);
    assert(data[4] == 4);
    assert(data[5] == 13 && data[6] == 0);
    assert(data.subrange(20, 28) == SYNC_MARKER@);
    assert(spec_parse_remain_header(data, 5) == Ok::<int, LogBufReadError>(28));
}

/// The length of a record: one mode byte, 80 bytes of IV and client key if
/// encrypted, two bytes of length, the payload, and the sync marker.
pub open spec fn spec_record_len(mode: Mode, payload_len: int) -> int {
    if mode.spec_encrypt() == EncryptMode::Aes {
        1 + 80 + 2 + payload_len + 8
    } else {
        1 + 2 + payload_len + 8
    }
}

/// Every record begins with its mode byte and ends with the sync marker.
pub proof fn lemma_record_is_framed(
    mode: Mode,
    iv: Seq<u8>,
    client_key: Seq<u8>,
    payload: Seq<u8>,
)
    ensures
        ({
            let rec = spec_record(mode, iv, client_key, payload);
            &&& rec.len() >= 11
            &&& rec[0] == mode.spec_to_u8()
            &&& rec.subrange(rec.len() - 8, rec.len() as int) == SYNC_MARKER@
            &&& iv.len() == IV_LENGTH && client_key.len() == PUBLIC_KEY_LENGTH ==> rec.len()
                == spec_record_len(mode, payload.len() as int)
        }),
{
    let rec = spec_record(mode, iv, client_key, payload);
    assert(rec.subrange(rec.len() - 8, rec.len() as int) == SYNC_MARKER@);
}

/// Only a record that declares a payload of 1 to 16384 bytes is parsed: a
/// frame that parses has such a payload, and where mode and length can be
/// read and the length is another, parsing fails with `InvalidLogLength`.
pub proof fn lemma_length_bound(data: Seq<u8>, pos: int)
    requires
        0 <= pos,
    ensures
        spec_parse_frame(data, pos) matches Ok(ParsedView::Frame(frame)) ==> spec_valid_length(
            frame.payload.len() as int,
        ),
        ({
            let encrypted = Mode::spec_from_u8(data[pos])->0.spec_encrypt() == EncryptMode::Aes;
            let length_at = if encrypted {
                pos + 81
            } else {
                pos + 1
            };
            data.len() - pos >= MIN_REMAINING_LENGTH && Mode::spec_from_u8(data[pos]) is Some
                && data.len() >= length_at + 2 && !spec_valid_length(
                spec_u16_from_le(data[length_at], data[length_at + 1]),
            ) ==> spec_parse_frame(data, pos) == Err::<ParsedView, LogBufReadError>(
                LogBufReadError::InvalidLogLength,
            )
        }),
{
}

/// Where the parts of a record stand in it: the mode byte first, then IV
/// and client key if it is encrypted, the length of the payload in two
/// bytes, the payload, and the sync marker.
pub proof fn lemma_record_layout(mode: Mode, iv: Seq<u8>, client_key: Seq<u8>, payload: Seq<u8>)
    requires
        iv.len() == IV_LENGTH,
        client_key.len() == PUBLIC_KEY_LENGTH,
    ensures
        ({
            let rec = spec_record(mode, iv, client_key, payload);
            let n = payload.len() as int;
            let length_at: int = if mode.spec_encrypt() == EncryptMode::Aes {
                81
            } else {
                1
            };
            &&& rec.len() == length_at + 2 + n + 8
            &&& rec[0] == mode.spec_to_u8()
            &&& mode.spec_encrypt() == EncryptMode::Aes ==> rec.subrange(1, 17) == iv
                && rec.subrange(17, 81) == client_key
            &&& rec[length_at] == (n % 256) as u8
            &&& rec[length_at + 1] == (n / 256) as u8
            &&& rec.subrange(length_at + 2, length_at + 2 + n) == payload
            &&& rec.subrange(length_at + 2 + n, length_at + 2 + n + 8) == SYNC_MARKER@
        }),
{
    let n = payload.len() as int;
    let head = seq![mode.spec_to_u8()] + spec_envelope(mode, iv, client_key);
    let with_len = head + spec_u16_le(n);
    let with_payload = with_len + payload;
    let rec = with_payload + SYNC_MARKER@;
    assert(rec == spec_record(mode, iv, client_key, payload));
    let length_at = head.len() as int;
    assert(with_len[length_at] == spec_u16_le(n)[0]);
    assert(with_len[length_at + 1] == spec_u16_le(n)[1]);
    assert(with_payload.subrange(length_at + 2, length_at + 2 + n) == payload);
    assert(rec.subrange(length_at + 2, length_at + 2 + n) == payload);
    assert(rec.subrange(length_at + 2 + n, length_at + 2 + n + 8) == SYNC_MARKER@);
    if mode.spec_encrypt() == EncryptMode::Aes {
        assert(head.subrange(1, 17) == iv);
        assert(head.subrange(17, 81) == client_key);
        assert(rec.subrange(1, 17) == iv);
        assert(rec.subrange(17, 81) == client_key);
    }
}

/// A part of `rec` is the same part of a stream that holds `rec`.
proof fn lemma_embedded_range(prefix: Seq<u8>, rec: Seq<u8>, rest: Seq<u8>, from: int, to: int)
    requires
        0 <= from <= to <= rec.len(),
    ensures
        (prefix + rec + rest).subrange(prefix.len() + from, prefix.len() + to) == rec.subrange(
            from,
            to,
        ),
{
}

/// A byte of `rec` is the same byte of a stream that holds `rec`.
proof fn lemma_embedded_byte(prefix: Seq<u8>, rec: Seq<u8>, rest: Seq<u8>, at: int)
    requires
        0 <= at < rec.len(),
    ensures
        (prefix + rec + rest)[prefix.len() + at] == rec[at],
{
}

/// A record that was framed with a payload of 1 to 16384 bytes parses back
/// to what it was made of, wherever it stands in a stream, and its sync
/// marker is found where the payload ends.
#[verifier::rlimit(40)]
pub proof fn lemma_record_parses(
    prefix: Seq<u8>,
    mode: Mode,
    iv: Seq<u8>,
    client_key: Seq<u8>,
    payload: Seq<u8>,
    rest: Seq<u8>,
)
    requires
        iv.len() == IV_LENGTH,
        client_key.len() == PUBLIC_KEY_LENGTH,
        spec_valid_length(payload.len() as int),
    ensures
        ({
            let rec = spec_record(mode, iv, client_key, payload);
            let data = prefix + rec + rest;
            let end = prefix.len() + rec.len() - 8;
            let encrypted = mode.spec_encrypt() == EncryptMode::Aes;
            &&& rec.len() == spec_record_len(mode, payload.len() as int)
            &&& spec_parse_frame(data, prefix.len() as int) == Ok::<ParsedView, LogBufReadError>(
                ParsedView::Frame(
                    FrameView {
                        mode,
                        iv: if encrypted {
                            iv
                        } else {
                            Seq::empty()
                        },
                        client_key: if encrypted {
                            client_key
                        } else {
                            Seq::empty()
                        },
                        payload,
                        end,
                    },
                ),
            )
            &&& spec_check_sync_marker(data, end) == Ok::<(), LogBufReadError>(())
        }),
{
    let rec = spec_record(mode, iv, client_key, payload);
    let data = prefix + rec + rest;
    let pos = prefix.len() as int;
    let n = payload.len() as int;
    let encrypted = mode.spec_encrypt() == EncryptMode::Aes;
    let length_at: int = if encrypted {
        81
    } else {
        1
    };
    lemma_record_layout(mode, iv, client_key, payload);
    lemma_mode_byte_round_trip(mode, 0);
    assert(rec.len() == spec_record_len(mode, n));
    assert(data.len() == prefix.len() + rec.len() + rest.len());
    lemma_embedded_byte(prefix, rec, rest, 0);
    lemma_embedded_byte(prefix, rec, rest, length_at);
    lemma_embedded_byte(prefix, rec, rest, length_at + 1);
    lemma_embedded_range(prefix, rec, rest, length_at + 2, length_at + 2 + n);
    lemma_embedded_range(prefix, rec, rest, length_at + 2 + n, length_at + 2 + n + 8);
    if encrypted {
        lemma_embedded_range(prefix, rec, rest, 1, 17);
        lemma_embedded_range(prefix, rec, rest, 17, 81);
    }
    assert(data[pos] == mode.spec_to_u8());
    assert(Mode::spec_from_u8(data[pos]) == Some(mode));
    assert(data[pos + length_at] == (n % 256) as u8);
    assert(data[pos + length_at + 1] == (n / 256) as u8);
    assert(spec_u16_from_le(data[pos + length_at], data[pos + length_at + 1]) == n);
    assert(data.len() >= pos + length_at + 2 + n + 8);
    assert(data.subrange(pos + length_at + 2, pos + length_at + 2 + n) == payload);
    assert(data.subrange(pos + length_at + 2 + n, pos + length_at + 2 + n + 8) == SYNC_MARKER@);
}

/// Nothing but a record parses: where a frame parses and the sync marker
/// stands behind its payload, the bytes from `pos` to the end of the marker
/// are the record of what was parsed.
pub proof fn lemma_parsed_bytes_are_a_record(data: Seq<u8>, pos: int)
    requires
        0 <= pos,
    ensures
        spec_parse_frame(data, pos) matches Ok(ParsedView::Frame(frame)) ==> (
        spec_check_sync_marker(data, frame.end) is Ok ==> data.subrange(pos, frame.end + 8)
            == spec_record(frame.mode, frame.iv, frame.client_key, frame.payload)),
{
    if let Ok(ParsedView::Frame(frame)) = spec_parse_frame(data, pos) {
        if spec_check_sync_marker(data, frame.end) is Ok {
            let rec = spec_record(frame.mode, frame.iv, frame.client_key, frame.payload);
            let bytes = data.subrange(pos, frame.end + 8);
            let n = frame.payload.len() as int;
            let encrypted = frame.mode.spec_encrypt() == EncryptMode::Aes;
            let length_at: int = if encrypted {
                81
            } else {
                1
            };
            lemma_mode_byte_round_trip(frame.mode, data[pos]);
            assert(frame.end == pos + length_at + 2 + n);
            if encrypted {
                lemma_record_layout(frame.mode, frame.iv, frame.client_key, frame.payload);
            } else {
                let iv16 = Seq::new(16, |i: int| 0u8);
                let key64 = Seq::new(64, |i: int| 0u8);
                assert(rec == spec_record(frame.mode, iv16, key64, frame.payload));
                lemma_record_layout(frame.mode, iv16, key64, frame.payload);
            }
            assert(bytes.len() == rec.len());
            assert(spec_u16_from_le(data[pos + length_at], data[pos + length_at + 1]) == n);
            assert forall|i: int| 0 <= i < rec.len() implies bytes[i] == rec[i] by {
                if i == 0 {
                } else if i < length_at {
                    if i < 17 {
                        assert(rec.subrange(1, 17)[i - 1] == rec[i]);
                        assert(frame.iv[i - 1] == data[pos + i]);
                    } else {
                        assert(rec.subrange(17, 81)[i - 17] == rec[i]);
                        assert(frame.client_key[i - 17] == data[pos + i]);
                    }
                } else if i < length_at + 2 {
                } else if i < length_at + 2 + n {
                    assert(rec.subrange(length_at + 2, length_at + 2 + n)[i - length_at - 2]
                        == rec[i]);
                    assert(frame.payload[i - length_at - 2] == data[pos + i]);
                } else {
                    assert(rec.subrange(length_at + 2 + n, length_at + 2 + n + 8)[i - length_at
                        - 2 - n] == rec[i]);
                    assert(data.subrange(frame.end, frame.end + 8)[i - length_at - 2 - n]
                        == data[pos + i]);
                }
            }
            assert(bytes == rec);
        }
    }
}

} // verus!
