//! Reading a log stream whose compressed records are each a ZLIB stream of
//! their own.

use vstd::prelude::*;
use crate::cipher::aes_cfb_ecdh::Cipher;
use crate::cipher::key_pair::spec_private_key;
use crate::compression::{decompress_zlib, spec_zlib_decompress};
use crate::io::frame::{
    parse_header, parse_remain_header, spec_parse_header, spec_parse_remain_header,
};
use crate::io::log_reader::{
    deliver, open_frame, spec_deliver, spec_lossy_texts, spec_open_frame, spec_step_matches,
    spec_texts, spec_utf8_lossy, utf8_lossy, Opened, OpenedView, RecordView,
};
use crate::io::primitive::{CompressMode, Mode};

pub use crate::io::log_reader::LogBufReadError;

verus! {

/// The plaintext of a decrypted payload: inflated if the mode says so.
pub open spec fn spec_inflate_payload(mode: Mode, decrypted: Seq<u8>) -> Result<
    Seq<u8>,
    LogBufReadError,
> {
    if mode.spec_compress() == CompressMode::Zlib {
        match spec_zlib_decompress(decrypted) {
            Some(plain) => Ok(plain),
            None => Err(LogBufReadError::DecompressError),
        }
    } else {
        Ok(decrypted)
    }
}

/// What reading one record at offset `pos` yields.
pub open spec fn spec_read_record(data: Seq<u8>, pos: int, secret: Option<Seq<u8>>) -> Result<
    RecordView,
    LogBufReadError,
> {
    match spec_open_frame(data, pos, secret) {
        Err(e) => Err(e),
        Ok(OpenedView::Stop(code)) => Ok(RecordView::Stop(code)),
        Ok(OpenedView::Payload { mode, decrypted, end }) => match spec_inflate_payload(
            mode,
            decrypted,
        ) {
            Err(e) => Err(e),
            Ok(plain) => spec_deliver(data, end, plain),
        },
    }
}

/// The plaintexts of the records from offset `pos` on, in order, up to the
/// first soft stop, empty plaintext or failure, and how reading ended.
pub open spec fn spec_read_records(data: Seq<u8>, pos: int, secret: Option<Seq<u8>>) -> (
    Seq<Seq<u8>>,
    Result<(), LogBufReadError>,
)
    decreases data.len() - pos,
{
    match spec_read_record(data, pos, secret) {
        Err(e) => (Seq::empty(), Err(e)),
        Ok(RecordView::Stop(_)) => (Seq::empty(), Ok(())),
        Ok(RecordView::Log { plain, next }) => if plain.len() == 0 {
            (Seq::empty(), Ok(()))
        } else {
            let rest = spec_read_records(data, next, secret);
            (seq![plain] + rest.0, rest.1)
        },
    }
}

/// The plaintexts of a whole stream, header first, and how reading ended.
pub open spec fn spec_read_all(data: Seq<u8>, secret: Option<Seq<u8>>) -> (
    Seq<Seq<u8>>,
    Result<(), LogBufReadError>,
) {
    match spec_parse_header(data, 0) {
        Err(e) => (Seq::empty(), Err(e)),
        Ok(first) => spec_read_records(data, first, secret),
    }
}

/// A reader over a whole stream held in memory, with the key to open its
/// encrypted records.
pub struct LogBufReaderV4 {
    reader: Vec<u8>,
    position: usize,
    cipher: Cipher,
}

impl LogBufReaderV4 {
    /// The stream.
    pub closed spec fn spec_data(&self) -> Seq<u8> {
        self.reader@
    }

    /// The offset of the next byte to read.
    pub closed spec fn spec_position(&self) -> int {
        self.position as int
    }

    /// The secret scalar that encrypted records are opened with.
    pub closed spec fn spec_secret(&self) -> Option<Seq<u8>> {
        self.cipher.spec_secret()
    }

    /// A reader at the start of `reader`.
    pub fn new(reader: Vec<u8>, cipher: Cipher) -> (res: LogBufReaderV4)
        ensures
            res.spec_data() == reader@,
            res.spec_position() == 0,
            res.spec_secret() == cipher.spec_secret(),
    {
        LogBufReaderV4 { reader, position: 0, cipher }
    }

    /// Reads a header from where the reader stands and moves behind it. A
    /// failure leaves the reader where it was.
    pub fn read_header(&mut self) -> (res: Result<(), LogBufReadError>)
        ensures
            final(self).spec_data() == old(self).spec_data(),
            final(self).spec_secret() == old(self).spec_secret(),
            match spec_parse_header(old(self).spec_data(), old(self).spec_position()) {
                Ok(first) => res is Ok && final(self).spec_position() == first,
                Err(e) => res == Err::<(), LogBufReadError>(e) && final(self).spec_position()
                    == old(self).spec_position(),
            },
    {
        match parse_header(self.reader.as_slice(), self.position) {
            Ok(first) => {
                self.position = first;
                Ok(())
            },
            Err(e) => Err(e),
        }
    }

    /// Reads what follows the version byte of a header, from where the
    /// reader stands, and moves behind it. A failure leaves the reader
    /// where it was.
    pub fn read_remain_header(&mut self) -> (res: Result<(), LogBufReadError>)
        ensures
            final(self).spec_data() == old(self).spec_data(),
            final(self).spec_secret() == old(self).spec_secret(),
            match spec_parse_remain_header(old(self).spec_data(), old(self).spec_position()) {
                Ok(first) => res is Ok && final(self).spec_position() == first,
                Err(e) => res == Err::<(), LogBufReadError>(e) && final(self).spec_position()
                    == old(self).spec_position(),
            },
    {
        match parse_remain_header(self.reader.as_slice(), self.position) {
            Ok(first) => {
                self.position = first;
                Ok(())
            },
            Err(e) => Err(e),
        }
    }

    /// Reads the record where the reader stands. For a record, its
    /// plaintext replaces the content of `out_buffer`, its length is
    /// returned and the reader moves behind it. For a soft stop the code is
    /// returned: `-1` where fewer than 11 bytes are left or the record is
    /// cut off, `-2` or `-3` for an unknown compress or encrypt nibble, `-5`
    /// where decryption left nothing. A stop or a failure leaves reader and
    /// buffer as they were.
    pub fn read(&mut self, out_buffer: &mut Vec<u8>) -> (res: Result<i64, LogBufReadError>)
        ensures
            final(self).spec_data() == old(self).spec_data(),
            final(self).spec_secret() == old(self).spec_secret(),
            spec_step_matches(
                spec_read_record(
                    old(self).spec_data(),
                    old(self).spec_position(),
                    old(self).spec_secret(),
                ),
                res,
                old(self).spec_position(),
                final(self).spec_position(),
                old(out_buffer)@,
                final(out_buffer)@,
            ),
    {
        let (mode, decrypted, end) = match open_frame(
            self.reader.as_slice(),
            self.position,
            &self.cipher,
        ) {
            Err(e) => {
                return Err(e);
            },
            Ok(Opened::Stop(code)) => {
                return Ok(code);
            },
            Ok(Opened::Payload { mode, decrypted, end }) => (mode, decrypted, end),
        };
        let plain = match mode.compress() {
            CompressMode::Off => decrypted,
            CompressMode::Zlib => match decompress_zlib(decrypted.as_slice()) {
                Ok(plain) => plain,
                Err(_) => {
                    return Err(LogBufReadError::DecompressError);
                },
            },
        };
        match deliver(self.reader.as_slice(), end, plain, out_buffer) {
            Ok(n) => {
                self.position = end + 8;
                Ok(n)
            },
            Err(e) => Err(e),
        }
    }
}

/// A record that reads back is the first of the records read from where
/// it stands, and reading goes on behind it.
pub proof fn lemma_record_then_rest(
    data: Seq<u8>,
    pos: int,
    secret: Option<Seq<u8>>,
    plain: Seq<u8>,
    next: int,
)
    requires
        spec_read_record(data, pos, secret) == Ok::<RecordView, LogBufReadError>(
            RecordView::Log { plain, next },
        ),
        plain.len() > 0,
    ensures
        spec_read_records(data, pos, secret).0 == seq![plain] + spec_read_records(
            data,
            next,
            secret,
        ).0,
        spec_read_records(data, pos, secret).1 == spec_read_records(data, next, secret).1,
{
}

/// Where a stream ends, reading ends without a failure and yields nothing.
pub proof fn lemma_end_of_stream(data: Seq<u8>, secret: Option<Seq<u8>>)
    ensures
        spec_read_records(data, data.len() as int, secret) == (
            Seq::<Seq<u8>>::empty(),
            Ok::<(), LogBufReadError>(()),
        ),
{
}

/// Reads a whole stream: the header, then record after record up to the
/// first soft stop, empty plaintext or failure. The text of each record
/// is appended to `out`, in the order of the stream; what was read before a
/// failure stays there.
///
/// Fails with `InvalidSecret`, before anything is read, where `pri_key` is
/// not the hex text of a secret scalar.
pub fn read(reader: Vec<u8>, pri_key: &str, out: &mut Vec<String>) -> (res: Result<
    (),
    LogBufReadError,
>)
    ensures
        match spec_private_key(pri_key@) {
            None => {
                &&& res == Err::<(), LogBufReadError>(LogBufReadError::InvalidSecret)
                &&& final(out)@ == old(out)@
            },
            Some(secret) => {
                let all = spec_read_all(reader@, Some(secret));
                &&& res == all.1
                &&& spec_texts(final(out)@) == spec_texts(old(out)@) + spec_lossy_texts(all.0)
            },
        },
{
    let cipher = match Cipher::new(pri_key) {
        Ok(cipher) => cipher,
        Err(_) => {
            return Err(LogBufReadError::InvalidSecret);
        },
    };
    let ghost data = reader@;
    let ghost secret = cipher.spec_secret();
    let mut file_reader = LogBufReaderV4::new(reader, cipher);
    let mut buffer: Vec<u8> = Vec::new();
    match file_reader.read_header() {
        Ok(_) => {},
        Err(e) => {
            assert(spec_texts(out@) == spec_texts(out@) + spec_lossy_texts(Seq::empty()));
            return Err(e);
        },
    }
    let ghost first = file_reader.spec_position();
    let ghost mut done: Seq<Seq<u8>> = Seq::empty();
    assert(spec_texts(out@) == spec_texts(out@) + spec_lossy_texts(done));
    loop
        invariant
            data == reader@,
            spec_private_key(pri_key@) == secret,
            secret is Some,
            spec_parse_header(data, 0) == Ok::<int, LogBufReadError>(first),
            file_reader.spec_data() == data,
            file_reader.spec_secret() == secret,
            0 <= file_reader.spec_position() <= data.len(),
            spec_read_records(data, first, secret).0 == done + spec_read_records(
                data,
                file_reader.spec_position(),
                secret,
            ).0,
            spec_read_records(data, first, secret).1 == spec_read_records(
                data,
                file_reader.spec_position(),
                secret,
            ).1,
            spec_texts(out@) == spec_texts(old(out)@) + spec_lossy_texts(done),
        decreases data.len() - file_reader.spec_position(),
    {
        let ghost pos = file_reader.spec_position();
        let size = match file_reader.read(&mut buffer) {
            Ok(size) => size,
            Err(e) => {
                assert(done + Seq::<Seq<u8>>::empty() == done);
                return Err(e);
            },
        };
        if size <= 0 {
            assert(done + Seq::<Seq<u8>>::empty() == done);
            return Ok(());
        }
        let text = utf8_lossy(buffer.as_slice());
        let ghost before = out@;
        out.push(text);
        proof {
            let rest = spec_read_records(data, file_reader.spec_position(), secret);
            assert(spec_read_records(data, pos, secret).0 == seq![buffer@] + rest.0);
            assert(done + (seq![buffer@] + rest.0) == done.push(buffer@) + rest.0);
            assert(spec_lossy_texts(done.push(buffer@)) == spec_lossy_texts(done).push(
                spec_utf8_lossy(buffer@),
            ));
            assert(spec_texts(before.push(text)) == spec_texts(before).push(text@));
            done = done.push(buffer@);
        }
    }
}

} // verus!
