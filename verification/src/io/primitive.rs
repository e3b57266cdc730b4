//! Constants of the file format and the encoding of the per-record mode byte.

use vstd::prelude::*;

verus! {

/// Largest payload, in bytes, that a record may declare.
pub const SINGLE_LOG_CONTENT_MAX_LENGTH: usize = 16 * 1024;

/// The four bytes every file starts with.
pub const MAGIC_NUMBER: [u8; 4] = [0x1B, 0xAD, 0xC0, 0xDE];

/// The eight bytes that close the header and every record.
pub const SYNC_MARKER: [u8; 8] = [0xB7, 0xDB, 0xE7, 0xDB, 0x80, 0xAD, 0xD9, 0x57];

/// Version of the file format. Readers accept both; writers emit `V4`.
#[derive(Debug, Clone, Copy, PartialEq, Eq, Structural)]
pub enum FileVersion {
    V3,
    V4,
}

impl FileVersion {
    /// The byte that stands for this version in the header.
    pub open spec fn spec_to_u8(self) -> u8 {
        match self {
            FileVersion::V3 => 3,
            FileVersion::V4 => 4,
        }
    }

    /// The version a header byte stands for, if any.
    pub open spec fn spec_from_u8(b: u8) -> Option<FileVersion> {
        if b == 3 {
            Some(FileVersion::V3)
        } else if b == 4 {
            Some(FileVersion::V4)
        } else {
            None
        }
    }

    pub fn to_u8(&self) -> (b: u8)
        ensures
            b == self.spec_to_u8(),
    {
        match self {
            FileVersion::V3 => 3,
            FileVersion::V4 => 4,
        }
    }

    pub fn from_u8(b: u8) -> (v: Option<FileVersion>)
        ensures
            v == Self::spec_from_u8(b),
    {
        if b == 3 {
            Some(FileVersion::V3)
        } else if b == 4 {
            Some(FileVersion::V4)
        } else {
            None
        }
    }
}

impl Default for FileVersion {
    fn default() -> (v: FileVersion)
        ensures
            v == FileVersion::V4,
    {
        FileVersion::V4
    }
}

/// Whether a record's payload is deflated. Encoded 1-based in the high
/// nibble of the mode byte.
#[derive(Debug, Clone, Copy, PartialEq, Eq, Structural)]
pub enum CompressMode {
    Off,
    Zlib,
}

impl CompressMode {
    /// The nibble that stands for this mode.
    pub open spec fn spec_to_u8(self) -> u8 {
        match self {
            CompressMode::Off => 1,
            CompressMode::Zlib => 2,
        }
    }

    /// The mode a nibble stands for, if any.
    pub open spec fn spec_from_u8(b: u8) -> Option<CompressMode> {
        if b == 1 {
            Some(CompressMode::Off)
        } else if b == 2 {
            Some(CompressMode::Zlib)
        } else {
            None
        }
    }

    pub fn to_u8(&self) -> (b: u8)
        ensures
            b == self.spec_to_u8(),
    {
        match self {
            CompressMode::Off => 1,
            CompressMode::Zlib => 2,
        }
    }

    pub fn from_u8(b: u8) -> (m: Option<CompressMode>)
        ensures
            m == Self::spec_from_u8(b),
    {
        if b == 1 {
            Some(CompressMode::Off)
        } else if b == 2 {
            Some(CompressMode::Zlib)
        } else {
            None
        }
    }
}

impl Default for CompressMode {
    fn default() -> (m: CompressMode)
        ensures
            m == CompressMode::Off,
    {
        CompressMode::Off
    }
}

/// Whether a record's payload is encrypted. Encoded 1-based in the low
/// nibble of the mode byte.
#[derive(Debug, Clone, Copy, PartialEq, Eq, Structural)]
pub enum EncryptMode {
    Off,
    Aes,
}

impl EncryptMode {
    /// The nibble that stands for this mode.
    pub open spec fn spec_to_u8(self) -> u8 {
        match self {
            EncryptMode::Off => 1,
            EncryptMode::Aes => 2,
        }
    }

    /// The mode a nibble stands for, if any.
    pub open spec fn spec_from_u8(b: u8) -> Option<EncryptMode> {
        if b == 1 {
            Some(EncryptMode::Off)
        } else if b == 2 {
            Some(EncryptMode::Aes)
        } else {
            None
        }
    }

    pub fn to_u8(&self) -> (b: u8)
        ensures
            b == self.spec_to_u8(),
    {
        match self {
            EncryptMode::Off => 1,
            EncryptMode::Aes => 2,
        }
    }

    pub fn from_u8(b: u8) -> (m: Option<EncryptMode>)
        ensures
            m == Self::spec_from_u8(b),
    {
        if b == 1 {
            Some(EncryptMode::Off)
        } else if b == 2 {
            Some(EncryptMode::Aes)
        } else {
            None
        }
    }
}

impl Default for EncryptMode {
    fn default() -> (m: EncryptMode)
        ensures
            m == EncryptMode::Off,
    {
        EncryptMode::Off
    }
}

/// The mode byte of a record: one of the four legal combinations of a
/// compress nibble and an encrypt nibble.
#[derive(Debug, Clone, Copy, PartialEq, Eq, Structural)]
pub enum Mode {
    M11,
    M12,
    M21,
    M22,
}

impl Mode {
    /// The compression this mode byte announces.
    pub open spec fn spec_compress(self) -> CompressMode {
        match self {
            Mode::M11 | Mode::M12 => CompressMode::Off,
            Mode::M21 | Mode::M22 => CompressMode::Zlib,
        }
    }

    /// The encryption this mode byte announces.
    pub open spec fn spec_encrypt(self) -> EncryptMode {
        match self {
            Mode::M11 | Mode::M21 => EncryptMode::Off,
            Mode::M12 | Mode::M22 => EncryptMode::Aes,
        }
    }

    /// The mode byte for a pair of modes.
    pub open spec fn spec_from_modes(compress: CompressMode, encrypt: EncryptMode) -> Mode {
        match (compress, encrypt) {
            (CompressMode::Off, EncryptMode::Off) => Mode::M11,
            (CompressMode::Off, EncryptMode::Aes) => Mode::M12,
            (CompressMode::Zlib, EncryptMode::Off) => Mode::M21,
            (CompressMode::Zlib, EncryptMode::Aes) => Mode::M22,
        }
    }

    /// The byte on disk: compress nibble high, encrypt nibble low.
    pub open spec fn spec_to_u8(self) -> u8 {
        (16 * self.spec_compress().spec_to_u8() + self.spec_encrypt().spec_to_u8()) as u8
    }

    /// The mode a byte on disk stands for, if both nibbles are known.
    pub open spec fn spec_from_u8(b: u8) -> Option<Mode> {
        match (CompressMode::spec_from_u8(b / 16), EncryptMode::spec_from_u8(b % 16)) {
            (Some(c), Some(e)) => Some(Mode::spec_from_modes(c, e)),
            _ => None,
        }
    }

    pub fn compress(&self) -> (c: CompressMode)
        ensures
            c == self.spec_compress(),
    {
        match self {
            Mode::M11 | Mode::M12 => CompressMode::Off,
            Mode::M21 | Mode::M22 => CompressMode::Zlib,
        }
    }

    pub fn encrypt(&self) -> (e: EncryptMode)
        ensures
            e == self.spec_encrypt(),
    {
        match self {
            Mode::M11 | Mode::M21 => EncryptMode::Off,
            Mode::M12 | Mode::M22 => EncryptMode::Aes,
        }
    }

    pub fn to_u8(&self) -> (b: u8)
        ensures
            b == self.spec_to_u8(),
            b == 0x11 || b == 0x12 || b == 0x21 || b == 0x22,
    {
        match self {
            Mode::M11 => 0x11,
            Mode::M12 => 0x12,
            Mode::M21 => 0x21,
            Mode::M22 => 0x22,
        }
    }

    pub fn from_u8(b: u8) -> (m: Option<Mode>)
        ensures
            m == Self::spec_from_u8(b),
    {
        if b == 0x11 {
            Some(Mode::M11)
        } else if b == 0x12 {
            Some(Mode::M12)
        } else if b == 0x21 {
            Some(Mode::M21)
        } else if b == 0x22 {
            Some(Mode::M22)
        } else {
            None
        }
    }
}

impl<'a> From<&'a (CompressMode, EncryptMode)> for Mode {
    fn from(mode: &'a (CompressMode, EncryptMode)) -> (m: Mode) {
        match mode {
            (CompressMode::Off, EncryptMode::Off) => Mode::M11,
            (CompressMode::Off, EncryptMode::Aes) => Mode::M12,
            (CompressMode::Zlib, EncryptMode::Off) => Mode::M21,
            (CompressMode::Zlib, EncryptMode::Aes) => Mode::M22,
        }
    }
}

impl<'a> vstd::std_specs::convert::FromSpecImpl<&'a (CompressMode, EncryptMode)> for Mode {
    open spec fn obeys_from_spec() -> bool {
        true
    }

    open spec fn from_spec(mode: &'a (CompressMode, EncryptMode)) -> Mode {
        Mode::spec_from_modes(mode.0, mode.1)
    }
}

/// Every mode byte decodes to the mode it was made from, and every byte
/// that decodes is the byte of the mode it decodes to.
pub proof fn lemma_mode_byte_round_trip(m: Mode, b: u8)
    ensures
        Mode::spec_from_u8(m.spec_to_u8()) == Some(m),
        Mode::spec_from_modes(m.spec_compress(), m.spec_encrypt()) == m,
        Mode::spec_from_u8(b) matches Some(d) ==> d.spec_to_u8() == b,
{
}

} // verus!
