use vstd::prelude::*;
use vstd::string::StringSliceAdditionalSpecFns;

use crate::errors::Error;

verus! {

/// The lower-case form of an ASCII letter; any other byte as it is.
pub open spec fn spec_ascii_lower(c: u8) -> u8 {
    if 0x41 <= c <= 0x5a {
        (c + 0x20) as u8
    } else {
        c
    }
}

/// Whether `text` is the lower-case word `word`, letter case aside.
pub open spec fn spec_is_word(text: Seq<u8>, word: Seq<u8>) -> bool {
    text.len() == word.len() && forall|i: int|
        0 <= i < text.len() ==> spec_ascii_lower(#[trigger] text[i]) == word[i]
}

fn ascii_lower(c: u8) -> (lower: u8)
    ensures
        lower == spec_ascii_lower(c),
{
    if 0x41 <= c && c <= 0x5a {
        c + 0x20
    } else {
        c
    }
}

fn is_word(text: &[u8], word: &[u8]) -> (res: bool)
    ensures
        res == spec_is_word(text@, word@),
{
    if text.len() != word.len() {
        return false;
    }
    let len: usize = text.len();
    let mut i: usize = 0;
    while i < len
        invariant
            i <= len,
            len == text@.len(),
            len == word@.len(),
            forall|j: int| 0 <= j < i ==> spec_ascii_lower(#[trigger] text@[j]) == word@[j],
        decreases len - i,
    {
        if ascii_lower(text[i]) != word[i] {
            return false;
        }
        i = i + 1;
    }
    true
}

/// The two flavours of the file system: the old one, whose data blocks
/// carry a header, and the fast one, whose data blocks are all payload.
#[derive(Clone, Copy, Debug, PartialEq, Eq, Structural)]
pub enum FilesystemType {
    OFS,
    FFS,
}

impl Default for FilesystemType {
    fn default() -> (res: Self)
        ensures
            res == FilesystemType::OFS,
    {
        FilesystemType::OFS
    }
}

impl FilesystemType {
    /// The bit of the boot block's flag byte that stands for this value.
    pub open spec fn spec_flag(self) -> u8 {
        match self {
            FilesystemType::OFS => 0,
            FilesystemType::FFS => 0x01,
        }
    }

    /// The value that the text names: "ofs" or "ffs", letter case aside.
    pub open spec fn spec_from_str(text: Seq<u8>) -> Result<FilesystemType, Error> {
        if spec_is_word(text, "ofs".spec_bytes()) {
            Ok(FilesystemType::OFS)
        } else if spec_is_word(text, "ffs".spec_bytes()) {
            Ok(FilesystemType::FFS)
        } else {
            Err(Error::InvalidFilesystemTypeError)
        }
    }

    #[verifier::when_used_as_spec(spec_flag)]
    pub fn flag(self) -> (flag: u8)
        ensures
            flag == self.spec_flag(),
    {
        match self {
            FilesystemType::OFS => 0,
            FilesystemType::FFS => 0x01,
        }
    }

    pub fn from_str(s: &str) -> (res: Result<FilesystemType, Error>)
        ensures
            res == Self::spec_from_str(s.spec_bytes()),
    {
        let text = s.as_bytes();
        if is_word(text, "ofs".as_bytes()) {
            Ok(FilesystemType::OFS)
        } else if is_word(text, "ffs".as_bytes()) {
            Ok(FilesystemType::FFS)
        } else {
            Err(Error::InvalidFilesystemTypeError)
        }
    }

    /// The name of the value, as it is shown to a user.
    pub fn to_string(&self) -> (text: String)
        ensures
            text@ == match self {
                FilesystemType::OFS => "OFS"@,
                FilesystemType::FFS => "FFS"@,
            },
    {
        match self {
            FilesystemType::OFS => "OFS".to_owned(),
            FilesystemType::FFS => "FFS".to_owned(),
        }
    }
}

/// Whether names are hashed with the international upper-case rule.
#[derive(Clone, Copy, Debug, PartialEq, Eq, Structural)]
pub enum InternationalMode {
    Off,
    On,
}

impl Default for InternationalMode {
    fn default() -> (res: Self)
        ensures
            res == InternationalMode::Off,
    {
        InternationalMode::Off
    }
}

impl InternationalMode {
    /// The bit of the boot block's flag byte that stands for this value.
    pub open spec fn spec_flag(self) -> u8 {
        match self {
            InternationalMode::Off => 0,
            InternationalMode::On => 0x02,
        }
    }

    /// The value that the text names: "on" or "yes", "off" or "no", letter
    /// case aside.
    pub open spec fn spec_from_str(text: Seq<u8>) -> Result<InternationalMode, Error> {
        if spec_is_word(text, "on".spec_bytes()) || spec_is_word(text, "yes".spec_bytes()) {
            Ok(InternationalMode::On)
        } else if spec_is_word(text, "off".spec_bytes()) || spec_is_word(text, "no".spec_bytes()) {
            Ok(InternationalMode::Off)
        } else {
            Err(Error::InvalidInternationalModeError)
        }
    }

    #[verifier::when_used_as_spec(spec_flag)]
    pub fn flag(self) -> (flag: u8)
        ensures
            flag == self.spec_flag(),
    {
        match self {
            InternationalMode::Off => 0,
            InternationalMode::On => 0x02,
        }
    }

    pub fn from_str(s: &str) -> (res: Result<InternationalMode, Error>)
        ensures
            res == Self::spec_from_str(s.spec_bytes()),
    {
        let text = s.as_bytes();
        if is_word(text, "on".as_bytes()) || is_word(text, "yes".as_bytes()) {
            Ok(InternationalMode::On)
        } else if is_word(text, "off".as_bytes()) || is_word(text, "no".as_bytes()) {
            Ok(InternationalMode::Off)
        } else {
            Err(Error::InvalidInternationalModeError)
        }
    }

    /// The name of the value, as it is shown to a user.
    pub fn to_string(&self) -> (text: String)
        ensures
            text@ == match self {
                InternationalMode::On => "INTL-ON"@,
                InternationalMode::Off => "INTL-OFF"@,
            },
    {
        match self {
            InternationalMode::On => "INTL-ON".to_owned(),
            InternationalMode::Off => "INTL-OFF".to_owned(),
        }
    }
}

/// Whether the volume is flagged as having a directory cache. The flag is
/// kept as it is; no cache blocks are written.
#[derive(Clone, Copy, Debug, PartialEq, Eq, Structural)]
pub enum CacheMode {
    Off,
    On,
}

impl Default for CacheMode {
    fn default() -> (res: Self)
        ensures
            res == CacheMode::Off,
    {
        CacheMode::Off
    }
}

impl CacheMode {
    /// The bit of the boot block's flag byte that stands for this value.
    pub open spec fn spec_flag(self) -> u8 {
        match self {
            CacheMode::Off => 0,
            CacheMode::On => 0x04,
        }
    }

    /// The value that the text names: "on" or "yes", "off" or "no", letter
    /// case aside.
    pub open spec fn spec_from_str(text: Seq<u8>) -> Result<CacheMode, Error> {
        if spec_is_word(text, "on".spec_bytes()) || spec_is_word(text, "yes".spec_bytes()) {
            Ok(CacheMode::On)
        } else if spec_is_word(text, "off".spec_bytes()) || spec_is_word(text, "no".spec_bytes()) {
            Ok(CacheMode::Off)
        } else {
            Err(Error::InvalidCacheModeError)
        }
    }

    #[verifier::when_used_as_spec(spec_flag)]
    pub fn flag(self) -> (flag: u8)
        ensures
            flag == self.spec_flag(),
    {
        match self {
            CacheMode::Off => 0,
            CacheMode::On => 0x04,
        }
    }

    pub fn from_str(s: &str) -> (res: Result<CacheMode, Error>)
        ensures
            res == Self::spec_from_str(s.spec_bytes()),
    {
        let text = s.as_bytes();
        if is_word(text, "on".as_bytes()) || is_word(text, "yes".as_bytes()) {
            Ok(CacheMode::On)
        } else if is_word(text, "off".as_bytes()) || is_word(text, "no".as_bytes()) {
            Ok(CacheMode::Off)
        } else {
            Err(Error::InvalidCacheModeError)
        }
    }

    /// The name of the value, as it is shown to a user.
    pub fn to_string(&self) -> (text: String)
        ensures
            text@ == match self {
                CacheMode::On => "CACHE-ON"@,
                CacheMode::Off => "CACHE-OFF"@,
            },
    {
        match self {
            CacheMode::On => "CACHE-ON".to_owned(),
            CacheMode::Off => "CACHE-OFF".to_owned(),
        }
    }
}

} // verus!
