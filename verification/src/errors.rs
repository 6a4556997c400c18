use vstd::prelude::*;

verus! {

/// Every failure the library reports.
#[derive(Clone, Debug, PartialEq, Eq)]
pub enum Error {
    BadFileDescriptor,
    CorruptedImageFile,
    InvalidDataBlockIndexError(usize),
    InvalidHashError(usize),
    InvalidNameError,
    InvalidNameLengthError(usize),
    InvalidPathError,
    InvalidStringError,
    InvalidFileModeError,
    InvalidFilesystemTypeError,
    InvalidCacheModeError,
    InvalidInternationalModeError,
    FileEOF,
    InvalidFilesystemBlockPrimaryTypeError(u32),
    UnexpectedFilesystemBlockPrimaryTypeError(u32),
    InvalidFilesystemBlockSecondaryTypeError(u32),
    UnexpectedFilesystemBlockSecondaryTypeError(u32),
    AlreadyExists,
    NotADirectoryError,
    NotAFileError,
    NotFoundError,
    NoSpaceLeft,
    DiskInvalidLBAAddressError(usize),
    DiskInvalidBlockOffsetError(usize),
    DiskInvalidSizeError(usize),
}

} // verus!
