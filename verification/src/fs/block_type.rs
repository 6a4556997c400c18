use vstd::prelude::*;

use crate::errors::Error;

verus! {

/// What a block is, as its first word says.
#[derive(Clone, Copy, Debug, PartialEq, Eq, Structural)]
pub enum BlockPrimaryType {
    Header,
    Data,
    List,
}

impl BlockPrimaryType {
    /// The number that stands for the type on disk.
    pub open spec fn spec_to_u32(self) -> u32 {
        match self {
            BlockPrimaryType::Header => 2,
            BlockPrimaryType::Data => 8,
            BlockPrimaryType::List => 16,
        }
    }

    /// The type that `value` stands for, if any.
    pub open spec fn spec_try_from(value: u32) -> Result<BlockPrimaryType, Error> {
        if value == 2 {
            Ok(BlockPrimaryType::Header)
        } else if value == 8 {
            Ok(BlockPrimaryType::Data)
        } else if value == 16 {
            Ok(BlockPrimaryType::List)
        } else {
            Err(Error::InvalidFilesystemBlockPrimaryTypeError(value))
        }
    }

    #[verifier::when_used_as_spec(spec_to_u32)]
    pub fn to_u32(self) -> (value: u32)
        ensures
            value == self.spec_to_u32(),
    {
        match self {
            BlockPrimaryType::Header => 2,
            BlockPrimaryType::Data => 8,
            BlockPrimaryType::List => 16,
        }
    }

    pub fn try_from(value: u32) -> (res: Result<BlockPrimaryType, Error>)
        ensures
            res == Self::spec_try_from(value),
    {
        if value == BlockPrimaryType::Header.to_u32() {
            Ok(BlockPrimaryType::Header)
        } else if value == BlockPrimaryType::Data.to_u32() {
            Ok(BlockPrimaryType::Data)
        } else if value == BlockPrimaryType::List.to_u32() {
            Ok(BlockPrimaryType::List)
        } else {
            Err(Error::InvalidFilesystemBlockPrimaryTypeError(value))
        }
    }

    /// Reading back the number of a type gives the type.
    pub proof fn lemma_roundtrip(self)
        ensures
            Self::spec_try_from(self.spec_to_u32()) == Ok::<BlockPrimaryType, Error>(self),
    {
    }
}

/// What a header or list block is for, as its last word says.
#[derive(Clone, Copy, Debug, PartialEq, Eq, Structural)]
pub enum BlockSecondaryType {
    Root,
    Directory,
    SoftLink,
    HardLinkDirectory,
    HardLinkFile,
    File,
}

impl BlockSecondaryType {
    /// The number that stands for the type on disk; the last two are -4 and
    /// -3 as 32-bit numbers.
    pub open spec fn spec_to_u32(self) -> u32 {
        match self {
            BlockSecondaryType::Root => 1,
            BlockSecondaryType::Directory => 2,
            BlockSecondaryType::SoftLink => 3,
            BlockSecondaryType::HardLinkDirectory => 4,
            BlockSecondaryType::HardLinkFile => 0xffff_fffc,
            BlockSecondaryType::File => 0xffff_fffd,
        }
    }

    /// The type that `value` stands for, if any.
    pub open spec fn spec_try_from(value: u32) -> Result<BlockSecondaryType, Error> {
        if value == 1 {
            Ok(BlockSecondaryType::Root)
        } else if value == 2 {
            Ok(BlockSecondaryType::Directory)
        } else if value == 3 {
            Ok(BlockSecondaryType::SoftLink)
        } else if value == 4 {
            Ok(BlockSecondaryType::HardLinkDirectory)
        } else if value == 0xffff_fffc {
            Ok(BlockSecondaryType::HardLinkFile)
        } else if value == 0xffff_fffd {
            Ok(BlockSecondaryType::File)
        } else {
            Err(Error::InvalidFilesystemBlockSecondaryTypeError(value))
        }
    }

    #[verifier::when_used_as_spec(spec_to_u32)]
    pub fn to_u32(self) -> (value: u32)
        ensures
            value == self.spec_to_u32(),
    {
        match self {
            BlockSecondaryType::Root => 1,
            BlockSecondaryType::Directory => 2,
            BlockSecondaryType::SoftLink => 3,
            BlockSecondaryType::HardLinkDirectory => 4,
            BlockSecondaryType::HardLinkFile => 0xffff_fffc,
            BlockSecondaryType::File => 0xffff_fffd,
        }
    }

    pub fn try_from(value: u32) -> (res: Result<BlockSecondaryType, Error>)
        ensures
            res == Self::spec_try_from(value),
    {
        if value == BlockSecondaryType::Root.to_u32() {
            Ok(BlockSecondaryType::Root)
        } else if value == BlockSecondaryType::Directory.to_u32() {
            Ok(BlockSecondaryType::Directory)
        } else if value == BlockSecondaryType::SoftLink.to_u32() {
            Ok(BlockSecondaryType::SoftLink)
        } else if value == BlockSecondaryType::HardLinkDirectory.to_u32() {
            Ok(BlockSecondaryType::HardLinkDirectory)
        } else if value == BlockSecondaryType::HardLinkFile.to_u32() {
            Ok(BlockSecondaryType::HardLinkFile)
        } else if value == BlockSecondaryType::File.to_u32() {
            Ok(BlockSecondaryType::File)
        } else {
            Err(Error::InvalidFilesystemBlockSecondaryTypeError(value))
        }
    }

    /// Reading back the number of a type gives the type.
    pub proof fn lemma_roundtrip(self)
        ensures
            Self::spec_try_from(self.spec_to_u32()) == Ok::<BlockSecondaryType, Error>(self),
    {
    }
}

} // verus!
