use vstd::prelude::*;
use vstd::string::StringSliceAdditionalSpecFns;
use vstd::utf8::encode_utf8;

use crate::block::{spec_read_u32, Block};
use crate::disk::{Disk, LBAAddress};
use crate::errors::Error;
use crate::fs::amiga_dos::{AmigaDos, AmigaDosInner};
use crate::fs::block::{
    spec_alteration_date, spec_block_secondary_type, spec_file_size, spec_name_bytes,
};
use crate::fs::block_type::BlockSecondaryType;
use crate::fs::constants::BLOCK_PROTECT_OFFSET;
use crate::fs::lookup::spec_lookup;

verus! {

broadcast use Disk::lemma_len;

/// What an entry of a directory is.
#[derive(Clone, Copy, Debug, PartialEq, Eq, Structural)]
pub enum FileType {
    File,
    Dir,
    Link,
}

impl Default for FileType {
    fn default() -> (res: Self)
        ensures
            res == FileType::File,
    {
        Self::File
    }
}

impl FileType {
    /// What an entry is, given the secondary type of its header block.
    pub open spec fn spec_of(secondary: BlockSecondaryType) -> FileType {
        match secondary {
            BlockSecondaryType::Root => FileType::Dir,
            BlockSecondaryType::Directory => FileType::Dir,
            BlockSecondaryType::HardLinkDirectory => FileType::Dir,
            BlockSecondaryType::File => FileType::File,
            BlockSecondaryType::HardLinkFile => FileType::File,
            BlockSecondaryType::SoftLink => FileType::Link,
        }
    }

    /// What an entry is, given the secondary type of its header block.
    pub fn of(secondary: BlockSecondaryType) -> (res: FileType)
        ensures
            res == Self::spec_of(secondary),
    {
        match secondary {
            BlockSecondaryType::Root => FileType::Dir,
            BlockSecondaryType::Directory => FileType::Dir,
            BlockSecondaryType::HardLinkDirectory => FileType::Dir,
            BlockSecondaryType::File => FileType::File,
            BlockSecondaryType::HardLinkFile => FileType::File,
            BlockSecondaryType::SoftLink => FileType::Link,
        }
    }

    /// The secondary type of the header block of a fresh entry of this
    /// kind.
    pub fn block_secondary_type(self) -> (res: BlockSecondaryType)
        ensures
            res == match self {
                FileType::Dir => BlockSecondaryType::Directory,
                FileType::File => BlockSecondaryType::File,
                FileType::Link => BlockSecondaryType::SoftLink,
            },
    {
        match self {
            FileType::Dir => BlockSecondaryType::Directory,
            FileType::File => BlockSecondaryType::File,
            FileType::Link => BlockSecondaryType::SoftLink,
        }
    }

    /// The letter that stands for the kind in a listing.
    pub fn to_char(self) -> (res: char)
        ensures
            res == match self {
                FileType::Dir => 'd',
                FileType::File => ' ',
                FileType::Link => 'l',
            },
    {
        match self {
            FileType::Dir => 'd',
            FileType::File => ' ',
            FileType::Link => 'l',
        }
    }
}

/// The protection bits of an entry. The four bits of the owner deny when
/// set; the bits of the group and of the others grant when set.
#[derive(Clone, Copy, Debug, PartialEq, Eq, Structural)]
pub struct Permissions(pub u32);

impl Permissions {
    pub fn owner_deletable(&self) -> (res: bool)
        ensures
            res == (self.0 & 0x00000001 == 0),
    {
        self.0 & 0x00000001 == 0
    }

    pub fn owner_executable(&self) -> (res: bool)
        ensures
            res == (self.0 & 0x00000002 == 0),
    {
        self.0 & 0x00000002 == 0
    }

    pub fn owner_writable(&self) -> (res: bool)
        ensures
            res == (self.0 & 0x00000004 == 0),
    {
        self.0 & 0x00000004 == 0
    }

    pub fn owner_readable(&self) -> (res: bool)
        ensures
            res == (self.0 & 0x00000008 == 0),
    {
        self.0 & 0x00000008 == 0
    }

    pub fn group_deletable(&self) -> (res: bool)
        ensures
            res == (self.0 & 0x00000100 != 0),
    {
        self.0 & 0x00000100 != 0
    }

    pub fn group_executable(&self) -> (res: bool)
        ensures
            res == (self.0 & 0x00000200 != 0),
    {
        self.0 & 0x00000200 != 0
    }

    pub fn group_writable(&self) -> (res: bool)
        ensures
            res == (self.0 & 0x00000400 != 0),
    {
        self.0 & 0x00000400 != 0
    }

    pub fn group_readable(&self) -> (res: bool)
        ensures
            res == (self.0 & 0x00000800 != 0),
    {
        self.0 & 0x00000800 != 0
    }

    pub fn other_deletable(&self) -> (res: bool)
        ensures
            res == (self.0 & 0x00001000 != 0),
    {
        self.0 & 0x00001000 != 0
    }

    pub fn other_executable(&self) -> (res: bool)
        ensures
            res == (self.0 & 0x00002000 != 0),
    {
        self.0 & 0x00002000 != 0
    }

    pub fn other_writable(&self) -> (res: bool)
        ensures
            res == (self.0 & 0x00004000 != 0),
    {
        self.0 & 0x00004000 != 0
    }

    pub fn other_readable(&self) -> (res: bool)
        ensures
            res == (self.0 & 0x00008000 != 0),
    {
        self.0 & 0x00008000 != 0
    }

    /// The twelve letters that stand for the protection bits in a listing:
    /// read, write, execute and delete for the owner, for the group and
    /// for the others, each its letter where it is allowed and a dash
    /// where it is not.
    pub open spec fn spec_to_text(&self) -> Seq<char> {
        seq![
            spec_flag_letter(self.0 & 0x00000008 == 0, 'r'),
            spec_flag_letter(self.0 & 0x00000004 == 0, 'w'),
            spec_flag_letter(self.0 & 0x00000002 == 0, 'e'),
            spec_flag_letter(self.0 & 0x00000001 == 0, 'd'),
            spec_flag_letter(self.0 & 0x00000800 != 0, 'r'),
            spec_flag_letter(self.0 & 0x00000400 != 0, 'w'),
            spec_flag_letter(self.0 & 0x00000200 != 0, 'e'),
            spec_flag_letter(self.0 & 0x00000100 != 0, 'd'),
            spec_flag_letter(self.0 & 0x00008000 != 0, 'r'),
            spec_flag_letter(self.0 & 0x00004000 != 0, 'w'),
            spec_flag_letter(self.0 & 0x00002000 != 0, 'e'),
            spec_flag_letter(self.0 & 0x00001000 != 0, 'd'),
        ]
    }

    /// The protection bits as they are shown in a listing.
    pub fn to_string(&self) -> (text: String)
        ensures
            text@ == self.spec_to_text(),
    {
        let mut text = group_text(
            self.owner_readable(),
            self.owner_writable(),
            self.owner_executable(),
            self.owner_deletable(),
        );
        let group = group_text(
            self.group_readable(),
            self.group_writable(),
            self.group_executable(),
            self.group_deletable(),
        );
        let other = group_text(
            self.other_readable(),
            self.other_writable(),
            self.other_executable(),
            self.other_deletable(),
        );
        text.append(group.as_str());
        text.append(other.as_str());
        assert(text@ =~= self.spec_to_text());
        text
    }
}

/// The letter `letter` where `set` holds, a dash where it does not.
pub open spec fn spec_flag_letter(set: bool, letter: char) -> char {
    if set {
        letter
    } else {
        '-'
    }
}

/// What a protection bit allows.
#[derive(Clone, Copy)]
enum Letter {
    Read,
    Write,
    Execute,
    Delete,
}

impl Letter {
    spec fn spec_char(self) -> char {
        match self {
            Letter::Read => 'r',
            Letter::Write => 'w',
            Letter::Execute => 'e',
            Letter::Delete => 'd',
        }
    }
}

fn group_text(read: bool, write: bool, execute: bool, delete: bool) -> (text: String)
    ensures
        text@ == seq![
            spec_flag_letter(read, 'r'),
            spec_flag_letter(write, 'w'),
            spec_flag_letter(execute, 'e'),
            spec_flag_letter(delete, 'd'),
        ],
{
    let mut text = String::from_str(flag_text(read, Letter::Read));
    text.append(flag_text(write, Letter::Write));
    text.append(flag_text(execute, Letter::Execute));
    text.append(flag_text(delete, Letter::Delete));
    assert(text@ =~= seq![
        spec_flag_letter(read, 'r'),
        spec_flag_letter(write, 'w'),
        spec_flag_letter(execute, 'e'),
        spec_flag_letter(delete, 'd'),
    ]);
    text
}

fn flag_text(set: bool, letter: Letter) -> (text: &'static str)
    ensures
        text@ == seq![spec_flag_letter(set, letter.spec_char())],
{
    proof {
        reveal_strlit("-");
        reveal_strlit("r");
        reveal_strlit("w");
        reveal_strlit("e");
        reveal_strlit("d");
    }
    if !set {
        assert("-"@ =~= seq!['-']);
        "-"
    } else {
        match letter {
            Letter::Read => {
                assert("r"@ =~= seq!['r']);
                "r"
            },
            Letter::Write => {
                assert("w"@ =~= seq!['w']);
                "w"
            },
            Letter::Execute => {
                assert("e"@ =~= seq!['e']);
                "e"
            },
            Letter::Delete => {
                assert("d"@ =~= seq!['d']);
                "d"
            },
        }
    }
}

/// What is known of an entry: the plain values that `Metadata` holds.
pub struct MetadataView {
    pub header_block_address: usize,
    pub file_type: FileType,
    pub file_size: usize,
    pub permissions: Permissions,
    pub alteration_date: u64,
    pub name: Seq<u8>,
}

/// What is known of an entry of a volume.
#[derive(Debug)]
pub struct Metadata {
    header_block_address: LBAAddress,
    file_type: FileType,
    file_size: usize,
    permissions: Permissions,
    alteration_date: u64,
    name: String,
}

impl View for Metadata {
    type V = MetadataView;

    closed spec fn view(&self) -> MetadataView {
        MetadataView {
            header_block_address: self.header_block_address,
            file_type: self.file_type,
            file_size: self.file_size,
            permissions: self.permissions,
            alteration_date: self.alteration_date,
            name: encode_utf8(self.name@),
        }
    }
}

/// What the header block `address` says of its entry: when it was changed,
/// its name, what it is, its protection bits, and its size, which is zero
/// for anything but a file.
pub open spec fn spec_metadata(image: Seq<u8>, address: usize) -> Result<MetadataView, Error> {
    match spec_alteration_date(image, address) {
        Err(e) => Err(e),
        Ok(alteration_date) => match spec_name_bytes(image, address) {
            Err(e) => Err(e),
            Ok(name) => match spec_block_secondary_type(image, address) {
                Err(e) => Err(e),
                Ok(secondary) => {
                    let file_type = FileType::spec_of(secondary);
                    let permissions = Permissions(spec_read_u32(image, address as int, 320));
                    if secondary == BlockSecondaryType::File {
                        match spec_file_size(image, address) {
                            Err(e) => Err(e),
                            Ok(file_size) => Ok(
                                MetadataView {
                                    header_block_address: address,
                                    file_type,
                                    file_size,
                                    permissions,
                                    alteration_date,
                                    name,
                                },
                            ),
                        }
                    } else {
                        Ok(
                            MetadataView {
                                header_block_address: address,
                                file_type,
                                file_size: 0,
                                permissions,
                                alteration_date,
                                name,
                            },
                        )
                    }
                },
            },
        },
    }
}

/// What is known of the entry that a path leads to.
pub open spec fn spec_metadata_of(image: Seq<u8>, path: Seq<u8>) -> Result<MetadataView, Error> {
    match spec_lookup(image, path) {
        Err(e) => Err(e),
        Ok(address) => spec_metadata(image, address),
    }
}

/// Whether a path leads to an entry. A path that leads nowhere is no
/// error; anything else that goes wrong on the way is.
#[verifier::opaque]
pub open spec fn spec_exists(image: Seq<u8>, path: Seq<u8>) -> Result<bool, Error> {
    match spec_metadata_of(image, path) {
        Err(Error::NotFoundError) => Ok(false),
        Err(e) => Err(e),
        Ok(_) => Ok(true),
    }
}

impl Metadata {
    /// Reads what the header block `block` says of its entry.
    pub fn try_from(disk: &Disk, block: &Block) -> (res: Result<Metadata, Error>)
        requires
            disk.wf(),
        ensures
            match spec_metadata(disk@, block.address) {
                Err(e) => res matches Err(err) && err == e,
                Ok(view) => res matches Ok(metadata) && metadata@ == view,
            },
    {
        let header_block_address: LBAAddress = block.address;
        let alteration_date: u64 = match block.read_alteration_date(disk) {
            Ok(date) => date,
            Err(e) => {
                return Err(e);
            },
        };
        let name = match block.read_name(disk) {
            Ok(name) => name,
            Err(e) => {
                return Err(e);
            },
        };
        let secondary = match block.read_block_secondary_type(disk) {
            Ok(secondary) => secondary,
            Err(e) => {
                return Err(e);
            },
        };
        let file_type = FileType::of(secondary);
        let permissions = match block.read_u32(disk, BLOCK_PROTECT_OFFSET) {
            Ok(bits) => Permissions(bits),
            Err(e) => {
                return Err(e);
            },
        };
        let file_size: usize = match secondary {
            BlockSecondaryType::File => match block.read_file_size(disk) {
                Ok(size) => size,
                Err(e) => {
                    return Err(e);
                },
            },
            _ => 0,
        };
        Ok(Metadata { file_size, file_type, permissions, header_block_address, alteration_date, name })
    }

    pub fn file_type(&self) -> (res: FileType)
        ensures
            res == self@.file_type,
    {
        self.file_type
    }

    pub fn permissions(&self) -> (res: Permissions)
        ensures
            res == self@.permissions,
    {
        self.permissions
    }

    pub fn is_dir(&self) -> (res: bool)
        ensures
            res == (self@.file_type == FileType::Dir),
    {
        self.file_type == FileType::Dir
    }

    pub fn is_file(&self) -> (res: bool)
        ensures
            res == (self@.file_type == FileType::File),
    {
        self.file_type == FileType::File
    }

    pub fn is_symlink(&self) -> (res: bool)
        ensures
            res == (self@.file_type == FileType::Link),
    {
        self.file_type == FileType::Link
    }

    pub fn size(&self) -> (res: usize)
        ensures
            res == self@.file_size,
    {
        self.file_size
    }

    pub fn header_block_address(&self) -> (res: LBAAddress)
        ensures
            res == self@.header_block_address,
    {
        self.header_block_address
    }

    /// When the entry was last changed, in seconds since the Unix epoch.
    pub fn alteration_date(&self) -> (res: u64)
        ensures
            res == self@.alteration_date,
    {
        self.alteration_date
    }

    pub fn name(&self) -> (res: &str)
        ensures
            res.spec_bytes() == self@.name,
    {
        self.name.as_str()
    }

    /// A copy of this value.
    pub fn duplicate(&self) -> (res: Metadata)
        ensures
            res@ == self@,
    {
        Metadata {
            header_block_address: self.header_block_address,
            file_type: self.file_type,
            file_size: self.file_size,
            permissions: self.permissions,
            alteration_date: self.alteration_date,
            name: self.name.clone(),
        }
    }
}

impl AmigaDosInner {
    /// What the header block `header_block_address` says of its entry.
    pub fn metadata(&self, header_block_address: LBAAddress) -> (res: Result<Metadata, Error>)
        requires
            self.wf(),
        ensures
            match spec_metadata(self@, header_block_address) {
                Err(e) => res matches Err(err) && err == e,
                Ok(view) => res matches Ok(metadata) && metadata@ == view,
            },
    {
        let block = Block::new(header_block_address);
        Metadata::try_from(&self.disk, &block)
    }
}

impl AmigaDos {
    /// What is known of the entry that `path` leads to.
    pub fn metadata(&self, path: &str) -> (res: Result<Metadata, Error>)
        requires
            self.wf(),
        ensures
            match spec_metadata_of(self@, path.spec_bytes()) {
                Err(e) => res matches Err(err) && err == e,
                Ok(view) => res matches Ok(metadata) && metadata@ == view,
            },
    {
        match self.lookup(path) {
            Ok(header_block_address) => self.inner.metadata(header_block_address),
            Err(e) => Err(e),
        }
    }

    /// Whether `path` leads to an entry.
    pub fn try_exists(&self, path: &str) -> (res: Result<bool, Error>)
        requires
            self.wf(),
        ensures
            res == spec_exists(self@, path.spec_bytes()),
    {
        proof {
            reveal(spec_exists);
        }
        match self.metadata(path) {
            Err(Error::NotFoundError) => Ok(false),
            Err(err) => Err(err),
            Ok(_) => Ok(true),
        }
    }
}

} // verus!
