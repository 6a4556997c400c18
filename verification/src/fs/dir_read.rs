use vstd::prelude::*;
use vstd::string::{StrSliceExecFns, StringExecFns, StringSliceAdditionalSpecFns};
use vstd::utf8::decode_utf8;

use crate::block::Block;
use crate::disk::{Disk, LBAAddress};
use crate::errors::Error;
use crate::fs::amiga_dos::AmigaDos;
use crate::fs::block::{
    spec_block_count, spec_block_table_address, spec_hash_chain_next_address, spec_name_bytes,
};
use crate::fs::constants::BLOCK_TABLE_SIZE;
use crate::fs::dir::{spec_check_directory, Dir};
use crate::fs::lookup::spec_lookup;
use crate::fs::metadata::{spec_metadata, FileType, Metadata, MetadataView};

verus! {

broadcast use Disk::lemma_len;

/// The path of an entry named `name` of the directory at the path
/// `parent`: the two joined by a `/`, unless the path of the directory is
/// empty or ends in one.
pub open spec fn spec_join(parent: Seq<char>, name: Seq<char>) -> Seq<char> {
    if parent.len() > 0 && parent.last() != '/' {
        parent + seq!['/'] + name
    } else {
        parent + name
    }
}

fn join(parent: &str, name: &str) -> (path: String)
    ensures
        path@ == spec_join(parent@, name@),
{
    let mut path = String::from_str(parent);
    let len: usize = parent.unicode_len();
    if len > 0 && parent.get_char(len - 1) != '/' {
        proof {
            reveal_strlit("/");
        }
        path.append("/");
        assert("/"@ =~= seq!['/']);
    }
    path.append(name);
    path
}

/// An entry of a directory, as listing the directory gives it.
#[derive(Debug)]
pub struct DirEntry {
    metadata: Metadata,
    name: String,
    path: String,
}

/// An entry of a directory: the plain values that `DirEntry` holds.
pub struct DirEntryView {
    pub metadata: MetadataView,
    pub name: Seq<char>,
    pub path: Seq<char>,
}

impl View for DirEntry {
    type V = DirEntryView;

    closed spec fn view(&self) -> DirEntryView {
        DirEntryView { metadata: self.metadata@, name: self.name@, path: self.path@ }
    }
}

impl DirEntry {
    pub fn file_type(&self) -> (res: FileType)
        ensures
            res == self@.metadata.file_type,
    {
        self.metadata.file_type()
    }

    pub fn metadata(&self) -> (res: Metadata)
        ensures
            res@ == self@.metadata,
    {
        self.metadata.duplicate()
    }

    pub fn name(&self) -> (res: &str)
        ensures
            res@ == self@.name,
    {
        self.name.as_str()
    }

    pub fn path(&self) -> (res: &str)
        ensures
            res@ == self@.path,
    {
        self.path.as_str()
    }
}

/// Where the listing of a directory stands: the slot of the hash table
/// that comes next, the block of the hash chain that comes next, and how
/// many entries may still be listed before the chains are held to run in a
/// circle.
pub struct DirCursor {
    pub index: usize,
    pub addr: Option<usize>,
    pub fuel: usize,
}

/// The listing of a directory, entry by entry: the slots of the hash table
/// in their order, and each hash chain from its head on.
#[derive(Debug)]
pub struct DirIterator {
    current_table_index: usize,
    current_table_addr: Option<LBAAddress>,
    fuel: usize,
    header_block_address: LBAAddress,
    path: String,
}

/// The cursor moved to the next entry, if it stands between two chains:
/// the slots of the table are read from `index` on until one is not empty.
pub open spec fn spec_table_next(image: Seq<u8>, header: usize, index: usize, addr: Option<usize>) -> Result<
    (usize, Option<usize>),
    Error,
>
    decreases 72 - index,
{
    if addr is Some || index >= 72 {
        Ok((index, addr))
    } else {
        match spec_block_table_address(image, header, index) {
            Err(e) => Err(e),
            Ok(head) => spec_table_next(image, header, (index + 1) as usize, head),
        }
    }
}

/// What one step of the listing of the directory `header` gives, and where
/// it leaves the cursor: the header block of the next entry, an error, or
/// nothing when the listing is over. An error leaves the cursor where it
/// was, but for a chain that runs in a circle, which ends the listing.
pub open spec fn spec_dir_next(image: Seq<u8>, header: usize, cursor: DirCursor) -> (
    DirCursor,
    Option<Result<usize, Error>>,
) {
    match spec_table_next(image, header, cursor.index, cursor.addr) {
        Err(e) => (cursor, Some(Err(e))),
        Ok((index, addr)) => match addr {
            None => (DirCursor { index, addr, fuel: cursor.fuel }, None),
            Some(entry) => if cursor.fuel == 0 {
                (DirCursor { index: 72, addr: None, fuel: 0 }, Some(Err(Error::CorruptedImageFile)))
            } else {
                match spec_metadata(image, entry) {
                    Err(e) => (cursor, Some(Err(e))),
                    Ok(_) => match spec_hash_chain_next_address(image, entry) {
                        Err(e) => (cursor, Some(Err(e))),
                        Ok(next) => (
                            DirCursor { index, addr: next, fuel: (cursor.fuel - 1) as usize },
                            Some(Ok(entry)),
                        ),
                    },
                }
            },
        },
    }
}

impl DirIterator {
    /// Where the listing stands.
    pub closed spec fn cursor(&self) -> DirCursor {
        DirCursor { index: self.current_table_index, addr: self.current_table_addr, fuel: self.fuel }
    }

    /// The header block of the directory that is listed.
    pub closed spec fn spec_header(&self) -> usize {
        self.header_block_address
    }

    /// The path of the directory that is listed.
    pub closed spec fn spec_path(&self) -> Seq<char> {
        self.path@
    }

    fn block_table_next(&self, disk: &Disk) -> (res: Result<(usize, Option<LBAAddress>), Error>)
        requires
            disk.wf(),
        ensures
            res == spec_table_next(
                disk@,
                self.header_block_address,
                self.current_table_index,
                self.current_table_addr,
            ),
    {
        let header_block = Block::new(self.header_block_address);
        let mut index: usize = self.current_table_index;
        let mut addr: Option<LBAAddress> = self.current_table_addr;
        while addr.is_none() && index < BLOCK_TABLE_SIZE
            invariant
                disk.wf(),
                header_block.address == self.header_block_address,
                spec_table_next(disk@, self.header_block_address, index, addr) == spec_table_next(
                    disk@,
                    self.header_block_address,
                    self.current_table_index,
                    self.current_table_addr,
                ),
            decreases 72 - index,
        {
            match header_block.read_block_table_address(disk, index) {
                Ok(head) => {
                    addr = head;
                },
                Err(e) => {
                    return Err(e);
                },
            }
            index = index + 1;
        }
        Ok((index, addr))
    }

    /// The next entry of the directory, an error, or nothing when the
    /// listing is over.
    pub fn next(&mut self, fs: &AmigaDos) -> (res: Option<Result<DirEntry, Error>>)
        requires
            fs.wf(),
        ensures
            final(self).spec_header() == old(self).spec_header(),
            final(self).spec_path() == old(self).spec_path(),
            ({
                let (cursor, step) = spec_dir_next(fs@, old(self).spec_header(), old(self).cursor());
                &&& final(self).cursor() == cursor
                &&& match step {
                    None => res is None,
                    Some(Err(e)) => res matches Some(Err(err)) && err == e,
                    Some(Ok(entry)) => res matches Some(Ok(dir_entry)) && spec_metadata(fs@, entry) == Ok::<
                        MetadataView,
                        Error,
                    >(dir_entry@.metadata) && dir_entry@.name == decode_utf8(dir_entry@.metadata.name)
                        && dir_entry@.path == spec_join(old(self).spec_path(), dir_entry@.name),
                }
            }),
    {
        let disk = fs.disk();
        let (index, addr) = match self.block_table_next(disk) {
            Ok(place) => place,
            Err(err) => {
                return Some(Err(err));
            },
        };
        let block_addr: LBAAddress = match addr {
            Some(block_addr) => block_addr,
            None => {
                self.current_table_index = index;
                self.current_table_addr = None;
                return None;
            },
        };
        if self.fuel == 0 {
            self.current_table_index = BLOCK_TABLE_SIZE;
            self.current_table_addr = None;
            return Some(Err(Error::CorruptedImageFile));
        }
        let block = Block::new(block_addr);
        let metadata = match Metadata::try_from(disk, &block) {
            Ok(metadata) => metadata,
            Err(err) => {
                return Some(Err(err));
            },
        };
        let name = match block.read_name(disk) {
            Ok(name) => name,
            Err(err) => {
                return Some(Err(err));
            },
        };
        let path = join(self.path.as_str(), name.as_str());
        let next = match block.read_hash_chain_next_address(disk) {
            Ok(next) => next,
            Err(err) => {
                return Some(Err(err));
            },
        };
        self.current_table_index = index;
        self.current_table_addr = next;
        self.fuel = self.fuel - 1;
        Some(Ok(DirEntry { metadata, name, path }))
    }
}

impl AmigaDos {
    /// The listing of the directory at `path`, set before its first entry.
    pub fn read_dir(&self, path: &str) -> (res: Result<DirIterator, Error>)
        requires
            self.wf(),
        ensures
            match spec_lookup(self@, path.spec_bytes()) {
                Err(e) => res matches Err(err) && err == e,
                Ok(address) => match spec_check_directory(self@, address) {
                    Err(e) => res matches Err(err) && err == e,
                    Ok(_) => res matches Ok(iterator) && iterator.spec_header() == address
                        && iterator.spec_path() == path@ && iterator.cursor() == (DirCursor {
                        index: 0,
                        addr: None,
                        fuel: spec_block_count(self@) as usize,
                    }),
                },
            },
    {
        let address: LBAAddress = match self.lookup(path) {
            Ok(address) => address,
            Err(e) => {
                return Err(e);
            },
        };
        let dir = match Dir::try_with_block_address(self.disk(), address) {
            Ok(dir) => dir,
            Err(e) => {
                return Err(e);
            },
        };
        Ok(
            DirIterator {
                current_table_index: 0,
                current_table_addr: None,
                fuel: self.disk().block_count(),
                header_block_address: dir.header_block_address,
                path: String::from_str(path),
            },
        )
    }
}

/// Whether `entry` is the first block that holds the name `name` in the
/// hash chain that starts at `addr`: the chain leads to it within `fuel`
/// blocks, through entries that hold other names.
pub open spec fn spec_first_named(image: Seq<u8>, name: Seq<u8>, addr: Option<usize>, entry: usize, fuel: nat) -> bool
    decreases fuel,
{
    match addr {
        None => false,
        Some(block) => fuel > 0 && match crate::fs::block::spec_name_bytes(image, block) {
            Err(_) => false,
            Ok(held) => if block == entry {
                held == name
            } else {
                held != name && spec_first_named(
                    image,
                    name,
                    crate::fs::amiga_dos::spec_to_address(crate::block::spec_read_u32(image, block as int, 496)),
                    entry,
                    (fuel - 1) as nat,
                )
            },
        },
    }
}

/// The listing of a directory goes along its hash chains: a step of the
/// listing that stands at a block of a chain yields that block, when its
/// metadata can be read, and goes on to the block that follows it in the
/// chain.
pub proof fn lemma_listing_follows_chain(image: Seq<u8>, header: usize, cursor: DirCursor)
    requires
        cursor.addr is Some,
        cursor.fuel > 0,
        spec_metadata(image, cursor.addr->Some_0) is Ok,
    ensures
        spec_dir_next(image, header, cursor).1 == Some(Ok::<usize, Error>(cursor.addr->Some_0)),
        spec_dir_next(image, header, cursor).0.addr == crate::fs::amiga_dos::spec_to_address(
            crate::block::spec_read_u32(image, cursor.addr->Some_0 as int, 496),
        ),
{
}

/// The search finds what the listing yields: an entry that stands in the
/// hash chain of the slot of its name, before any other entry of that
/// name, is the entry that the search of the directory for the name
/// finds.
pub proof fn lemma_lookup_finds_listed(image: Seq<u8>, dir: usize, name: Seq<u8>, entry: usize)
    requires
        crate::fs::dir::spec_hash_chain_head(image, dir, name) matches Ok(head) && spec_first_named(
            image,
            name,
            head,
            entry,
            crate::fs::block::spec_block_count(image),
        ),
    ensures
        crate::fs::dir::spec_dir_lookup(image, dir, name) == Ok::<Option<usize>, Error>(Some(entry)),
{
    let head = crate::fs::dir::spec_hash_chain_head(image, dir, name)->Ok_0;
    lemma_first_named_found(image, name, head, None, entry, crate::fs::block::spec_block_count(image));
}

/// The search of a hash chain finds the first block that holds the name.
pub proof fn lemma_first_named_found(
    image: Seq<u8>,
    name: Seq<u8>,
    addr: Option<usize>,
    prev: Option<usize>,
    entry: usize,
    fuel: nat,
)
    requires
        spec_first_named(image, name, addr, entry, fuel),
    ensures
        crate::fs::dir::spec_locate_in_hash_chain(image, name, addr, prev, fuel) matches Ok(Some((_, found)))
            && found == entry,
    decreases fuel,
{
    let block = addr->Some_0;
    if block != entry {
        lemma_first_named_found(
            image,
            name,
            crate::fs::amiga_dos::spec_to_address(crate::block::spec_read_u32(image, block as int, 496)),
            Some(block),
            entry,
            (fuel - 1) as nat,
        );
    }
}

} // verus!
