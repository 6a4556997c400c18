use vstd::prelude::*;
use vstd::string::StringSliceAdditionalSpecFns;

use crate::errors::Error;
use crate::fs::amiga_dos::AmigaDos;
use crate::fs::file::{spec_open, spec_test_file_mode, File, FileMode};

verus! {

/// How a file is to be opened.
#[derive(Clone, Copy, Debug, PartialEq, Eq, Structural)]
pub struct OpenOptions {
    pub read: bool,
    pub write: bool,
    pub append: bool,
    pub truncate: bool,
    pub create: bool,
    pub create_new: bool,
}

impl Default for OpenOptions {
    fn default() -> (res: Self)
        ensures
            res == OpenOptions::spec_new(),
    {
        Self { read: false, write: false, append: false, truncate: false, create: false, create_new: false }
    }
}

impl OpenOptions {
    /// The options with nothing set.
    pub open spec fn spec_new() -> OpenOptions {
        OpenOptions {
            read: false,
            write: false,
            append: false,
            truncate: false,
            create: false,
            create_new: false,
        }
    }

    pub fn new() -> (res: Self)
        ensures
            res == Self::spec_new(),
    {
        Self { read: false, write: false, append: false, truncate: false, create: false, create_new: false }
    }

    /// Whether the file is to be readable.
    pub fn read(&mut self, read: bool) -> (res: &mut Self)
        ensures
            *res == (OpenOptions { read, ..*old(self) }),
            *final(self) == *final(res),
    {
        self.read = read;
        self
    }

    /// Whether the file is to be writable. A file that is not writable is
    /// neither appended to nor truncated.
    pub fn write(&mut self, write: bool) -> (res: &mut Self)
        ensures
            *res == if write {
                OpenOptions { write: true, ..*old(self) }
            } else {
                OpenOptions { write: false, append: false, truncate: false, ..*old(self) }
            },
            *final(self) == *final(res),
    {
        if write {
            self.write = true;
        } else {
            self.append = false;
            self.truncate = false;
            self.write = false;
        }
        self
    }

    /// Whether writing is to start at the end of the file. A file that is
    /// appended to is writable.
    pub fn append(&mut self, append: bool) -> (res: &mut Self)
        ensures
            *res == if append {
                OpenOptions { append: true, write: true, ..*old(self) }
            } else {
                OpenOptions { append: false, ..*old(self) }
            },
            *final(self) == *final(res),
    {
        if append {
            self.append = true;
            self.write = true;
        } else {
            self.append = false;
        }
        self
    }

    /// Whether the file is to be emptied when it is opened. A file that is
    /// truncated is writable.
    pub fn truncate(&mut self, truncate: bool) -> (res: &mut Self)
        ensures
            *res == if truncate {
                OpenOptions { truncate: true, write: true, ..*old(self) }
            } else {
                OpenOptions { truncate: false, ..*old(self) }
            },
            *final(self) == *final(res),
    {
        if truncate {
            self.truncate = true;
            self.write = true;
        } else {
            self.truncate = false;
        }
        self
    }

    /// Whether the file is to be made if it is not there. A file that is
    /// not to be made is not to be made anew either.
    pub fn create(&mut self, create: bool) -> (res: &mut Self)
        ensures
            *res == if create {
                OpenOptions { create: true, ..*old(self) }
            } else {
                OpenOptions { create: false, create_new: false, ..*old(self) }
            },
            *final(self) == *final(res),
    {
        if create {
            self.create = create;
        } else {
            self.create = false;
            self.create_new = false;
        }
        self
    }

    /// Whether the file is to be made and must not be there yet.
    pub fn create_new(&mut self, create_new: bool) -> (res: &mut Self)
        ensures
            *res == if create_new {
                OpenOptions { create: true, create_new: true, ..*old(self) }
            } else {
                OpenOptions { create_new: false, ..*old(self) }
            },
            *final(self) == *final(res),
    {
        if create_new {
            self.create = true;
            self.create_new = true;
        } else {
            self.create_new = false;
        }
        self
    }
}

impl OpenOptions {
    /// Whether the options go together: a file is opened to be read, to be
    /// written or to be appended to; it is not both appended to and
    /// truncated; and it is made only where it is to be written.
    pub open spec fn spec_valid(&self) -> bool {
        &&& self.read || self.write || self.append
        &&& !(self.append && self.truncate)
        &&& !((self.create || self.create_new) && !self.write)
    }

    /// The modes in which the options open a file.
    pub open spec fn spec_mode(&self) -> usize {
        if self.read && self.write {
            0x03
        } else if self.read {
            0x01
        } else if self.write {
            0x02
        } else {
            0
        }
    }

    /// Opens the file at `path` as the options say; where the opening
    /// changes the volume, `date_time` is the time of the change. A file
    /// that is opened is a file of the volume, open in the modes that the
    /// options give; it is empty if it was made anew or truncated; and its
    /// position is at its end if it is to be appended to, else at its
    /// start.
    #[verifier::rlimit(50)]
    pub fn open_at(&self, fs: &mut AmigaDos, path: &str, date_time: u64) -> (res: Result<File, Error>)
        requires
            old(fs).wf(),
        ensures
            final(fs).wf(),
            final(fs).same_volume(old(fs)),
            !self.spec_valid() ==> (res matches Err(e) && e == Error::InvalidFileModeError) && final(fs)@ == old(fs)@,
            res matches Ok(file) ==> file.readable(final(fs)) && (self.write ==> file.wf(final(fs))) && file.mode
                == self.spec_mode() && (self.truncate || self.create ==> file.size == 0) && file.pos
                == if self.append {
                file.size
            } else {
                0
            },
            self.spec_valid() && !self.create && !self.truncate ==> final(fs)@ == old(fs)@
                && match crate::fs::file::spec_open_as(
                old(fs)@,
                old(fs).inner.spec_pages(),
                path.spec_bytes(),
                self.write,
            ) {
                Err(e) => res matches Err(err) && err == e,
                Ok((header, size, list)) => res matches Ok(file) && file.header_block_address == header
                    && file.size == size && file.block_data_list@ == list,
            },
            self.spec_valid() && self.create ==> spec_open_created(
                old(fs),
                final(fs),
                path.spec_bytes(),
                self.create_new,
                self.truncate,
                date_time,
                res,
            ),
            self.spec_valid() && !self.create && self.truncate ==> spec_open_truncated(
                old(fs),
                final(fs),
                path.spec_bytes(),
                self.write,
                res,
            ),
            self.spec_valid() ==> spec_mode_ok(res),
    {
        proof {
            lemma_open_mode_ok(fs@, fs.inner.spec_pages(), path.spec_bytes(), date_time);
        }
        if !(self.read || self.write || self.append) {
            return Err(Error::InvalidFileModeError);
        }
        if self.append && self.truncate {
            return Err(Error::InvalidFileModeError);
        }
        if (self.create || self.create_new) && !self.write {
            return Err(Error::InvalidFileModeError);
        }
        let mode: usize = if self.read && self.write {
            0x03
        } else if self.read {
            0x01
        } else if self.write {
            0x02
        } else {
            0
        };
        proof {
            lemma_mode_bits(self.read, self.write);
        }
        let mut file = if self.create {
            match File::try_create(fs, path, mode, self.create_new, date_time) {
                Ok(file) => file,
                Err(e) => {
                    return Err(e);
                },
            }
        } else {
            match File::try_open(fs, path, mode) {
                Ok(file) => file,
                Err(e) => {
                    return Err(e);
                },
            }
        };
        if self.truncate {
            if !crate::fs::file::test_file_mode(FileMode::Write, mode) {
                return Err(Error::BadFileDescriptor);
            }
            let ghost opened = fs@;
            let ghost listed = file.block_data_list@;
            match file.set_len_at(fs, 0, date_time) {
                Ok(_) => {
                    proof {
                        if self.create {
                            let pages = fs.inner.spec_pages();
                            let touch = crate::fs::file_frame::spec_file_touch(
                                pages,
                                file.header_block_address,
                                file.block_data_list@,
                            );
                            assert(listed.len() == 0) by (nonlinear_arith)
                                requires
                                    file.block_data_size > 0,
                                    listed.len() > 0 ==> 0 > (listed.len() - 1) * file.block_data_size,
                            ;
                            assert(listed =~= file.block_data_list@);
                            crate::fs::file_frame::lemma_unchanged_outside_more(
                                opened,
                                fs@,
                                touch + touch,
                                touch,
                            );
                            let start = crate::fs::file::spec_start(
                                old(fs)@,
                                pages,
                                path.spec_bytes(),
                                date_time,
                            );
                            crate::fs::file_frame::lemma_file_kept_grown(
                                start.0,
                                opened,
                                fs@,
                                pages,
                                file.header_block_address,
                                start.1,
                                file.block_data_list@,
                            );
                        }
                    }
                },
                Err(e) => {
                    return Err(e);
                },
            }
        }
        if self.append {
            file.pos = file.size;
        }
        proof {
            if self.write {
                crate::fs::file::lemma_wf_readable(&file, fs);
            }
        }
        Ok(file)
    }

    /// Opens the file at `path` as the options say; where the opening
    /// changes the volume, the time of the system clock is the time of the
    /// change.
    pub fn open(&self, fs: &mut AmigaDos, path: &str) -> (res: Result<File, Error>)
        requires
            old(fs).wf(),
        ensures
            final(fs).wf(),
            final(fs).same_volume(old(fs)),
            !self.spec_valid() ==> (res matches Err(e) && e == Error::InvalidFileModeError) && final(fs)@ == old(fs)@,
            res matches Ok(file) ==> file.readable(final(fs)) && (self.write ==> file.wf(final(fs))) && file.mode
                == self.spec_mode() && (self.truncate || self.create ==> file.size == 0) && file.pos
                == if self.append {
                file.size
            } else {
                0
            },
            self.spec_valid() && !self.create && !self.truncate ==> final(fs)@ == old(fs)@
                && match crate::fs::file::spec_open_as(
                old(fs)@,
                old(fs).inner.spec_pages(),
                path.spec_bytes(),
                self.write,
            ) {
                Err(e) => res matches Err(err) && err == e,
                Ok((header, size, list)) => res matches Ok(file) && file.header_block_address == header
                    && file.size == size && file.block_data_list@ == list,
            },
            self.spec_valid() && self.create ==> exists|date_time: u64|
                spec_open_created(
                    old(fs),
                    final(fs),
                    path.spec_bytes(),
                    self.create_new,
                    self.truncate,
                    date_time,
                    res,
                ),
            self.spec_valid() && !self.create && self.truncate ==> spec_open_truncated(
                old(fs),
                final(fs),
                path.spec_bytes(),
                self.write,
                res,
            ),
            self.spec_valid() ==> spec_mode_ok(res),
    {
        let date_time: u64 = crate::fs::datetime::system_time_now();
        self.open_at(fs, path, date_time)
    }
}

/// Whether a result is anything but the error of options that do not go
/// together.
pub open spec fn spec_mode_ok<T>(res: Result<T, Error>) -> bool {
    !(res matches Err(e) && e == Error::InvalidFileModeError)
}

/// How opening the file at `path` ends when the options ask to truncate
/// the file and not to make it. What keeps the file from being opened is
/// the error, and nothing changes. A file that is not open for writing
/// cannot be truncated, and nothing changes. Else the file is opened and
/// emptied, which gives its blocks back.
pub open spec fn spec_open_truncated(
    before: &AmigaDos,
    after: &AmigaDos,
    path: Seq<u8>,
    write: bool,
    res: Result<File, Error>,
) -> bool {
    let pages = before.inner.spec_pages();
    match crate::fs::file::spec_open_as(before@, pages, path, write) {
        Err(e) => (res matches Err(err) && err == e) && after@ == before@,
        Ok((header, size, list)) => if write {
            (res matches Ok(file) && file.header_block_address == header && file.size == 0)
                && crate::fs::bitmap::spec_free_block_count(after@, pages)
                == crate::fs::bitmap::spec_free_block_count(before@, pages) + crate::fs::file::spec_block_usage(
                list.len() as int,
            )
        } else {
            (res matches Err(err) && err == Error::BadFileDescriptor) && after@ == before@
        },
    }
}

/// A search of a hash chain never ends with the error of options that do
/// not go together.
pub proof fn lemma_locate_mode_ok(image: Seq<u8>, name: Seq<u8>, addr: Option<usize>, prev: Option<usize>, fuel: nat)
    ensures
        spec_mode_ok(crate::fs::dir::spec_locate_in_hash_chain(image, name, addr, prev, fuel)),
    decreases fuel,
{
    if addr is Some && fuel > 0 {
        let block_addr = addr->Some_0;
        lemma_locate_mode_ok(
            image,
            name,
            crate::fs::amiga_dos::spec_to_address(crate::block::spec_read_u32(image, block_addr as int, 496)),
            Some(block_addr),
            (fuel - 1) as nat,
        );
    }
}

/// To follow the names of a path never ends with the error of options
/// that do not go together.
pub proof fn lemma_lookup_mode_ok(image: Seq<u8>, current: usize, segments: Seq<Seq<u8>>)
    ensures
        spec_mode_ok(crate::fs::lookup::spec_lookup_from(image, current, segments)),
    decreases segments.len(),
{
    if segments.len() > 0 {
        if let Ok(head) = crate::fs::dir::spec_hash_chain_head(image, current, segments[0]) {
            lemma_locate_mode_ok(image, segments[0], head, None, crate::fs::block::spec_block_count(image));
        }
        if let Ok(Some(addr)) = crate::fs::dir::spec_dir_lookup(image, current, segments[0]) {
            lemma_lookup_mode_ok(image, addr, segments.drop_first());
        }
    }
}

/// To read the slots of a table never ends with the error of options that
/// do not go together.
pub proof fn lemma_entries_mode_ok(image: Seq<u8>, extension: usize, index: usize)
    ensures
        spec_mode_ok(crate::fs::file::spec_entries_from(image, extension, index)),
    decreases 72 - index,
{
    if index < 72 {
        lemma_entries_mode_ok(image, extension, (index + 1) as usize);
    }
}

/// To read the data blocks of a file never ends with the error of options
/// that do not go together.
pub proof fn lemma_data_list_mode_ok(image: Seq<u8>, extension: Option<usize>, fuel: nat)
    ensures
        spec_mode_ok(crate::fs::file::spec_block_data_list_from(image, extension, fuel)),
    decreases fuel,
{
    if extension is Some && fuel > 0 {
        let address = extension->Some_0;
        lemma_entries_mode_ok(image, address, 0);
        if let Ok(next) = crate::fs::block::spec_data_list_extension_address(image, address) {
            lemma_data_list_mode_ok(image, next, (fuel - 1) as nat);
        }
    }
}

/// Neither the search for a file, nor its opening, nor its making ends
/// with the error of options that do not go together.
pub proof fn lemma_open_mode_ok(image: Seq<u8>, pages: Seq<usize>, path: Seq<u8>, date_time: u64)
    ensures
        spec_mode_ok(crate::fs::metadata::spec_exists(image, path)),
        spec_mode_ok(spec_open(image, pages, path)),
        spec_mode_ok(crate::fs::file::spec_open_read(image, path)),
        spec_mode_ok(crate::fs::file::spec_create_file(image, pages, path, date_time).1),
{
    reveal(crate::fs::metadata::spec_exists);
    reveal(spec_open);
    reveal(crate::fs::file::spec_open_read);
    reveal(crate::fs::file::spec_create_file);
    let root = crate::fs::boot_block::spec_root_block_address(image);
    lemma_lookup_mode_ok(image, root, crate::fs::path::spec_split(path));
    if let Ok(header) = crate::fs::lookup::spec_lookup(image, path) {
        lemma_data_list_mode_ok(image, Some(header), crate::fs::block::spec_block_count(image));
    }
    if let Ok(parent_path) = crate::fs::path::spec_dirname(path) {
        lemma_lookup_mode_ok(image, root, parent_path);
        if let Ok(parent) = crate::fs::lookup::spec_lookup_segments(image, parent_path) {
            let name = crate::fs::path::spec_basename(path)->Ok_0;
            if let Ok(head) = crate::fs::dir::spec_hash_chain_head(image, parent, name) {
                lemma_locate_mode_ok(image, name, head, None, crate::fs::block::spec_block_count(image));
            }
        }
    }
}

/// How opening the file at `path` ends when the options ask to make the
/// file. A file that is there is an error if it must be new; else it is
/// opened and emptied, which gives its blocks back. A file that is not
/// there is made. What a truncation does to a file that is empty it does
/// to the header block of the file alone. Where the image held the file as
/// `spec_kept_at_open` says, it holds the file as the handle has it. What
/// has changed since the file was there, or was made, is what
/// `spec_file_kept` allows.
pub open spec fn spec_open_created(
    before: &AmigaDos,
    after: &AmigaDos,
    path: Seq<u8>,
    create_new: bool,
    truncate: bool,
    date_time: u64,
    res: Result<File, Error>,
) -> bool {
    let pages = before.inner.spec_pages();
    &&& res matches Ok(file) ==> (crate::fs::file::spec_kept_at_open(before@, pages, path, date_time)
        ==> file.stored(after))
    &&& res matches Ok(file) ==> crate::fs::file_frame::spec_file_kept(
        crate::fs::file::spec_start(before@, pages, path, date_time).0,
        after@,
        pages,
        file.header_block_address,
        crate::fs::file::spec_start(before@, pages, path, date_time).1,
    )
    &&& match crate::fs::metadata::spec_exists(before@, path) {
        Err(e) => (res matches Err(err) && err == e) && after@ == before@,
        Ok(true) => if create_new {
            (res matches Err(err) && err == Error::AlreadyExists) && after@ == before@
        } else {
            match spec_open(before@, pages, path) {
                Err(e) => (res matches Err(err) && err == e) && after@ == before@,
                Ok((header, size, list)) => (res matches Ok(file) && file.header_block_address == header)
                    && crate::fs::bitmap::spec_free_block_count(after@, pages)
                    == crate::fs::bitmap::spec_free_block_count(before@, pages) + crate::fs::file::spec_block_usage(
                    list.len() as int,
                ),
            }
        },
        Ok(false) => match crate::fs::file::spec_create_file(before@, pages, path, date_time) {
            (made, Err(e)) => (res matches Err(err) && err == e) && after@ == made,
            (made, Ok(header)) => (res matches Ok(file) && file.header_block_address == header)
                && crate::fs::bitmap::spec_free_block_count(after@, pages)
                == crate::fs::bitmap::spec_free_block_count(made, pages) && (!truncate ==> after@ == made),
        },
    }
}

/// What the mask of modes holds that the options give.
pub proof fn lemma_mode_bits(read: bool, write: bool)
    ensures
        ({
            let mode: usize = if read && write {
                0x03usize
            } else if read {
                0x01usize
            } else if write {
                0x02usize
            } else {
                0usize
            };
            &&& spec_test_file_mode(FileMode::Read, mode) == read
            &&& spec_test_file_mode(FileMode::Write, mode) == write
        }),
{
    assert(0x01usize & 0x01usize != 0 && 0x01usize & 0x02usize == 0 && 0x02usize & 0x01usize == 0 && 0x02usize
        & 0x02usize != 0 && 0x03usize & 0x01usize != 0 && 0x03usize & 0x02usize != 0 && 0usize & 0x01usize == 0
        && 0usize & 0x02usize == 0) by (bit_vector);
}

} // verus!
