use vstd::prelude::*;

use crate::errors::Error;
use crate::fs::amiga_dos::AmigaDos;
use crate::fs::bitmap::{spec_bitmap_bytes, spec_free_block_count};
use crate::fs::block::spec_block_count;
use crate::fs::file::{spec_block_usage, spec_list_owned, spec_test_file_mode, File, FileMode};
use crate::fs::file_read::spec_read_count;
use crate::fs::file_set_len::spec_set_len_outcome;
use crate::fs::file_write::{spec_blocks_for, spec_fits, spec_overwrite, spec_sync_all, spec_write_outcome};
use crate::fs::frame::{lemma_same_block_reads, lemma_untouched_block, spec_same_block, spec_unchanged_outside};

verus! {

/// What is written into an empty file is what the file holds: after a
/// write of `bytes` into an empty file that succeeds, the content of the
/// file is `bytes`, whatever the flavour of the volume and however many
/// data blocks and list blocks the bytes take.
pub proof fn lemma_write_then_content(
    before: &File,
    before_fs: &AmigaDos,
    after: &File,
    after_fs: &AmigaDos,
    bytes: Seq<u8>,
    written: usize,
)
    requires
        before.wf(before_fs),
        before.size == 0,
        spec_write_outcome(before, before_fs, after, after_fs, bytes, Ok(written)),
    ensures
        after.content(after_fs) == bytes,
        after.size == bytes.len(),
        written == bytes.len(),
{
    assert(before.content(before_fs).len() == 0);
    assert(spec_overwrite(before.content(before_fs), 0, bytes) =~= bytes);
}

/// What a read gives is what the file holds: a file read from its start
/// into a buffer that is as long as the file gives its whole content.
pub proof fn lemma_read_whole(content: Seq<u8>, size: usize, buffer: Seq<u8>, read: Seq<u8>)
    requires
        content.len() == size,
        buffer.len() == size,
        read == content.subrange(0, spec_read_count(buffer.len(), size, 0) as int) + buffer.subrange(
            spec_read_count(buffer.len(), size, 0) as int,
            buffer.len() as int,
        ),
    ensures
        read == content,
{
    assert(read =~= content);
}

/// To set the size of a file to the size that it has changes the header
/// block of the file and nothing else: the size stays, and so does every
/// byte of the bitmap.
pub proof fn lemma_set_len_again(file: &File, fs: &AmigaDos, date_time: u64)
    requires
        file.wf(fs),
    ensures
        ({
            let after = spec_sync_all(fs@, file.header_block_address, file.mode, file.size, date_time);
            let pages = fs.inner.spec_pages();
            &&& after.len() == fs@.len()
            &&& spec_bitmap_bytes(after, pages, pages.len()) == spec_bitmap_bytes(fs@, pages, pages.len())
            &&& spec_free_block_count(after, pages) == spec_free_block_count(fs@, pages)
        }),
{
    let image = fs@;
    let pages = fs.inner.spec_pages();
    let header = file.header_block_address;
    let after = spec_sync_all(image, header, file.mode, file.size, date_time);
    crate::disk::Disk::lemma_len(&fs.inner.disk);
    crate::fs::file_write::lemma_sync_all(image, header, file.mode, file.size, date_time);
    let touched = set![header as int];
    crate::fs::file_lemmas::lemma_plain_blocks_touched(image, after, touched, pages, header, file.block_data_list@);
    lemma_same_bitmap_bytes(image, after, pages, touched, pages.len());
}

/// The bytes of the bitmap blocks are the same in two images when no
/// bitmap block was touched.
pub proof fn lemma_same_bitmap_bytes(
    before: Seq<u8>,
    after: Seq<u8>,
    pages: Seq<usize>,
    touched: Set<int>,
    count: nat,
)
    requires
        before.len() % 512 == 0,
        crate::fs::amiga_dos::spec_pages_valid(pages, spec_block_count(before)),
        spec_unchanged_outside(before, after, touched),
        forall|k: int| 0 <= k < pages.len() ==> !touched.contains(#[trigger] pages[k] as int),
        count <= pages.len(),
    ensures
        spec_bitmap_bytes(after, pages, count) == spec_bitmap_bytes(before, pages, count),
    decreases count,
{
    if count > 0 {
        lemma_same_bitmap_bytes(before, after, pages, touched, (count - 1) as nat);
        let page = pages[count - 1] as int;
        lemma_untouched_block(before, after, touched, page);
        lemma_same_block_reads(before, after, page);
    }
}

/// To make a file shorter and then as long as it was leaves as many blocks
/// free as there were: both steps succeed, and the blocks that the first
/// step gives back are the blocks that the second step takes.
pub proof fn lemma_shrink_then_grow(
    first: &File,
    first_fs: &AmigaDos,
    second: &File,
    second_fs: &AmigaDos,
    third: &File,
    third_fs: &AmigaDos,
    new_size: usize,
    shrunk: Result<(), Error>,
    grown: Result<(), Error>,
)
    requires
        first.wf(first_fs),
        second.wf(second_fs),
        second.same_handle(first),
        second_fs.same_volume(first_fs),
        second_fs.wf(),
        first_fs.wf(),
        new_size <= first.size,
        spec_set_len_outcome(first, first_fs, second, second_fs, new_size, shrunk),
        spec_set_len_outcome(second, second_fs, third, third_fs, first.size, grown),
    ensures
        shrunk is Ok,
        grown is Ok,
        third.size == first.size,
        spec_free_block_count(third_fs@, first_fs.inner.spec_pages()) == spec_free_block_count(
            first_fs@,
            first_fs.inner.spec_pages(),
        ),
{
    let pages = first_fs.inner.spec_pages();
    let ds = first.block_data_size as int;
    let len = first.block_data_list@.len() as int;
    crate::disk::Disk::lemma_len(&first_fs.inner.disk);
    crate::disk::Disk::lemma_len(&second_fs.inner.disk);
    lemma_blocks_for_size(first.size as int, len, ds);
    crate::fs::bitmap::lemma_free_count_bound(first_fs@, pages, spec_block_count(first_fs@) as int);
    crate::fs::bitmap::lemma_free_count_bound(second_fs@, pages, spec_block_count(second_fs@) as int);
}

/// A file that is well formed has the data blocks that its size needs.
proof fn lemma_blocks_for_size(size: int, listed: int, block_data_size: int)
    requires
        0 <= size <= listed * block_data_size,
        listed > 0 ==> size > (listed - 1) * block_data_size,
        listed >= 0,
        block_data_size > 0,
    ensures
        listed == spec_blocks_for(size, block_data_size),
{
    assert(listed == (size + block_data_size - 1) / block_data_size) by (nonlinear_arith)
        requires
            0 <= size <= listed * block_data_size,
            listed > 0 ==> size > (listed - 1) * block_data_size,
            listed >= 0,
            block_data_size > 0,
    ;
}

/// What a handle holds is what its path gives: when the volume holds a
/// file as the handle has it, and a path leads to the header block of the
/// file, then to open the path gives the size and the data blocks of the
/// handle. So what was written through the handle is what a read of the
/// path returns.
pub proof fn lemma_stored_opens(file: &File, fs: &AmigaDos, path: Seq<u8>)
    requires
        file.wf(fs),
        file.stored(fs),
        crate::fs::lookup::spec_lookup(fs@, path) == Ok::<usize, Error>(file.header_block_address),
    ensures
        crate::fs::file::spec_open(fs@, fs.inner.spec_pages(), path) == Ok::<
            (usize, usize, Seq<crate::fs::file::FileDataBlockListEntry>),
            Error,
        >((file.header_block_address, file.size, file.block_data_list@)),
        crate::fs::file::spec_open_read(fs@, path) == Ok::<
            (usize, usize, Seq<crate::fs::file::FileDataBlockListEntry>),
            Error,
        >((file.header_block_address, file.size, file.block_data_list@)),
{
    lemma_stored_opens_to_write(file, fs, path);
    crate::fs::file::lemma_open_read_of_open(fs@, fs.inner.spec_pages(), path);
}

/// When the volume holds a file as the handle has it, and a path leads to
/// the header block of the file, then to open the path to write the file
/// gives the size and the data blocks of the handle.
pub proof fn lemma_stored_opens_to_write(file: &File, fs: &AmigaDos, path: Seq<u8>)
    requires
        file.wf(fs),
        file.stored(fs),
        crate::fs::lookup::spec_lookup(fs@, path) == Ok::<usize, Error>(file.header_block_address),
    ensures
        crate::fs::file::spec_open(fs@, fs.inner.spec_pages(), path) == Ok::<
            (usize, usize, Seq<crate::fs::file::FileDataBlockListEntry>),
            Error,
        >((file.header_block_address, file.size, file.block_data_list@)),
{
    reveal(crate::fs::file::spec_open);
    reveal(crate::fs::file_mirror::spec_listed);
    let image = fs@;
    let header = file.header_block_address;
    crate::disk::Disk::lemma_len(&fs.inner.disk);
    crate::fs::file_mirror::lemma_table_loaded(image, header, file.block_data_list@);
    assert(seq![
        crate::fs::block_type::BlockSecondaryType::Directory,
        crate::fs::block_type::BlockSecondaryType::File,
        crate::fs::block_type::BlockSecondaryType::HardLinkFile,
        crate::fs::block_type::BlockSecondaryType::HardLinkDirectory,
        crate::fs::block_type::BlockSecondaryType::Root,
        crate::fs::block_type::BlockSecondaryType::SoftLink,
    ][1] == crate::fs::block_type::BlockSecondaryType::File);
    assert(seq![crate::fs::block_type::BlockSecondaryType::File][0]
        == crate::fs::block_type::BlockSecondaryType::File);
    assert(crate::fs::block::spec_alteration_date(image, header) is Ok);
    assert(crate::fs::block::spec_file_size(image, header) == Ok::<usize, Error>(file.size));
}

/// The header block of the file that a write to `path` writes into: that
/// of the file at `path`, or that of the file that is made there.
pub open spec fn spec_written_header(image: Seq<u8>, pages: Seq<usize>, path: Seq<u8>, date_time: u64) -> Option<
    usize,
> {
    match crate::fs::metadata::spec_exists(image, path) {
        Err(_) => None,
        Ok(true) => match crate::fs::file::spec_open(image, pages, path) {
            Ok((header, _, _)) => Some(header),
            Err(_) => None,
        },
        Ok(false) => match crate::fs::file::spec_create_file(image, pages, path, date_time) {
            (_, Ok(header)) => Some(header),
            (_, Err(_)) => None,
        },
    }
}

/// What is written to a path is read back from it: after `data` have been
/// written as the content of the file at `path`, to open the path gives a
/// file of the size of `data` whose content is `data`, in either flavour
/// and however many data blocks and list blocks the data take. This holds
/// where the image held the file as `spec_kept_at_open` says, and the way
/// to the file is clear of the blocks that the write may touch, as
/// `spec_path_clear` says.
pub proof fn lemma_write_then_read(
    before: &AmigaDos,
    after: &AmigaDos,
    path: Seq<u8>,
    data: Seq<u8>,
    date_time: u64,
)
    requires
        after.inner.spec_pages() == before.inner.spec_pages(),
        crate::fs::file_write::spec_write_file(before, after, path, data, date_time, Ok(())),
        crate::fs::file::spec_kept_at_open(before@, before.inner.spec_pages(), path, date_time),
        spec_written_header(before@, before.inner.spec_pages(), path, date_time) matches Some(header)
            && crate::fs::file_write::spec_path_clear(
            crate::fs::file::spec_start(before@, before.inner.spec_pages(), path, date_time).0,
            before.inner.spec_pages(),
            path,
            header,
            crate::fs::file::spec_start(before@, before.inner.spec_pages(), path, date_time).1,
        ),
    ensures
        crate::fs::file::spec_open_read(after@, path) matches Ok((header, size, list)) && size == data.len()
            && crate::fs::file::spec_content(
            after@,
            list,
            crate::fs::file::spec_data_block_info(
                crate::fs::boot_block::spec_filesystem_type(crate::fs::boot_block::spec_boot_flags(after@)),
            ).0,
            crate::fs::file::spec_data_block_info(
                crate::fs::boot_block::spec_filesystem_type(crate::fs::boot_block::spec_boot_flags(after@)),
            ).1,
            size,
        ) == data,
{
    let pages = before.inner.spec_pages();
    let header = spec_written_header(before@, pages, path, date_time)->Some_0;
    let free = match crate::fs::metadata::spec_exists(before@, path) {
        Ok(true) => spec_free_block_count(before@, pages) + crate::fs::file::spec_block_usage(
            crate::fs::file::spec_open(before@, pages, path)->Ok_0.2.len() as int,
        ),
        _ => spec_free_block_count(crate::fs::file::spec_create_file(before@, pages, path, date_time).0, pages) as int,
    };
    assert(crate::fs::file_write::spec_written(
        after,
        header,
        data,
        free,
        true,
        crate::fs::file::spec_start(before@, pages, path, date_time),
        path,
        Ok(()),
    ));
    let file = choose|file: File|
        #[trigger] file.wf(after) && file.header_block_address == header && file.size == data.len()
            && file.content(after) == data && file.stored(after);
    assert(crate::fs::lookup::spec_lookup(after@, path) == Ok::<usize, Error>(header));
    lemma_stored_opens(&file, after, path);
}

/// A file that is made in a directory which the bitmap marks as used, on
/// a volume whose bitmap marks its own blocks as used, is held by the
/// image as `spec_kept_at_open` says.
pub proof fn lemma_created_kept(image: Seq<u8>, pages: Seq<usize>, path: Seq<u8>, parent: usize, date_time: u64)
    requires
        image.len() == 1760 * 512 || image.len() == 3520 * 512,
        crate::fs::amiga_dos::spec_pages_valid(pages, spec_block_count(image)),
        crate::fs::boot_block::spec_boot_block_valid(image),
        crate::fs::dir_create::spec_pages_used(image, pages),
        crate::fs::metadata::spec_exists(image, path) == Ok::<bool, Error>(false),
        crate::fs::file::spec_create_file(image, pages, path, date_time).1 is Ok,
        crate::fs::path::spec_dirname(path) matches Ok(parent_path) && crate::fs::lookup::spec_lookup_segments(
            image,
            parent_path,
        ) == Ok::<usize, Error>(parent),
        2 <= parent,
        !pages.contains(parent),
        !crate::fs::bitmap::spec_block_free(image, pages, parent as int),
        vstd::utf8::valid_utf8(crate::fs::path::spec_basename(path)->Ok_0),
    ensures
        crate::fs::file::spec_kept_at_open(image, pages, path, date_time),
{
    reveal(crate::fs::file::spec_create_file);
    crate::fs::file_mirror::lemma_made_listed(
        image,
        pages,
        parent,
        crate::fs::path::spec_basename(path)->Ok_0,
        date_time,
    );
}

/// What the making of a file in a directory leaves: what the making of
/// its entry in the directory leaves.
pub proof fn lemma_create_file_made(image: Seq<u8>, pages: Seq<usize>, path: Seq<u8>, parent: usize, date_time: u64)
    requires
        crate::fs::file::spec_create_file(image, pages, path, date_time).1 is Ok,
        crate::fs::path::spec_dirname(path) matches Ok(parent_path) && crate::fs::lookup::spec_lookup_segments(
            image,
            parent_path,
        ) == Ok::<usize, Error>(parent),
    ensures
        crate::fs::dir::spec_check_directory(image, parent) is Ok,
        crate::fs::file::spec_create_file(image, pages, path, date_time).0 == crate::fs::dir_create::spec_make_entry(
            image,
            pages,
            parent,
            crate::fs::path::spec_basename(path)->Ok_0,
            crate::fs::block_type::BlockSecondaryType::File,
            date_time,
        ).0,
        crate::fs::file::spec_create_file(image, pages, path, date_time).1
            == crate::fs::dir_create::spec_make_entry(
            image,
            pages,
            parent,
            crate::fs::path::spec_basename(path)->Ok_0,
            crate::fs::block_type::BlockSecondaryType::File,
            date_time,
        ).1,
{
    reveal(crate::fs::file::spec_create_file);
}

/// The way to an entry that stands first in its slot of the root
/// directory is clear of every set of blocks that holds neither the root
/// block nor a boot block.
pub proof fn lemma_root_entry_clear(image: Seq<u8>, path: Seq<u8>, name: Seq<u8>, header: usize, touched: Set<int>)
    requires
        crate::fs::boot_block::spec_boot_block_valid(image),
        crate::fs::path::spec_split(path) == seq![name],
        crate::fs::dir::spec_check_directory(image, crate::fs::boot_block::spec_root_block_address(image)) is Ok,
        crate::fs::dir::spec_hash_chain_head(image, crate::fs::boot_block::spec_root_block_address(image), name)
            == Ok::<Option<usize>, Error>(Some(header)),
        crate::fs::block::spec_name_bytes(image, header) == Ok::<Seq<u8>, Error>(name),
        spec_block_count(image) > 0,
        !touched.contains(crate::fs::boot_block::spec_root_block_address(image) as int),
    ensures
        crate::fs::lookup::spec_lookup(image, path) == Ok::<usize, Error>(header),
        crate::fs::lookup_frame::spec_lookup_clear(
            image,
            crate::fs::boot_block::spec_root_block_address(image),
            crate::fs::path::spec_split(path),
            touched,
        ),
{
    let root = crate::fs::boot_block::spec_root_block_address(image);
    let segments = crate::fs::path::spec_split(path);
    assert(segments.drop_first() =~= Seq::<Seq<u8>>::empty());
    assert(segments[0] == name);
    assert(crate::fs::lookup_frame::spec_locate_clear(image, name, Some(header), spec_block_count(image), touched));
    assert(crate::fs::dir::spec_dir_lookup(image, root, name) == Ok::<Option<usize>, Error>(Some(header)));
    assert(crate::fs::lookup_frame::spec_lookup_clear(image, header, segments.drop_first(), touched));
    assert(crate::fs::lookup::spec_lookup_from(image, header, segments.drop_first()) == Ok::<usize, Error>(
        header,
    ));
}

/// A file that is made in the root directory is written and read back by
/// its path: on a volume whose bitmap marks its own blocks and the root
/// block as used, the image holds the new file as `spec_kept_at_open`
/// says, and the way to it is clear as `spec_path_clear` says.
#[verifier::spinoff_prover]
pub proof fn lemma_root_file_clear(image: Seq<u8>, pages: Seq<usize>, path: Seq<u8>, name: Seq<u8>, date_time: u64)
    requires
        image.len() == 1760 * 512 || image.len() == 3520 * 512,
        crate::fs::amiga_dos::spec_pages_valid(pages, spec_block_count(image)),
        crate::fs::boot_block::spec_boot_block_valid(image),
        crate::fs::dir_create::spec_pages_used(image, pages),
        crate::fs::metadata::spec_exists(image, path) == Ok::<bool, Error>(false),
        crate::fs::file::spec_create_file(image, pages, path, date_time).1 is Ok,
        crate::fs::path::spec_split(path) == seq![name],
        2 <= crate::fs::boot_block::spec_root_block_address(image),
        !pages.contains(crate::fs::boot_block::spec_root_block_address(image)),
        !crate::fs::bitmap::spec_block_free(
            image,
            pages,
            crate::fs::boot_block::spec_root_block_address(image) as int,
        ),
        vstd::utf8::valid_utf8(name),
    ensures
        crate::fs::file::spec_kept_at_open(image, pages, path, date_time),
        crate::fs::file_write::spec_path_clear(
            crate::fs::file::spec_create_file(image, pages, path, date_time).0,
            pages,
            path,
            crate::fs::file::spec_create_file(image, pages, path, date_time).1->Ok_0,
            Seq::empty(),
        ),
{
    let root = crate::fs::boot_block::spec_root_block_address(image);
    let segments = crate::fs::path::spec_split(path);
    assert(segments.drop_last() =~= Seq::<Seq<u8>>::empty());
    assert(segments.last() == name);
    lemma_create_file_made(image, pages, path, root, date_time);
    let file = crate::fs::block_type::BlockSecondaryType::File;
    let (made, res) = crate::fs::dir_create::spec_make_entry(image, pages, root, name, file, date_time);
    let header = res->Ok_0;
    crate::fs::dir_create::lemma_make_entry_found(image, pages, root, name, file, date_time);
    crate::fs::dir_create::lemma_make_entry_marks(image, pages, root, name, file, date_time);
    lemma_created_kept(image, pages, path, root, date_time);
    let may = crate::fs::file_frame::spec_may_touch(made, pages, header, Seq::empty());
    assert(!may.contains(root as int)) by {
        reveal(crate::fs::file_frame::spec_file_touch);
        if exists|k: int| 0 <= k < pages.len() && #[trigger] pages[k] == root as int {
            let k = choose|k: int| 0 <= k < pages.len() && #[trigger] pages[k] == root as int;
            assert(pages.contains(pages[k]));
        }
    }
    lemma_root_entry_clear(made, path, name, header, may);
}

/// To let a file grow and then shrink to the data blocks that it had
/// leaves every block marked as it was: the blocks that the file took are
/// the blocks that it gives back.
pub proof fn lemma_marks_restored(
    first: Seq<u8>,
    second: Seq<u8>,
    third: Seq<u8>,
    pages: Seq<usize>,
    list: Seq<crate::fs::file::FileDataBlockListEntry>,
    from: int,
)
    requires
        crate::fs::file_marks::spec_marks_grown(first, second, pages, list, from),
        crate::fs::file_marks::spec_marks_shrunk(second, third, pages, list, from),
    ensures
        forall|address: int|
            #[trigger] crate::fs::bitmap::spec_block_free(third, pages, address)
                == crate::fs::bitmap::spec_block_free(first, pages, address),
{
    reveal(crate::fs::file_marks::spec_marks_grown);
    reveal(crate::fs::file_marks::spec_marks_shrunk);
    assert forall|address: int|
        #[trigger] crate::fs::bitmap::spec_block_free(third, pages, address)
            == crate::fs::bitmap::spec_block_free(first, pages, address) by {
        assert(crate::fs::bitmap::spec_block_free(second, pages, address) == (crate::fs::bitmap::spec_block_free(
            first,
            pages,
            address,
        ) && !crate::fs::file_marks::spec_blocks_between(list, from, list.len() as int, address)));
    }
}

/// A new file in the root directory is read back as it was written: on a
/// volume whose bitmap marks its own blocks and the root block as used,
/// after `data` have been written to a path that names a file in the root
/// directory which was not there, to open the path gives a file of the
/// size of `data` whose content is `data`.
pub proof fn lemma_new_root_file_reads(
    before: &AmigaDos,
    after: &AmigaDos,
    path: Seq<u8>,
    name: Seq<u8>,
    data: Seq<u8>,
    date_time: u64,
)
    requires
        before.wf(),
        after.inner.spec_pages() == before.inner.spec_pages(),
        crate::fs::boot_block::spec_boot_block_valid(before@),
        crate::fs::dir_create::spec_pages_used(before@, before.inner.spec_pages()),
        2 <= crate::fs::boot_block::spec_root_block_address(before@),
        !before.inner.spec_pages().contains(crate::fs::boot_block::spec_root_block_address(before@)),
        !spec_block_free_at_root(before),
        crate::fs::path::spec_split(path) == seq![name],
        vstd::utf8::valid_utf8(name),
        crate::fs::metadata::spec_exists(before@, path) == Ok::<bool, Error>(false),
        crate::fs::file_write::spec_write_file(before, after, path, data, date_time, Ok(())),
    ensures
        crate::fs::file::spec_open_read(after@, path) matches Ok((header, size, list)) && size == data.len()
            && crate::fs::file::spec_content(
            after@,
            list,
            crate::fs::file::spec_data_block_info(
                crate::fs::boot_block::spec_filesystem_type(crate::fs::boot_block::spec_boot_flags(after@)),
            ).0,
            crate::fs::file::spec_data_block_info(
                crate::fs::boot_block::spec_filesystem_type(crate::fs::boot_block::spec_boot_flags(after@)),
            ).1,
            size,
        ) == data,
{
    crate::disk::Disk::lemma_len(&before.inner.disk);
    lemma_root_file_clear(before@, before.inner.spec_pages(), path, name, date_time);
    lemma_write_then_read(before, after, path, data, date_time);
}

/// Whether the bitmap of the volume marks the root block as free.
pub open spec fn spec_block_free_at_root(fs: &AmigaDos) -> bool {
    crate::fs::bitmap::spec_block_free(
        fs@,
        fs.inner.spec_pages(),
        crate::fs::boot_block::spec_root_block_address(fs@) as int,
    )
}

/// A file is removed when the way to it is clear: to remove the file at a
/// path that leads to a file which can be opened succeeds, when the way
/// to the file passes through no block that the emptying of the file may
/// touch, as `spec_path_clear` says.
#[verifier::spinoff_prover]
pub proof fn lemma_remove_file_succeeds(
    before: &AmigaDos,
    after: &AmigaDos,
    path: Seq<u8>,
    date_time: u64,
    res: Result<(), Error>,
)
    requires
        before.wf(),
        crate::fs::file_remove::spec_remove_file(before, after, path, date_time, res),
        crate::fs::path::spec_split(path).len() > 0,
        crate::fs::file::spec_open(before@, before.inner.spec_pages(), path) matches Ok((header, _, list))
            && crate::fs::file_write::spec_path_clear(before@, before.inner.spec_pages(), path, header, list),
    ensures
        res is Ok,
{
    let pages = before.inner.spec_pages();
    let opened = crate::fs::file::spec_open(before@, pages, path)->Ok_0;
    let header = opened.0;
    let list = opened.2;
    crate::disk::Disk::lemma_len(&before.inner.disk);
    let emptied = choose|emptied: Seq<u8>|
        #[trigger] spec_free_block_count(emptied, pages) == spec_free_block_count(before@, pages)
            + crate::fs::file::spec_block_usage(list.len() as int) && crate::fs::file_frame::spec_file_kept(
            before@,
            emptied,
            pages,
            header,
            list,
        ) && (after@, res) == crate::fs::dir_remove::spec_unlink(emptied, pages, path, header, date_time);
    assert(emptied.len() == before@.len()) by {
        reveal(crate::fs::file_frame::spec_file_kept);
        reveal(crate::fs::file_mirror::spec_identity_kept);
    }
    assert(crate::fs::file::spec_list_owned(before@, pages, header, list)) by {
        reveal(crate::fs::file::spec_open);
    }
    crate::fs::file_frame::lemma_file_kept_path(before@, emptied, pages, path, header, list);
    assert(crate::fs::file::spec_owned(before@, pages, header));
    crate::fs::dir_remove::lemma_unlink_succeeds(emptied, pages, path, header, date_time);
}

} // verus!
