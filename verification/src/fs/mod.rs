pub mod amiga_dos;
pub mod amiga_dos_options;
pub mod bitmap;
pub mod block;
pub mod block_type;
pub mod boot_block;
pub mod checksum;
pub mod constants;
pub mod datetime;
pub mod name;
pub mod path;
pub mod root_block;
pub mod format;
pub mod dir;
pub mod lookup;
pub mod metadata;
pub mod info;
pub mod dir_create;
pub mod dir_read;
pub mod dir_remove;
pub mod file;
pub mod file_open;
pub mod file_read;
pub mod frame;
pub mod file_write;
pub mod file_lemmas;
pub mod file_set_len;
pub mod file_set_time;
pub mod file_check;
pub mod file_remove;
pub mod file_laws;
pub mod file_sums;
pub mod file_frame;
pub mod file_mirror;
pub mod file_marks;
pub mod lookup_frame;
