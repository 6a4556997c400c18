//! A reader and writer for the Amiga file systems, the old and the fast one,
//! on images of double density and high density floppy disks. The image is
//! held in memory; a volume on it can be made, mounted, listed, read and
//! written.

pub mod block;
pub mod disk;
pub mod errors;
pub mod fs;
