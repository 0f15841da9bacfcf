//! Reader for PopCap "Pak" archives.
//!
//! An archive is a small header, a table of file records that ends with a
//! flagged byte, and the files' contents laid end to end. The whole file may
//! be obscured by XOR with a single byte. This crate detects the format,
//! removes the XOR layer, decodes the table and resolves every record to its
//! bytes; it touches no file system.

pub mod bytes;
pub mod format;
pub mod iohelper;
pub mod pak;
pub mod path;
