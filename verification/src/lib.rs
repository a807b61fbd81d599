//! A read-only reader for the ext4 on-disk format.
//!
//! The crate works on one immutable byte image of a volume. It decodes the
//! fixed little-endian records (`defs`), opens a volume (`group`,
//! `fs_parser`), resolves inode numbers, walks extent trees into byte ranges
//! of the image and presents those ranges as streams of records (`chain`).
//! Every function is verified: none panics, and each states what it returns.

pub mod chain;
pub mod defs;
pub mod flags;
pub mod fs_parser;
pub mod group;
pub mod parser;
pub mod volume;
pub mod walk;
pub mod wire;
