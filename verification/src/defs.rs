//! The on-disk records of an ext4 volume and their decoders.
//!
//! Each record is a fixed run of little-endian fields. A decoder reads the
//! fields one by one from a byte slice and says which bytes each field came
//! from. The superblock, the extent header, the extent entries and the
//! directory entry can also be written back, and reading what was written
//! gives the record again. The walk over the extent tree of an inode, which
//! turns its block region into byte ranges of the image, is here too.

use crate::chain::{
    bytes_left, lemma_next_advances, spec_items, spec_next, views, BufferChainer, ChainItem, Decoded,
};
pub use crate::flags::{
    BgFlags, CompatFeatures, FilePermissions, IncompatFeatures, InodeFlags, RoCompatFeatures,
};
use crate::wire::{
    le16, le32, le64, lemma_bytes_of_le16, lemma_bytes_of_le32, lemma_bytes_of_le64, lemma_le16_of_bytes,
    lemma_le32_of_bytes, put_bytes, put_u16, put_u32, put_u64, read_bytes, read_u16, read_u32,
    read_u64, read_u8, read_words, take, u16_bytes, u32_bytes, u64_bytes, ParseError,
};
use vstd::prelude::*;
use vstd::slice::slice_subrange;

verus! {

/// Longest volume label, in bytes.
pub const EXT4_LABEL_MAX: usize = 16;

/// Number of 32-bit words in the block region of an inode.
pub const EXT4_N_BLOCKS: usize = 15;

/// Offset in the superblock at which the record of errors starts.
pub const EXT4_S_ERR_START: usize = 404;

/// Offset in the superblock at which the record of errors ends.
pub const EXT4_S_ERR_END: usize = 512;

/// The magic number of a superblock.
pub const EXT4_SUPER_MAGIC: u16 = 0xEF53;

/// The magic number of an extent header.
pub const EXT4_EXTENT_MAGIC: u16 = 0xF30A;

/// The inode number of the root directory.
pub const EXT4_ROOT_INO: u64 = 2;

/// The header of a node of an extent tree: twelve bytes.
#[derive(Debug, Clone, Copy, PartialEq, Eq, Structural)]
pub struct Ext4ExtentHeader {
    /// Magic number, `EXT4_EXTENT_MAGIC` in a valid node.
    pub eh_magic: u16,
    /// Number of valid entries that follow the header.
    pub eh_entries: u16,
    /// Number of entries the node has room for.
    pub eh_max: u16,
    /// Depth of the node: 0 for a node of leaves.
    pub eh_depth: u16,
    /// Generation of the tree.
    pub eh_generation: u32,
}

impl Ext4ExtentHeader {
    /// Size of the record on disk.
    pub const SIZE: usize = 12;

    /// The header stored at `off`.
    pub open spec fn decode(s: Seq<u8>, off: int) -> Ext4ExtentHeader {
        Ext4ExtentHeader {
            eh_magic: le16(s, off) as u16,
            eh_entries: le16(s, off + 2) as u16,
            eh_max: le16(s, off + 4) as u16,
            eh_depth: le16(s, off + 6) as u16,
            eh_generation: le32(s, off + 8) as u32,
        }
    }

    /// The twelve bytes that store the header.
    pub open spec fn encoding(self) -> Seq<u8> {
        u16_bytes(self.eh_magic) + u16_bytes(self.eh_entries) + u16_bytes(self.eh_max) + u16_bytes(
            self.eh_depth,
        ) + u32_bytes(self.eh_generation)
    }

    /// Whether the magic number is that of an extent node.
    pub open spec fn spec_is_header(&self) -> bool {
        self.eh_magic == 0xF30A
    }

    /// Whether the magic number is that of an extent node.
    #[verifier::when_used_as_spec(spec_is_header)]
    pub fn is_header(&self) -> (r: bool)
        ensures
            r == (self.eh_magic == 0xF30A),
    {
        self.eh_magic == EXT4_EXTENT_MAGIC
    }

    /// Reads the header stored at `off`.
    pub fn read_at(input: &[u8], off: usize) -> (r: Ext4ExtentHeader)
        requires
            off + 12 <= input.len(),
        ensures
            r == Self::decode(input@, off as int),
    {
        Ext4ExtentHeader {
            eh_magic: read_u16(input, off),
            eh_entries: read_u16(input, off + 2),
            eh_max: read_u16(input, off + 4),
            eh_depth: read_u16(input, off + 6),
            eh_generation: read_u32(input, off + 8),
        }
    }

    /// Decodes a header from the front of `input` and hands back the input
    /// after it. Fails exactly when fewer than twelve bytes are there.
    pub fn parse(input: &[u8]) -> (r: Result<(&[u8], Ext4ExtentHeader), ParseError>)
        ensures
            r is Ok <==> input@.len() >= 12,
            r matches Ok((rest, h)) ==> h == Self::decode(input@, 0) && rest@ == input@.skip(12),
            r matches Err(e) ==> e == ParseError::TooShort,
    {
        match take(input, Self::SIZE) {
            Ok((rest, _)) => Ok((rest, Self::read_at(input, 0))),
            Err(e) => Err(e),
        }
    }

    /// Appends the twelve bytes of the header to `out`.
    pub fn encode(&self, out: &mut Vec<u8>)
        ensures
            final(out)@ == old(out)@ + self.encoding(),
    {
        put_u16(out, self.eh_magic);
        put_u16(out, self.eh_entries);
        put_u16(out, self.eh_max);
        put_u16(out, self.eh_depth);
        put_u32(out, self.eh_generation);
        assert(out@ =~= old(out)@ + self.encoding());
    }

    /// Decoding the bytes of a header gives the header again, whatever
    /// follows them.
    pub proof fn lemma_decode_encoding(self, tail: Seq<u8>)
        ensures
            self.encoding().len() == 12,
            Self::decode(self.encoding() + tail, 0) == self,
    {
        let s = self.encoding() + tail;
        lemma_le16_of_bytes(self.eh_magic);
        lemma_le16_of_bytes(self.eh_entries);
        lemma_le16_of_bytes(self.eh_max);
        lemma_le16_of_bytes(self.eh_depth);
        lemma_le32_of_bytes(self.eh_generation);
        assert(le16(s, 0) == le16(u16_bytes(self.eh_magic), 0));
        assert(le16(s, 2) == le16(u16_bytes(self.eh_entries), 0));
        assert(le16(s, 4) == le16(u16_bytes(self.eh_max), 0));
        assert(le16(s, 6) == le16(u16_bytes(self.eh_depth), 0));
        assert(le32(s, 8) == le32(u32_bytes(self.eh_generation), 0));
    }

    /// Encoding the header decoded at `off` gives the twelve bytes at `off`
    /// again.
    pub proof fn lemma_encoding_decode(s: Seq<u8>, off: int)
        requires
            0 <= off,
            off + 12 <= s.len(),
        ensures
            Self::decode(s, off).encoding() == s.subrange(off, off + 12),
    {
        lemma_bytes_of_le16(s, off);
        lemma_bytes_of_le16(s, off + 2);
        lemma_bytes_of_le16(s, off + 4);
        lemma_bytes_of_le16(s, off + 6);
        lemma_bytes_of_le32(s, off + 8);
        assert(Self::decode(s, off).encoding() =~= s.subrange(off, off + 12));
    }
}

/// An entry of an interior node of an extent tree: where a child node is.
#[derive(Debug, Clone, Copy, PartialEq, Eq, Structural)]
pub struct Ext4ExtentIdx {
    /// First logical block that the child covers.
    pub ei_block: u32,
    /// Low 32 bits of the child's block number.
    pub ei_leaf_lo: u32,
    /// High 16 bits of the child's block number.
    pub ei_leaf_hi: u16,
    /// Unused.
    pub ei_unused: u16,
}

impl Ext4ExtentIdx {
    /// Size of the record on disk.
    pub const SIZE: usize = 12;

    /// The entry stored at `off`.
    pub open spec fn decode(s: Seq<u8>, off: int) -> Ext4ExtentIdx {
        Ext4ExtentIdx {
            ei_block: le32(s, off) as u32,
            ei_leaf_lo: le32(s, off + 4) as u32,
            ei_leaf_hi: le16(s, off + 8) as u16,
            ei_unused: le16(s, off + 10) as u16,
        }
    }

    /// The twelve bytes that store the entry.
    pub open spec fn encoding(self) -> Seq<u8> {
        u32_bytes(self.ei_block) + u32_bytes(self.ei_leaf_lo) + u16_bytes(self.ei_leaf_hi)
            + u16_bytes(self.ei_unused)
    }

    /// The block number of the child node.
    pub open spec fn spec_ei_leaf(&self) -> u64 {
        (self.ei_leaf_hi as int * 0x1_0000_0000 + self.ei_leaf_lo as int) as u64
    }

    /// The block number of the child node: the high part above the low 32
    /// bits.
    #[verifier::when_used_as_spec(spec_ei_leaf)]
    pub fn ei_leaf(&self) -> (r: u64)
        ensures
            r == self.ei_leaf_hi as int * 0x1_0000_0000 + self.ei_leaf_lo as int,
            r == self.spec_ei_leaf(),
    {
        let hi: u16 = self.ei_leaf_hi;
        let lo: u32 = self.ei_leaf_lo;
        assert((((hi as u64) << 32) | (lo as u64)) == (hi as u64) * 0x1_0000_0000 + (lo as u64))
            by (bit_vector);
        ((hi as u64) << 32) | (lo as u64)
    }

    /// Reads the entry stored at `off`.
    pub fn read_at(input: &[u8], off: usize) -> (r: Ext4ExtentIdx)
        requires
            off + 12 <= input.len(),
        ensures
            r == Self::decode(input@, off as int),
    {
        Ext4ExtentIdx {
            ei_block: read_u32(input, off),
            ei_leaf_lo: read_u32(input, off + 4),
            ei_leaf_hi: read_u16(input, off + 8),
            ei_unused: read_u16(input, off + 10),
        }
    }

    /// Decodes an entry from the front of `input` and hands back the input
    /// after it. Fails exactly when fewer than twelve bytes are there.
    pub fn parse(input: &[u8]) -> (r: Result<(&[u8], Ext4ExtentIdx), ParseError>)
        ensures
            r is Ok <==> input@.len() >= 12,
            r matches Ok((rest, e)) ==> e == Self::decode(input@, 0) && rest@ == input@.skip(12),
            r matches Err(e) ==> e == ParseError::TooShort,
    {
        match take(input, Self::SIZE) {
            Ok((rest, _)) => Ok((rest, Self::read_at(input, 0))),
            Err(e) => Err(e),
        }
    }

    /// Appends the twelve bytes of the entry to `out`.
    pub fn encode(&self, out: &mut Vec<u8>)
        ensures
            final(out)@ == old(out)@ + self.encoding(),
    {
        put_u32(out, self.ei_block);
        put_u32(out, self.ei_leaf_lo);
        put_u16(out, self.ei_leaf_hi);
        put_u16(out, self.ei_unused);
        assert(out@ =~= old(out)@ + self.encoding());
    }

    /// Decoding the bytes of an entry gives the entry again, whatever
    /// follows them.
    pub proof fn lemma_decode_encoding(self, tail: Seq<u8>)
        ensures
            self.encoding().len() == 12,
            Self::decode(self.encoding() + tail, 0) == self,
    {
        let s = self.encoding() + tail;
        lemma_le32_of_bytes(self.ei_block);
        lemma_le32_of_bytes(self.ei_leaf_lo);
        lemma_le16_of_bytes(self.ei_leaf_hi);
        lemma_le16_of_bytes(self.ei_unused);
        assert(le32(s, 0) == le32(u32_bytes(self.ei_block), 0));
        assert(le32(s, 4) == le32(u32_bytes(self.ei_leaf_lo), 0));
        assert(le16(s, 8) == le16(u16_bytes(self.ei_leaf_hi), 0));
        assert(le16(s, 10) == le16(u16_bytes(self.ei_unused), 0));
    }
}

/// A leaf entry of an extent tree: a run of logical blocks and where it
/// starts on the volume.
#[derive(Debug, Clone, Copy, PartialEq, Eq, Structural)]
pub struct Ext4Extent {
    /// First logical block that the extent covers.
    pub ee_block: u32,
    /// Number of blocks covered.
    pub ee_len: u16,
    /// High 16 bits of the first physical block.
    pub ee_start_hi: u16,
    /// Low 32 bits of the first physical block.
    pub ee_start_lo: u32,
}

impl Ext4Extent {
    /// Size of the record on disk.
    pub const SIZE: usize = 12;

    /// The extent stored at `off`.
    pub open spec fn decode(s: Seq<u8>, off: int) -> Ext4Extent {
        Ext4Extent {
            ee_block: le32(s, off) as u32,
            ee_len: le16(s, off + 4) as u16,
            ee_start_hi: le16(s, off + 6) as u16,
            ee_start_lo: le32(s, off + 8) as u32,
        }
    }

    /// The twelve bytes that store the extent.
    pub open spec fn encoding(self) -> Seq<u8> {
        u32_bytes(self.ee_block) + u16_bytes(self.ee_len) + u16_bytes(self.ee_start_hi)
            + u32_bytes(self.ee_start_lo)
    }

    /// The first physical block of the extent.
    pub open spec fn spec_ee_start(&self) -> u64 {
        (self.ee_start_hi as int * 0x1_0000_0000 + self.ee_start_lo as int) as u64
    }

    /// The first physical block of the extent: the high part above the low 32
    /// bits.
    #[verifier::when_used_as_spec(spec_ee_start)]
    pub fn ee_start(&self) -> (r: u64)
        ensures
            r == self.ee_start_hi as int * 0x1_0000_0000 + self.ee_start_lo as int,
            r == self.spec_ee_start(),
    {
        let hi: u16 = self.ee_start_hi;
        let lo: u32 = self.ee_start_lo;
        assert((((hi as u64) << 32) | (lo as u64)) == (hi as u64) * 0x1_0000_0000 + (lo as u64))
            by (bit_vector);
        ((hi as u64) << 32) | (lo as u64)
    }

    /// Reads the extent stored at `off`.
    pub fn read_at(input: &[u8], off: usize) -> (r: Ext4Extent)
        requires
            off + 12 <= input.len(),
        ensures
            r == Self::decode(input@, off as int),
    {
        Ext4Extent {
            ee_block: read_u32(input, off),
            ee_len: read_u16(input, off + 4),
            ee_start_hi: read_u16(input, off + 6),
            ee_start_lo: read_u32(input, off + 8),
        }
    }

    /// Decodes an extent from the front of `input` and hands back the input
    /// after it. Fails exactly when fewer than twelve bytes are there.
    pub fn parse(input: &[u8]) -> (r: Result<(&[u8], Ext4Extent), ParseError>)
        ensures
            r is Ok <==> input@.len() >= 12,
            r matches Ok((rest, e)) ==> e == Self::decode(input@, 0) && rest@ == input@.skip(12),
            r matches Err(e) ==> e == ParseError::TooShort,
    {
        match take(input, Self::SIZE) {
            Ok((rest, _)) => Ok((rest, Self::read_at(input, 0))),
            Err(e) => Err(e),
        }
    }

    /// Appends the twelve bytes of the extent to `out`.
    pub fn encode(&self, out: &mut Vec<u8>)
        ensures
            final(out)@ == old(out)@ + self.encoding(),
    {
        put_u32(out, self.ee_block);
        put_u16(out, self.ee_len);
        put_u16(out, self.ee_start_hi);
        put_u32(out, self.ee_start_lo);
        assert(out@ =~= old(out)@ + self.encoding());
    }

    /// Decoding the bytes of an extent gives the extent again, whatever
    /// follows them.
    pub proof fn lemma_decode_encoding(self, tail: Seq<u8>)
        ensures
            self.encoding().len() == 12,
            Self::decode(self.encoding() + tail, 0) == self,
    {
        let s = self.encoding() + tail;
        lemma_le32_of_bytes(self.ee_block);
        lemma_le16_of_bytes(self.ee_len);
        lemma_le16_of_bytes(self.ee_start_hi);
        lemma_le32_of_bytes(self.ee_start_lo);
        assert(le32(s, 0) == le32(u32_bytes(self.ee_block), 0));
        assert(le16(s, 4) == le16(u16_bytes(self.ee_len), 0));
        assert(le16(s, 6) == le16(u16_bytes(self.ee_start_hi), 0));
        assert(le32(s, 8) == le32(u32_bytes(self.ee_start_lo), 0));
    }
}

/// The checksum that closes an extent block.
#[derive(Debug, Clone, Copy, PartialEq, Eq, Structural)]
pub struct Ext4ExtentTail {
    /// Checksum over the volume id, the inode number and the extent block.
    pub et_checksum: u32,
}

impl Ext4ExtentTail {
    /// Decodes a tail from the front of `input` and hands back the input
    /// after it. Fails exactly when fewer than four bytes are there.
    pub fn parse(input: &[u8]) -> (r: Result<(&[u8], Ext4ExtentTail), ParseError>)
        ensures
            r is Ok <==> input@.len() >= 4,
            r matches Ok((rest, t)) ==> t.et_checksum == le32(input@, 0) && rest@ == input@.skip(4),
            r matches Err(e) ==> e == ParseError::TooShort,
    {
        match take(input, 4) {
            Ok((rest, _)) => Ok((rest, Ext4ExtentTail { et_checksum: read_u32(input, 0) })),
            Err(e) => Err(e),
        }
    }
}

/// The kind of file that an inode describes: bits 12 to 15 of its mode.
#[derive(Debug, Clone, Copy, PartialEq, Eq, Structural)]
pub enum FileType {
    /// Named pipe, `0x1000`.
    Fifo,
    /// Character device, `0x2000`.
    CharDev,
    /// Directory, `0x4000`.
    Dir,
    /// Block device, `0x6000`.
    BlockDev,
    /// Regular file, `0x8000`.
    Regular,
    /// Symbolic link, `0xA000`.
    Symlink,
    /// Socket, `0xC000`.
    Socket,
    /// None of the above; holds the four type bits in place.
    Unknown(u16),
}

impl FileType {
    /// The kind that the type bits of `bits` name.
    pub open spec fn spec_from_bits(bits: u16) -> FileType {
        let t = bits & 0xF000;
        if t == 0x1000 {
            FileType::Fifo
        } else if t == 0x2000 {
            FileType::CharDev
        } else if t == 0x4000 {
            FileType::Dir
        } else if t == 0x6000 {
            FileType::BlockDev
        } else if t == 0x8000 {
            FileType::Regular
        } else if t == 0xA000 {
            FileType::Symlink
        } else if t == 0xC000 {
            FileType::Socket
        } else {
            FileType::Unknown(t)
        }
    }

    /// The kind that the type bits of a mode name.
    pub fn from_bits(bits: u16) -> (r: FileType)
        ensures
            r == Self::spec_from_bits(bits),
    {
        let t: u16 = bits & 0xF000;
        if t == 0x1000 {
            FileType::Fifo
        } else if t == 0x2000 {
            FileType::CharDev
        } else if t == 0x4000 {
            FileType::Dir
        } else if t == 0x6000 {
            FileType::BlockDev
        } else if t == 0x8000 {
            FileType::Regular
        } else if t == 0xA000 {
            FileType::Symlink
        } else if t == 0xC000 {
            FileType::Socket
        } else {
            FileType::Unknown(t)
        }
    }

    /// Whether this is a regular file.
    pub fn is_regular(&self) -> (r: bool)
        ensures
            r == (*self == FileType::Regular),
    {
        *self == FileType::Regular
    }

    /// Whether this is a symbolic link.
    pub fn is_symlink(&self) -> (r: bool)
        ensures
            r == (*self == FileType::Symlink),
    {
        *self == FileType::Symlink
    }

    /// Whether this is a directory.
    pub fn is_dir(&self) -> (r: bool)
        ensures
            r == (*self == FileType::Dir),
    {
        *self == FileType::Dir
    }

    /// An unknown kind holds type bits only, and none of the seven known
    /// codes.
    pub proof fn lemma_unknown_is_not_known(bits: u16)
        ensures
            Self::spec_from_bits(bits) matches FileType::Unknown(t) ==> t == bits & 0xF000 && t
                & 0x0FFF == 0 && t != 0x1000 && t != 0x2000 && t != 0x4000 && t != 0x6000 && t
                != 0x8000 && t != 0xA000 && t != 0xC000,
    {
        assert((bits & 0xF000) & 0x0FFF == 0) by (bit_vector);
    }
}

/// The mode of an inode: permissions and kind of file.
#[derive(Debug, Clone, Copy, PartialEq, Eq, Structural)]
pub struct FileMode {
    /// The low twelve bits.
    pub perms: FilePermissions,
    /// The kind named by bits 12 to 15.
    pub ty: FileType,
}

impl FileMode {
    /// The mode that the 16 bits of the on-disk field stand for.
    pub open spec fn spec_from_bits(bits: u16) -> FileMode {
        FileMode {
            perms: FilePermissions::spec_from_bits_truncate(bits),
            ty: FileType::spec_from_bits(bits),
        }
    }

    /// Splits the 16 bits of the on-disk field into permissions and kind.
    pub fn from_bits(bits: u16) -> (r: FileMode)
        ensures
            r == Self::spec_from_bits(bits),
            r.perms.spec_bits() == bits & 0x0FFF,
            r.ty == FileType::spec_from_bits(bits),
    {
        FileMode { perms: FilePermissions::from_bits_truncate(bits), ty: FileType::from_bits(bits) }
    }
}

/// First system-dependent field of an inode, as Linux uses it.
#[derive(Debug, Clone, Copy, PartialEq, Eq, Structural)]
pub struct Osd1Linux1 {
    /// Low 32 bits of the inode version.
    pub l_i_version: u32,
}

/// First system-dependent field of an inode, as Hurd uses it.
#[derive(Debug, Clone, Copy, PartialEq, Eq, Structural)]
pub struct Osd1Hurd1 {
    /// Translator.
    pub h_i_translator: u32,
}

/// First system-dependent field of an inode, as Masix uses it.
#[derive(Debug, Clone, Copy, PartialEq, Eq, Structural)]
pub struct Osd1Masix1 {
    /// Reserved.
    pub m_i_reserved1: u32,
}

/// Second system-dependent field of an inode, as Linux uses it.
#[derive(Debug, Clone, Copy, PartialEq, Eq, Structural)]
pub struct Osd2Linux2 {
    /// High 16 bits of the block count.
    pub l_i_blocks_high: u16,
    /// High 16 bits of the extended attribute block.
    pub l_i_file_acl_high: u16,
    /// High 16 bits of the owner id.
    pub l_i_uid_high: u16,
    /// High 16 bits of the group id.
    pub l_i_gid_high: u16,
    /// Low 16 bits of the inode checksum.
    pub l_i_checksum_lo: u16,
    /// Reserved.
    pub l_i_reserved: u16,
}

/// Second system-dependent field of an inode, as Hurd uses it.
#[derive(Debug, Clone, Copy, PartialEq, Eq, Structural)]
pub struct Osd2Hurd2 {
    /// Reserved.
    pub h_i_reserved1: u16,
    /// High 16 bits of the mode.
    pub h_i_mode_high: u16,
    /// High 16 bits of the owner id.
    pub h_i_uid_high: u16,
    /// High 16 bits of the group id.
    pub h_i_gid_high: u16,
    /// Author.
    pub h_i_author: u32,
}

/// Second system-dependent field of an inode, as Masix uses it.
#[derive(Debug, Clone, Copy, PartialEq, Eq)]
pub struct Osd2Masix2 {
    /// Reserved.
    pub h_i_reserved1: u16,
    /// High 16 bits of the extended attribute block.
    pub m_i_file_acl_high: u16,
    /// Reserved.
    pub m_i_reserved2: [u32; 2],
}

/// An inode as it is stored in an inode table: the first 160 bytes of its
/// slot. Times and owners are decoded and not interpreted.
#[derive(Debug, Clone, Copy, PartialEq, Eq)]
pub struct Ext4Inode {
    /// Permissions and kind of file.
    pub i_mode: FileMode,
    /// Low 16 bits of the owner id.
    pub i_uid: u16,
    /// Low 32 bits of the size in bytes.
    pub i_size_lo: u32,
    /// Access time.
    pub i_atime: u32,
    /// Inode change time.
    pub i_ctime: u32,
    /// Modification time.
    pub i_mtime: u32,
    /// Deletion time.
    pub i_dtime: u32,
    /// Low 16 bits of the group id.
    pub i_gid: u16,
    /// Number of links.
    pub i_links_count: u16,
    /// Low 32 bits of the block count.
    pub i_blocks_lo: u32,
    /// Flags.
    pub i_flags: InodeFlags,
    /// First system-dependent field.
    pub osd1: Osd1Linux1,
    /// The block region: the root of the extent tree, or the target of a
    /// short symbolic link.
    pub i_block: [u8; 60],
    /// File version.
    pub i_generation: u32,
    /// Low 32 bits of the extended attribute block.
    pub i_file_acl_lo: u32,
    /// High 32 bits of the size in bytes.
    pub i_size_high: u32,
    /// Obsolete fragment address.
    pub i_obso_faddr: u32,
    /// Second system-dependent field.
    pub osd2: Osd2Linux2,
    /// Size of the extra fields that follow.
    pub i_extra_isize: u16,
    /// High 16 bits of the inode checksum.
    pub i_checksum_hi: u16,
    /// Extra bits of the change time.
    pub i_ctime_extra: u32,
    /// Extra bits of the modification time.
    pub i_mtime_extra: u32,
    /// Extra bits of the access time.
    pub i_atime_extra: u32,
    /// Creation time.
    pub i_crtime: u32,
    /// Extra bits of the creation time.
    pub i_crtime_extra: u32,
    /// High 32 bits of the inode version.
    pub i_version_hi: u32,
    /// Project id.
    pub i_projid: u32,
}

impl Ext4Inode {
    /// Number of bytes that the decoder reads.
    pub const SIZE: usize = 160;

    /// Whether `self` is what the 160 bytes at `off` decode to.
    pub open spec fn decoded_from(self, s: Seq<u8>, off: int) -> bool {
        &&& self.i_mode == FileMode::spec_from_bits(le16(s, off) as u16)
        &&& self.i_uid == le16(s, off + 2)
        &&& self.i_size_lo == le32(s, off + 4)
        &&& self.i_atime == le32(s, off + 8)
        &&& self.i_ctime == le32(s, off + 12)
        &&& self.i_mtime == le32(s, off + 16)
        &&& self.i_dtime == le32(s, off + 20)
        &&& self.i_gid == le16(s, off + 24)
        &&& self.i_links_count == le16(s, off + 26)
        &&& self.i_blocks_lo == le32(s, off + 28)
        &&& self.i_flags == InodeFlags::spec_from_bits_truncate(le32(s, off + 32) as u32)
        &&& self.osd1.l_i_version == le32(s, off + 36)
        &&& self.i_block@ == s.subrange(off + 40, off + 100)
        &&& self.i_generation == le32(s, off + 100)
        &&& self.i_file_acl_lo == le32(s, off + 104)
        &&& self.i_size_high == le32(s, off + 108)
        &&& self.i_obso_faddr == le32(s, off + 112)
        &&& self.osd2.l_i_blocks_high == le16(s, off + 116)
        &&& self.osd2.l_i_file_acl_high == le16(s, off + 118)
        &&& self.osd2.l_i_uid_high == le16(s, off + 120)
        &&& self.osd2.l_i_gid_high == le16(s, off + 122)
        &&& self.osd2.l_i_checksum_lo == le16(s, off + 124)
        &&& self.osd2.l_i_reserved == le16(s, off + 126)
        &&& self.i_extra_isize == le16(s, off + 128)
        &&& self.i_checksum_hi == le16(s, off + 130)
        &&& self.i_ctime_extra == le32(s, off + 132)
        &&& self.i_mtime_extra == le32(s, off + 136)
        &&& self.i_atime_extra == le32(s, off + 140)
        &&& self.i_crtime == le32(s, off + 144)
        &&& self.i_crtime_extra == le32(s, off + 148)
        &&& self.i_version_hi == le32(s, off + 152)
        &&& self.i_projid == le32(s, off + 156)
    }

    /// The size of the file in bytes.
    pub open spec fn spec_size(&self) -> u64 {
        (self.i_size_high as int * 0x1_0000_0000 + self.i_size_lo as int) as u64
    }

    /// The size of the file in bytes: the high half above the low half.
    #[verifier::when_used_as_spec(spec_size)]
    pub fn size(&self) -> (r: u64)
        ensures
            r == self.i_size_high as int * 0x1_0000_0000 + self.i_size_lo as int,
            r == self.spec_size(),
    {
        let hi: u32 = self.i_size_high;
        let lo: u32 = self.i_size_lo;
        assert((((hi as u64) << 32) | (lo as u64)) == (hi as u64) * 0x1_0000_0000 + (lo as u64))
            by (bit_vector);
        ((hi as u64) << 32) | (lo as u64)
    }

    /// Reads the inode stored at `off`.
    pub fn read_at(input: &[u8], off: usize) -> (r: Ext4Inode)
        requires
            off + 160 <= input.len(),
        ensures
            r.decoded_from(input@, off as int),
    {
        Ext4Inode {
            i_mode: FileMode::from_bits(read_u16(input, off)),
            i_uid: read_u16(input, off + 2),
            i_size_lo: read_u32(input, off + 4),
            i_atime: read_u32(input, off + 8),
            i_ctime: read_u32(input, off + 12),
            i_mtime: read_u32(input, off + 16),
            i_dtime: read_u32(input, off + 20),
            i_gid: read_u16(input, off + 24),
            i_links_count: read_u16(input, off + 26),
            i_blocks_lo: read_u32(input, off + 28),
            i_flags: InodeFlags::from_bits_truncate(read_u32(input, off + 32)),
            osd1: Osd1Linux1 { l_i_version: read_u32(input, off + 36) },
            i_block: read_bytes::<60>(input, off + 40),
            i_generation: read_u32(input, off + 100),
            i_file_acl_lo: read_u32(input, off + 104),
            i_size_high: read_u32(input, off + 108),
            i_obso_faddr: read_u32(input, off + 112),
            osd2: Osd2Linux2 {
                l_i_blocks_high: read_u16(input, off + 116),
                l_i_file_acl_high: read_u16(input, off + 118),
                l_i_uid_high: read_u16(input, off + 120),
                l_i_gid_high: read_u16(input, off + 122),
                l_i_checksum_lo: read_u16(input, off + 124),
                l_i_reserved: read_u16(input, off + 126),
            },
            i_extra_isize: read_u16(input, off + 128),
            i_checksum_hi: read_u16(input, off + 130),
            i_ctime_extra: read_u32(input, off + 132),
            i_mtime_extra: read_u32(input, off + 136),
            i_atime_extra: read_u32(input, off + 140),
            i_crtime: read_u32(input, off + 144),
            i_crtime_extra: read_u32(input, off + 148),
            i_version_hi: read_u32(input, off + 152),
            i_projid: read_u32(input, off + 156),
        }
    }

    /// Decodes an inode from the front of `input` and hands back the input
    /// after its 160 bytes. Fails exactly when fewer than 160 bytes are there.
    pub fn parse(input: &[u8]) -> (r: Result<(&[u8], Ext4Inode), ParseError>)
        ensures
            r is Ok <==> input@.len() >= 160,
            r matches Ok((rest, inode)) ==> inode.decoded_from(input@, 0) && rest@ == input@.skip(
                160,
            ),
            r matches Err(e) ==> e == ParseError::TooShort,
    {
        match take(input, Self::SIZE) {
            Ok((rest, _)) => Ok((rest, Self::read_at(input, 0))),
            Err(e) => Err(e),
        }
    }

    /// Two inodes decoded from the same bytes are the same inode.
    pub proof fn lemma_decoded_unique(self, other: Ext4Inode, s: Seq<u8>, off: int)
        requires
            self.decoded_from(s, off),
            other.decoded_from(s, off),
        ensures
            self == other,
    {
        assert(self.i_block =~= other.i_block);
    }
}

/// An entry of a directory block: a name bound to an inode number.
#[derive(Debug, Clone, Copy)]
pub struct Ext4DirEntry {
    /// Inode number; 0 marks an unused slot.
    pub inode: u32,
    /// Number of bytes from the start of this entry to the next one.
    pub rec_len: u16,
    /// Length of the name in bytes.
    pub name_len: u8,
    /// Kind of file, as the directory records it.
    pub file_type: u8,
    /// The name in the first `name_len` bytes; not NUL-terminated.
    pub name: [u8; 255],
}

/// What a directory entry says: its fields, and the bytes of its name.
pub struct DirEntryView {
    /// Inode number.
    pub inode: u32,
    /// Number of bytes from the start of the entry to the next one.
    pub rec_len: u16,
    /// Length of the name in bytes.
    pub name_len: u8,
    /// Kind of file.
    pub file_type: u8,
    /// The name.
    pub name: Seq<u8>,
}

impl View for Ext4DirEntry {
    type V = DirEntryView;

    open spec fn view(&self) -> DirEntryView {
        DirEntryView {
            inode: self.inode,
            rec_len: self.rec_len,
            name_len: self.name_len,
            file_type: self.file_type,
            name: self.name@.take(self.name_len as int),
        }
    }
}

/// `n` zero bytes.
pub open spec fn zeros(n: int) -> Seq<u8> {
    Seq::new(
        if n > 0 {
            n as nat
        } else {
            0
        },
        |i: int| 0u8,
    )
}

impl DirEntryView {
    /// The entry at the front of `s`, where `s` runs to the end of its
    /// range: no entry where the record is too short for its header and
    /// name, an entry to pass over where the record runs past the end of `s`.
    pub open spec fn decode(s: Seq<u8>) -> Decoded<DirEntryView> {
        if s.len() < 8 {
            Decoded::Stop
        } else {
            let rec_len = le16(s, 4);
            let name_len = s[6];
            if rec_len < 8 + name_len {
                Decoded::Stop
            } else if rec_len > s.len() {
                Decoded::Skip
            } else {
                Decoded::Item(
                    rec_len as usize,
                    DirEntryView {
                        inode: le32(s, 0) as u32,
                        rec_len: rec_len as u16,
                        name_len,
                        file_type: s[7],
                        name: s.subrange(8, 8 + name_len),
                    },
                )
            }
        }
    }

    /// The bytes that store the entry: header, name, and zeros up to
    /// `rec_len`.
    pub open spec fn encoding(self) -> Seq<u8> {
        u32_bytes(self.inode) + u16_bytes(self.rec_len) + seq![self.name_len, self.file_type]
            + self.name + zeros(self.rec_len - 8 - self.name_len)
    }

    /// The size of an entry with a name of `name_len` bytes, rounded up to a
    /// multiple of four.
    pub open spec fn aligned_len(name_len: u8) -> int {
        (8 + name_len + 3) / 4 * 4
    }

    /// Decoding the bytes of an entry gives the entry again, whatever
    /// follows them, where the record is long enough for header and name.
    pub proof fn lemma_decode_encoding(self, tail: Seq<u8>)
        requires
            self.name.len() == self.name_len,
            self.rec_len >= 8 + self.name_len,
        ensures
            self.encoding().len() == self.rec_len,
            Self::decode(self.encoding() + tail) == Decoded::Item(self.rec_len as usize, self),
    {
        let s = self.encoding() + tail;
        lemma_le32_of_bytes(self.inode);
        lemma_le16_of_bytes(self.rec_len);
        assert(le32(s, 0) == le32(u32_bytes(self.inode), 0));
        assert(le16(s, 4) == le16(u16_bytes(self.rec_len), 0));
        assert(s[6] == self.name_len);
        assert(s[7] == self.file_type);
        assert(s.subrange(8, 8 + self.name_len) =~= self.name);
    }

    /// The same for an entry whose record length is the aligned size of
    /// header and name.
    pub proof fn lemma_decode_encoding_aligned(self, tail: Seq<u8>)
        requires
            self.name.len() == self.name_len,
            self.rec_len == Self::aligned_len(self.name_len),
        ensures
            Self::decode(self.encoding() + tail) == Decoded::Item(self.rec_len as usize, self),
    {
        self.lemma_decode_encoding(tail);
    }
}

/// `String::from_utf8`: gives the text exactly when the bytes are valid
/// UTF-8, and the text is then what the bytes decode to.
#[verifier::external_body]
fn string_from_utf8(bytes: Vec<u8>) -> (r: Option<String>)
    ensures
        r is Some <==> vstd::utf8::valid_utf8(bytes@),
        r matches Some(text) ==> text@ == vstd::utf8::decode_utf8(bytes@),
{
    String::from_utf8(bytes).ok()
}

impl Ext4DirEntry {
    /// Size of the fixed header of an entry.
    pub const HEADER: usize = 8;

    /// Whether the bytes behind the name are zero, as a decoder leaves them.
    pub open spec fn wf(&self) -> bool {
        forall|i: int| self.name_len <= i < 255 ==> self.name@[i] == 0
    }

    /// The name as text: `None` where its bytes are not valid UTF-8.
    pub fn get_name(&self) -> (r: Option<String>)
        ensures
            r is Some <==> vstd::utf8::valid_utf8(self@.name),
            r matches Some(text) ==> text@ == vstd::utf8::decode_utf8(self@.name),
    {
        let mut bytes: Vec<u8> = Vec::new();
        let n: usize = self.name_len as usize;
        let mut i: usize = 0;
        while i < n
            invariant
                i <= n == self.name_len,
                n <= 255,
                bytes@ == self.name@.take(i as int),
            decreases n - i,
        {
            bytes.push(self.name[i]);
            i += 1;
            assert(bytes@ =~= self.name@.take(i as int));
        }
        string_from_utf8(bytes)
    }

    /// Appends the bytes of the entry to `out`: header, name, and zeros up
    /// to `rec_len`.
    pub fn encode(&self, out: &mut Vec<u8>)
        ensures
            final(out)@ == old(out)@ + self@.encoding(),
    {
        put_u32(out, self.inode);
        put_u16(out, self.rec_len);
        out.push(self.name_len);
        out.push(self.file_type);
        let ghost head = old(out)@ + u32_bytes(self.inode) + u16_bytes(self.rec_len)
            + seq![self.name_len, self.file_type];
        assert(out@ =~= head);
        let n: usize = self.name_len as usize;
        let mut i: usize = 0;
        while i < n
            invariant
                i <= n == self.name_len,
                n <= 255,
                out@ == head + self.name@.take(i as int),
            decreases n - i,
        {
            out.push(self.name[i]);
            i += 1;
            assert(out@ =~= head + self.name@.take(i as int));
        }
        let total: usize = self.rec_len as usize;
        let mut k: usize = 8 + n;
        while k < total
            invariant
                8 + n <= k,
                k <= total || k == 8 + n,
                total == self.rec_len,
                n == self.name_len,
                out@ == head + self@.name + zeros(k - 8 - n),
            decreases total - k,
        {
            out.push(0u8);
            k += 1;
            assert(out@ =~= head + self@.name + zeros(k - 8 - n));
        }
        assert(out@ =~= old(out)@ + self@.encoding());
    }
}

impl ChainItem for Ext4DirEntry {
    open spec fn spec_header_len() -> nat {
        8
    }

    open spec fn spec_from_bytes(s: Seq<u8>) -> Decoded<DirEntryView> {
        DirEntryView::decode(s)
    }

    fn header_len() -> (n: usize) {
        Self::HEADER
    }

    /// Decodes the entry at the front of `input`, which runs to the end of
    /// its range.
    fn from_bytes(input: &[u8]) -> (r: Decoded<Ext4DirEntry>)
        ensures
            r matches Decoded::Item(_, e) ==> e.wf(),
    {
        let len = input.len();
        let inode = read_u32(input, 0);
        let rec_len = read_u16(input, 4);
        let name_len = read_u8(input, 6);
        let file_type = read_u8(input, 7);
        let n: usize = name_len as usize;
        if (rec_len as usize) < 8 + n {
            Decoded::Stop
        } else if rec_len as usize > len {
            Decoded::Skip
        } else {
            let mut name: [u8; 255] = [0u8; 255];
            let mut i: usize = 0;
            while i < 255
                invariant
                    i <= 255,
                    n <= 255,
                    8 + n <= len == input@.len(),
                    forall|k: int| 0 <= k < i && k < n ==> name@[k] == input@[8 + k],
                    forall|k: int| n <= k < i ==> name@[k] == 0,
                decreases 255 - i,
            {
                name[i] = if i < n {
                    read_u8(input, 8 + i)
                } else {
                    0
                };
                i += 1;
            }
            let e = Ext4DirEntry { inode, rec_len, name_len, file_type, name };
            assert(e@.name =~= input@.subrange(8, 8 + name_len));
            Decoded::Item(rec_len as usize, e)
        }
    }
}

/// The bytes of `count` blocks from block `first` on, where they lie inside
/// the image.
pub open spec fn spec_block_range(image: Seq<u8>, block_size: nat, first: nat, count: nat) -> Option<
    Seq<u8>,
> {
    if (first + count) * block_size <= image.len() {
        Some(image.subrange((first * block_size) as int, ((first + count) * block_size) as int))
    } else {
        None
    }
}

/// The `count` extents stored back to back in `s` from `off` on.
pub open spec fn decode_extents(s: Seq<u8>, off: int, count: nat) -> Seq<Ext4Extent> {
    Seq::new(count, |i: int| Ext4Extent::decode(s, off + 12 * i))
}

/// The `count` index entries stored back to back in `s` from `off` on.
pub open spec fn decode_indices(s: Seq<u8>, off: int, count: nat) -> Seq<Ext4ExtentIdx> {
    Seq::new(count, |i: int| Ext4ExtentIdx::decode(s, off + 12 * i))
}

/// The byte ranges of the leaves `extents`, in their order; a leaf that does
/// not lie inside the image gives no range.
pub open spec fn extent_ranges(image: Seq<u8>, block_size: nat, extents: Seq<Ext4Extent>) -> Seq<
    Seq<u8>,
>
    decreases extents.len(),
{
    if extents.len() == 0 {
        Seq::empty()
    } else {
        let e = extents.last();
        let before = extent_ranges(image, block_size, extents.drop_last());
        match spec_block_range(image, block_size, e.spec_ee_start() as nat, e.ee_len as nat) {
            Some(r) => before.push(r),
            None => before,
        }
    }
}

/// Whether the node that `idx` points to is walked from a node of depth
/// `depth`: it lies inside the image with all its entries, has the magic
/// number and at least one entry, and is less deep than its parent.
pub open spec fn child_is_walked(image: Seq<u8>, block_size: nat, idx: Ext4ExtentIdx, depth: nat) -> bool {
    let node = idx.spec_ei_leaf() * block_size;
    let h = Ext4ExtentHeader::decode(image, node);
    &&& node + 12 <= image.len()
    &&& h.eh_magic == 0xF30A
    &&& h.eh_entries != 0
    &&& h.eh_depth < depth
    &&& node + 12 + 12 * h.eh_entries <= image.len()
}

/// The byte ranges below the index entries `indices` of a node of depth
/// `depth`, in their order; a child that is not walked gives no range.
pub open spec fn index_ranges(
    image: Seq<u8>,
    block_size: nat,
    indices: Seq<Ext4ExtentIdx>,
    depth: nat,
) -> Seq<Seq<u8>>
    decreases depth, indices.len(),
{
    if indices.len() == 0 {
        Seq::empty()
    } else {
        let idx = indices.last();
        let before = index_ranges(image, block_size, indices.drop_last(), depth);
        if child_is_walked(image, block_size, idx, depth) {
            let node = idx.spec_ei_leaf() * block_size;
            let h = Ext4ExtentHeader::decode(image, node);
            if h.eh_depth == 0 {
                before + extent_ranges(
                    image,
                    block_size,
                    decode_extents(image, node + 12, h.eh_entries as nat),
                )
            } else {
                before + index_ranges(
                    image,
                    block_size,
                    decode_indices(image, node + 12, h.eh_entries as nat),
                    h.eh_depth as nat,
                )
            }
        } else {
            before
        }
    }
}

/// The entries in the block region of an inode, behind its extent header.
pub enum IBlockRest {
    /// The entries of an interior root.
    Indices(Vec<Ext4ExtentIdx>),
    /// The entries of a root of leaves.
    Extents(Vec<Ext4Extent>),
}

/// The content of an inode, by its kind.
pub enum BlockContents<'a> {
    /// The target of a symbolic link, taken from the block region.
    InliedData(Vec<u8>),
    /// The entries of a directory.
    Dentries(BufferChainer<'a, Ext4DirEntry>),
    /// The bytes of a regular file.
    Data(BufferChainer<'a, u8>),
}

/// The bytes of `count` blocks from block `first` on, or `None` where they
/// do not lie inside `input`.
pub fn block_range<'b>(input: &'b [u8], block_size: u64, first: u64, count: u16) -> (r: Option<
    &'b [u8],
>)
    ensures
        r is Some <==> (first + count) * block_size <= input@.len(),
        match r {
            Some(s) => Some(s@) == spec_block_range(
                input@,
                block_size as nat,
                first as nat,
                count as nat,
            ),
            None => spec_block_range(input@, block_size as nat, first as nat, count as nat)
                is None,
        },
{
    let len: u128 = input.len() as u128;
    let bs: u128 = block_size as u128;
    assert(first * block_size <= 0xffff_ffff_ffff_ffff * 0xffff_ffff_ffff_ffff
        && count * block_size <= 0xffff_ffff_ffff_ffff * 0xffff_ffff_ffff_ffff
        && (first + count) * block_size == first * block_size + count * block_size)
        by (nonlinear_arith)
        requires
            0 <= first <= 0xffff_ffff_ffff_ffff,
            0 <= block_size <= 0xffff_ffff_ffff_ffff,
            0 <= count <= 0xffff_ffff_ffff_ffff,
    ;
    let start: u128 = (first as u128) * bs;
    let size: u128 = (count as u128) * bs;
    if start <= len && size <= len - start {
        Some(slice_subrange(input, start as usize, (start + size) as usize))
    } else {
        None
    }
}

/// Reads the `count` extents stored back to back from `off` on.
pub fn read_extents(input: &[u8], off: usize, count: u16) -> (r: Vec<Ext4Extent>)
    requires
        off + 12 * count <= input.len(),
    ensures
        r@ == decode_extents(input@, off as int, count as nat),
{
    let mut out: Vec<Ext4Extent> = Vec::new();
    let mut i: usize = 0;
    let n: usize = count as usize;
    while i < n
        invariant
            i <= n == count,
            off + 12 * n <= input.len(),
            out@ == decode_extents(input@, off as int, i as nat),
        decreases n - i,
    {
        out.push(Ext4Extent::read_at(input, off + 12 * i));
        i += 1;
        assert(out@ =~= decode_extents(input@, off as int, i as nat));
    }
    out
}

/// Reads the `count` index entries stored back to back from `off` on.
pub fn read_indices(input: &[u8], off: usize, count: u16) -> (r: Vec<Ext4ExtentIdx>)
    requires
        off + 12 * count <= input.len(),
    ensures
        r@ == decode_indices(input@, off as int, count as nat),
{
    let mut out: Vec<Ext4ExtentIdx> = Vec::new();
    let mut i: usize = 0;
    let n: usize = count as usize;
    while i < n
        invariant
            i <= n == count,
            off + 12 * n <= input.len(),
            out@ == decode_indices(input@, off as int, i as nat),
        decreases n - i,
    {
        out.push(Ext4ExtentIdx::read_at(input, off + 12 * i));
        i += 1;
        assert(out@ =~= decode_indices(input@, off as int, i as nat));
    }
    out
}

impl Ext4Inode {
    /// The extent header at the front of the block region.
    pub open spec fn spec_extend_header(&self) -> Ext4ExtentHeader {
        Ext4ExtentHeader::decode(self.i_block@, 0)
    }

    /// The byte ranges of the image that hold the data of the inode, in
    /// logical order: none unless the inode uses extents and its root has room
    /// for its entries, else those of the extent tree in the block region.
    pub open spec fn spec_data_ranges(&self, image: Seq<u8>, block_size: nat) -> Seq<Seq<u8>> {
        let h = self.spec_extend_header();
        if self.i_flags.spec_bits() & InodeFlags::EXTENTS != InodeFlags::EXTENTS || h.eh_entries
            > 4 {
            Seq::empty()
        } else if h.eh_depth == 0 {
            extent_ranges(image, block_size, decode_extents(self.i_block@, 12, h.eh_entries as nat))
        } else {
            index_ranges(
                image,
                block_size,
                decode_indices(self.i_block@, 12, h.eh_entries as nat),
                h.eh_depth as nat,
            )
        }
    }

    /// The extent header at the front of the block region.
    pub fn get_extend_header(&self) -> (r: Ext4ExtentHeader)
        ensures
            r == self.spec_extend_header(),
    {
        Ext4ExtentHeader::read_at(self.i_block.as_slice(), 0)
    }

    /// The entries behind the header of the block region: leaves where the
    /// header has depth 0, index entries else; `None` where the header
    /// counts more than the four entries that the region has room for.
    pub fn root_entries(&self) -> (r: Option<IBlockRest>)
        ensures
            r is None <==> self.spec_extend_header().eh_entries > 4,
            r matches Some(IBlockRest::Extents(v)) ==> self.spec_extend_header().eh_depth == 0
                && v@ == decode_extents(
                self.i_block@,
                12,
                self.spec_extend_header().eh_entries as nat,
            ),
            r matches Some(IBlockRest::Indices(v)) ==> self.spec_extend_header().eh_depth != 0
                && v@ == decode_indices(
                self.i_block@,
                12,
                self.spec_extend_header().eh_entries as nat,
            ),
    {
        let header = self.get_extend_header();
        if header.eh_entries > 4 {
            None
        } else if header.eh_depth == 0 {
            Some(IBlockRest::Extents(read_extents(self.i_block.as_slice(), 12, header.eh_entries)))
        } else {
            Some(IBlockRest::Indices(read_indices(self.i_block.as_slice(), 12, header.eh_entries)))
        }
    }

    /// The leaves of the root, where the block region holds a root of
    /// leaves with the magic number and at most four entries.
    pub fn get_extents(&self) -> (r: Option<Vec<Ext4Extent>>)
        ensures
            r is Some <==> self.spec_extend_header().eh_magic == 0xF30A
                && self.spec_extend_header().eh_depth == 0 && self.spec_extend_header().eh_entries
                <= 4,
            r matches Some(v) ==> v@ == decode_extents(
                self.i_block@,
                12,
                self.spec_extend_header().eh_entries as nat,
            ),
    {
        let header = self.get_extend_header();
        if !header.is_header() {
            return None;
        }
        match self.root_entries() {
            Some(IBlockRest::Extents(v)) => Some(v),
            _ => None,
        }
    }

    /// The index entries of the root, where the block region holds an
    /// interior root with the magic number and at most four entries.
    pub fn get_extent_indicies(&self) -> (r: Option<Vec<Ext4ExtentIdx>>)
        ensures
            r is Some <==> self.spec_extend_header().eh_magic == 0xF30A
                && self.spec_extend_header().eh_depth != 0 && self.spec_extend_header().eh_entries
                <= 4,
            r matches Some(v) ==> v@ == decode_indices(
                self.i_block@,
                12,
                self.spec_extend_header().eh_entries as nat,
            ),
    {
        let header = self.get_extend_header();
        if !header.is_header() {
            return None;
        }
        match self.root_entries() {
            Some(IBlockRest::Indices(v)) => Some(v),
            _ => None,
        }
    }

    /// The byte ranges of the leaves `extents`, in their order. A leaf that
    /// does not lie inside `input` is passed over.
    pub fn read_extent<'b>(input: &'b [u8], extents: &[Ext4Extent], block_size: u64) -> (r: Vec<
        &'b [u8],
    >)
        ensures
            views(r@) == extent_ranges(input@, block_size as nat, extents@),
    {
        let mut ret: Vec<&'b [u8]> = Vec::new();
        let mut i: usize = 0;
        assert(extents@.take(0) =~= Seq::<Ext4Extent>::empty());
        assert(views(ret@) =~= Seq::<Seq<u8>>::empty());
        while i < extents.len()
            invariant
                i <= extents@.len(),
                views(ret@) == extent_ranges(input@, block_size as nat, extents@.take(i as int)),
            decreases extents@.len() - i,
        {
            let extent: &Ext4Extent = &extents[i];
            let ghost before = ret@;
            proof {
                let now = extents@.take(i + 1);
                assert(now.drop_last() =~= extents@.take(i as int));
                assert(now.last() == *extent);
            }
            match block_range(input, block_size, extent.ee_start(), extent.ee_len) {
                Some(range) => {
                    ret.push(range);
                    assert(views(ret@) =~= views(before).push(range@));
                },
                None => {},
            }
            i += 1;
        }
        assert(extents@.take(i as int) =~= extents@);
        ret
    }

    /// The byte ranges below the index entries `indices` of a node of depth
    /// `depth`, in their order. A child is passed over where it does not lie
    /// inside `input`, lacks the magic number, has no entry, or is not less
    /// deep than the node above it.
    pub fn read_e_index<'b>(
        input: &'b [u8],
        indices: &[Ext4ExtentIdx],
        block_size: u64,
        depth: u16,
    ) -> (r: Vec<&'b [u8]>)
        ensures
            views(r@) == index_ranges(input@, block_size as nat, indices@, depth as nat),
        decreases depth, indices@.len(),
    {
        let mut ret: Vec<&'b [u8]> = Vec::new();
        let len: u128 = input.len() as u128;
        let mut i: usize = 0;
        assert(indices@.take(0) =~= Seq::<Ext4ExtentIdx>::empty());
        assert(views(ret@) =~= Seq::<Seq<u8>>::empty());
        while i < indices.len()
            invariant
                i <= indices@.len(),
                len == input@.len() <= usize::MAX,
                views(ret@) == index_ranges(
                    input@,
                    block_size as nat,
                    indices@.take(i as int),
                    depth as nat,
                ),
            decreases indices@.len() - i,
        {
            let index: &Ext4ExtentIdx = &indices[i];
            let ghost before = ret@;
            proof {
                let now = indices@.take(i + 1);
                assert(now.drop_last() =~= indices@.take(i as int));
                assert(now.last() == *index);
            }
            let leaf: u64 = index.ei_leaf();
            assert(leaf * block_size <= 0xffff_ffff_ffff_ffff * 0xffff_ffff_ffff_ffff)
                by (nonlinear_arith)
                requires
                    0 <= leaf <= 0xffff_ffff_ffff_ffff,
                    0 <= block_size <= 0xffff_ffff_ffff_ffff,
            ;
            let node: u128 = (leaf as u128) * (block_size as u128);
            if node + 12 <= len {
                let start: usize = node as usize;
                let header = Ext4ExtentHeader::read_at(input, start);
                if header.is_header() && header.eh_entries != 0 && header.eh_depth < depth && node
                    + 12 + 12 * (header.eh_entries as u128) <= len {
                    let mut res = if header.eh_depth == 0 {
                        let extents = read_extents(input, start + 12, header.eh_entries);
                        Self::read_extent(input, extents.as_slice(), block_size)
                    } else {
                        let below = read_indices(input, start + 12, header.eh_entries);
                        Self::read_e_index(input, below.as_slice(), block_size, header.eh_depth)
                    };
                    let ghost added = res@;
                    ret.append(&mut res);
                    assert(views(ret@) =~= views(before) + views(added));
                }
            }
            i += 1;
        }
        assert(indices@.take(i as int) =~= indices@);
        ret
    }

    /// A stream of records of type `T` over the data of the inode in
    /// `input`, with the cursor at the start.
    pub fn read_block<'b, T: ChainItem>(&self, input: &'b [u8], block_size: u64) -> (r:
        BufferChainer<'b, T>)
        ensures
            r.ranges() == self.spec_data_ranges(input@, block_size as nat),
            r.index() == 0,
            r.offset() == 0,
    {
        let buffers: Vec<&'b [u8]> = if !self.i_flags.contains(InodeFlags::EXTENTS) {
            Vec::new()
        } else {
            match self.root_entries() {
                None => Vec::new(),
                Some(IBlockRest::Extents(extents)) => Self::read_extent(
                    input,
                    extents.as_slice(),
                    block_size,
                ),
                Some(IBlockRest::Indices(indices)) => Self::read_e_index(
                    input,
                    indices.as_slice(),
                    block_size,
                    self.get_extend_header().eh_depth,
                ),
            }
        };
        assert(views(Seq::<&[u8]>::empty()) =~= Seq::<Seq<u8>>::empty());
        BufferChainer::new(buffers)
    }
}

impl Ext4Inode {
    /// The target of a symbolic link that is stored in the block region: its
    /// first `size` bytes, or all sixty where the size is larger.
    pub open spec fn spec_inline_target(&self) -> Seq<u8> {
        if self.spec_size() <= 60 {
            self.i_block@.take(self.spec_size() as int)
        } else {
            self.i_block@
        }
    }

    /// The content of the inode, by its kind: the inline target of a
    /// symbolic link, the bytes of a regular file, the entries of a
    /// directory, and `None` for every other kind.
    pub fn get_i_block_contents<'b>(&self, input: &'b [u8], block_size: u64) -> (r: Option<
        BlockContents<'b>,
    >)
        ensures
            match self.i_mode.ty {
                FileType::Symlink => r matches Some(BlockContents::InliedData(v)) && v@
                    == self.spec_inline_target(),
                FileType::Regular => r matches Some(BlockContents::Data(c)) && c.ranges()
                    == self.spec_data_ranges(input@, block_size as nat) && c.index() == 0
                    && c.offset() == 0,
                FileType::Dir => r matches Some(BlockContents::Dentries(c)) && c.ranges()
                    == self.spec_data_ranges(input@, block_size as nat) && c.index() == 0
                    && c.offset() == 0,
                _ => r is None,
            },
    {
        if self.i_mode.ty.is_symlink() {
            let size = self.size();
            let n: usize = if size <= 60 {
                size as usize
            } else {
                60
            };
            let mut bytes: Vec<u8> = Vec::new();
            let mut i: usize = 0;
            while i < n
                invariant
                    i <= n <= 60,
                    bytes@ == self.i_block@.take(i as int),
                decreases n - i,
            {
                bytes.push(self.i_block[i]);
                i += 1;
                assert(bytes@ =~= self.i_block@.take(i as int));
            }
            assert(self.i_block@.take(60) =~= self.i_block@);
            Some(BlockContents::InliedData(bytes))
        } else if self.i_mode.ty.is_regular() {
            Some(BlockContents::Data(self.read_block::<u8>(input, block_size)))
        } else if self.i_mode.ty.is_dir() {
            Some(BlockContents::Dentries(self.read_block::<Ext4DirEntry>(input, block_size)))
        } else {
            None
        }
    }
}

/// Whether the blocks of the leaf `e` lie inside an image of `image_len`
/// bytes.
pub open spec fn leaf_in_image(image_len: nat, block_size: nat, e: Ext4Extent) -> bool {
    (e.spec_ee_start() + e.ee_len) * block_size <= image_len
}

/// The number of blocks that the leaves `extents` cover together.
pub open spec fn total_blocks(extents: Seq<Ext4Extent>) -> nat
    decreases extents.len(),
{
    if extents.len() == 0 {
        0
    } else {
        total_blocks(extents.drop_last()) + extents.last().ee_len as nat
    }
}

/// The leaves below the index entries `indices` of a node of depth `depth`,
/// in the order in which they are walked.
pub open spec fn index_leaves(
    image: Seq<u8>,
    block_size: nat,
    indices: Seq<Ext4ExtentIdx>,
    depth: nat,
) -> Seq<Ext4Extent>
    decreases depth, indices.len(),
{
    if indices.len() == 0 {
        Seq::empty()
    } else {
        let idx = indices.last();
        let before = index_leaves(image, block_size, indices.drop_last(), depth);
        if child_is_walked(image, block_size, idx, depth) {
            let node = idx.spec_ei_leaf() * block_size;
            let h = Ext4ExtentHeader::decode(image, node);
            if h.eh_depth == 0 {
                before + decode_extents(image, node + 12, h.eh_entries as nat)
            } else {
                before + index_leaves(
                    image,
                    block_size,
                    decode_indices(image, node + 12, h.eh_entries as nat),
                    h.eh_depth as nat,
                )
            }
        } else {
            before
        }
    }
}

impl Ext4Inode {
    /// The leaves of the extent tree of the inode, in the order in which
    /// they are walked.
    pub open spec fn spec_leaves(&self, image: Seq<u8>, block_size: nat) -> Seq<Ext4Extent> {
        let h = self.spec_extend_header();
        if self.i_flags.spec_bits() & InodeFlags::EXTENTS != InodeFlags::EXTENTS || h.eh_entries
            > 4 {
            Seq::empty()
        } else if h.eh_depth == 0 {
            decode_extents(self.i_block@, 12, h.eh_entries as nat)
        } else {
            index_leaves(
                image,
                block_size,
                decode_indices(self.i_block@, 12, h.eh_entries as nat),
                h.eh_depth as nat,
            )
        }
    }
}

/// The ranges of two lists of leaves one after the other are the ranges of
/// the first list followed by those of the second.
pub proof fn lemma_extent_ranges_add(
    image: Seq<u8>,
    block_size: nat,
    a: Seq<Ext4Extent>,
    b: Seq<Ext4Extent>,
)
    ensures
        extent_ranges(image, block_size, a + b) == extent_ranges(image, block_size, a)
            + extent_ranges(image, block_size, b),
    decreases b.len(),
{
    if b.len() == 0 {
        assert(a + b =~= a);
        assert(extent_ranges(image, block_size, a) + Seq::<Seq<u8>>::empty() =~= extent_ranges(
            image,
            block_size,
            a,
        ));
    } else {
        lemma_extent_ranges_add(image, block_size, a, b.drop_last());
        assert((a + b).drop_last() =~= a + b.drop_last());
        assert((a + b).last() == b.last());
        assert(extent_ranges(image, block_size, a + b) =~= extent_ranges(image, block_size, a)
            + extent_ranges(image, block_size, b));
    }
}

/// What is walked below index entries is the ranges of the leaves below
/// them.
pub proof fn lemma_index_ranges_are_leaf_ranges(
    image: Seq<u8>,
    block_size: nat,
    indices: Seq<Ext4ExtentIdx>,
    depth: nat,
)
    ensures
        index_ranges(image, block_size, indices, depth) == extent_ranges(
            image,
            block_size,
            index_leaves(image, block_size, indices, depth),
        ),
    decreases depth, indices.len(),
{
    if indices.len() != 0 {
        let idx = indices.last();
        let before = index_leaves(image, block_size, indices.drop_last(), depth);
        lemma_index_ranges_are_leaf_ranges(image, block_size, indices.drop_last(), depth);
        if child_is_walked(image, block_size, idx, depth) {
            let node = idx.spec_ei_leaf() * block_size;
            let h = Ext4ExtentHeader::decode(image, node);
            if h.eh_depth == 0 {
                lemma_extent_ranges_add(
                    image,
                    block_size,
                    before,
                    decode_extents(image, node + 12, h.eh_entries as nat),
                );
            } else {
                let below = decode_indices(image, node + 12, h.eh_entries as nat);
                lemma_index_ranges_are_leaf_ranges(image, block_size, below, h.eh_depth as nat);
                lemma_extent_ranges_add(
                    image,
                    block_size,
                    before,
                    index_leaves(image, block_size, below, h.eh_depth as nat),
                );
            }
        }
    }
}

/// Every range that the leaves give is the blocks of one leaf that lies
/// inside the image, and the ranges come in the order of their leaves: range
/// `k` belongs to a leaf `at(k)`, and `at` is increasing.
pub proof fn lemma_extent_ranges_come_from_leaves(
    image: Seq<u8>,
    block_size: nat,
    extents: Seq<Ext4Extent>,
) -> (at: Seq<int>)
    ensures
        at.len() == extent_ranges(image, block_size, extents).len(),
        forall|k: int|
            0 <= k < at.len() ==> 0 <= #[trigger] at[k] < extents.len() && leaf_in_image(
                image.len(),
                block_size,
                extents[at[k]],
            ) && Some(extent_ranges(image, block_size, extents)[k]) == spec_block_range(
                image,
                block_size,
                extents[at[k]].spec_ee_start() as nat,
                extents[at[k]].ee_len as nat,
            ),
        forall|j: int, k: int| 0 <= j < k < at.len() ==> at[j] < at[k],
        forall|i: int|
            0 <= i < extents.len() && leaf_in_image(image.len(), block_size, extents[i])
                ==> at.contains(i),
    decreases extents.len(),
{
    if extents.len() == 0 {
        Seq::empty()
    } else {
        let e = extents.last();
        let before = lemma_extent_ranges_come_from_leaves(image, block_size, extents.drop_last());
        let last = extents.len() - 1;
        if leaf_in_image(image.len(), block_size, e) {
            let at = before.push(last);
            assert forall|i: int|
                0 <= i < extents.len() && leaf_in_image(
                    image.len(),
                    block_size,
                    extents[i],
                ) implies at.contains(i) by {
                if i < last {
                    assert(extents.drop_last()[i] == extents[i]);
                    assert(before.contains(i));
                    let k = choose|k: int| 0 <= k < before.len() && before[k] == i;
                    assert(at[k] == i);
                } else {
                    assert(at[at.len() - 1] == i);
                }
            }
            at
        } else {
            assert forall|i: int|
                0 <= i < extents.len() && leaf_in_image(
                    image.len(),
                    block_size,
                    extents[i],
                ) implies before.contains(i) by {
                assert(extents.drop_last()[i] == extents[i]);
            }
            before
        }
    }
}

/// Where every leaf lies inside the image, the ranges hold as many bytes as
/// the leaves cover blocks, times the block size.
pub proof fn lemma_extent_ranges_len(image: Seq<u8>, block_size: nat, extents: Seq<Ext4Extent>)
    requires
        forall|i: int| 0 <= i < extents.len() ==> leaf_in_image(image.len(), block_size, extents[i]),
    ensures
        extent_ranges(image, block_size, extents).len() == extents.len(),
        crate::chain::concat(extent_ranges(image, block_size, extents)).len() == total_blocks(
            extents,
        ) * block_size,
    decreases extents.len(),
{
    if extents.len() != 0 {
        let e = extents.last();
        let rest = extents.drop_last();
        lemma_extent_ranges_len(image, block_size, rest);
        let first = e.spec_ee_start() as nat;
        let count = e.ee_len as nat;
        assert(leaf_in_image(image.len(), block_size, extents[extents.len() - 1]));
        assert forall|i: int| 0 <= i < rest.len() implies leaf_in_image(
            image.len(),
            block_size,
            rest[i],
        ) by {
            assert(rest[i] == extents[i]);
        }
        let ranges = extent_ranges(image, block_size, extents);
        let before = extent_ranges(image, block_size, rest);
        let total = total_blocks(rest);
        assert((first + count) * block_size - first * block_size == count * block_size
            && first * block_size >= 0 && first * block_size <= (first + count) * block_size && (
        total + count) * block_size == total * block_size + count * block_size)
            by (nonlinear_arith);
        let r = image.subrange((first * block_size) as int, ((first + count) * block_size) as int);
        assert(ranges == before.push(r));
        assert(ranges.drop_last() =~= before);
        assert(ranges.last() == r);
        assert(r.len() == count * block_size);
        assert(crate::chain::concat(ranges) == crate::chain::concat(before) + r);
        assert(total_blocks(extents) == total + count);
    } else {
        assert(total_blocks(extents) * block_size == 0) by (nonlinear_arith)
            requires
                total_blocks(extents) == 0,
        ;
    }
}

impl Ext4Inode {
    /// The walk of the extent tree gives the blocks of each leaf that lies
    /// inside the image, in the order of the leaves, and nothing else.
    pub proof fn lemma_data_ranges_are_leaf_ranges(&self, image: Seq<u8>, block_size: nat)
        ensures
            self.spec_data_ranges(image, block_size) == extent_ranges(
                image,
                block_size,
                self.spec_leaves(image, block_size),
            ),
    {
        let h = self.spec_extend_header();
        if !(self.i_flags.spec_bits() & InodeFlags::EXTENTS != InodeFlags::EXTENTS || h.eh_entries
            > 4) && h.eh_depth != 0 {
            lemma_index_ranges_are_leaf_ranges(
                image,
                block_size,
                decode_indices(self.i_block@, 12, h.eh_entries as nat),
                h.eh_depth as nat,
            );
        }
    }

    /// Where every leaf of the tree lies inside the image and the leaves
    /// cover at least as many blocks as the size of the file takes, the
    /// ranges of the walk hold at least `size` bytes.
    pub proof fn lemma_data_covers_size(&self, image: Seq<u8>, block_size: nat)
        requires
            forall|i: int|
                0 <= i < self.spec_leaves(image, block_size).len() ==> leaf_in_image(
                    image.len(),
                    block_size,
                    #[trigger] self.spec_leaves(image, block_size)[i],
                ),
            self.spec_size() <= total_blocks(self.spec_leaves(image, block_size)) * block_size,
        ensures
            crate::chain::concat(self.spec_data_ranges(image, block_size)).len() >= self.spec_size(),
    {
        self.lemma_data_ranges_are_leaf_ranges(image, block_size);
        lemma_extent_ranges_len(image, block_size, self.spec_leaves(image, block_size));
    }
}

/// The record lengths of `entries`, added up.
pub open spec fn rec_len_sum(entries: Seq<DirEntryView>) -> nat
    decreases entries.len(),
{
    if entries.len() == 0 {
        0
    } else {
        entries[0].rec_len as nat + rec_len_sum(entries.drop_first())
    }
}

/// Whether entries tile `block` from `off` to its end: each one decodes,
/// and each one ends where the next begins or where the block ends.
pub open spec fn entries_tile(block: Seq<u8>, off: nat) -> bool
    decreases block.len() - off,
{
    if off >= block.len() {
        off == block.len()
    } else if block.len() - off < 8 {
        false
    } else {
        match DirEntryView::decode(block.skip(off as int)) {
            Decoded::Item(n, _) => n >= 1 && entries_tile(block, (off + n) as nat),
            _ => false,
        }
    }
}

/// The entries that a stream yields from one block, from the offset `off`
/// on, have record lengths that add up to no more than the bytes that are
/// left, and to exactly those bytes where the entries tile the block.
pub proof fn lemma_rec_len_sum(block: Seq<u8>, off: nat)
    requires
        off <= block.len(),
    ensures
        rec_len_sum(spec_items::<Ext4DirEntry>(seq![block], 0, off)) <= block.len() - off,
        entries_tile(block, off) <==> rec_len_sum(spec_items::<Ext4DirEntry>(seq![block], 0, off))
            == block.len() - off,
    decreases block.len() - off,
{
    let ranges = seq![block];
    let items = spec_items::<Ext4DirEntry>(ranges, 0, off);
    lemma_next_advances::<Ext4DirEntry>(ranges, 0, off);
    assert(spec_next::<Ext4DirEntry>(ranges, 1, 0) is None);
    assert(bytes_left(ranges, 1, 0) == 0);
    if block.len() - off < 8 {
        assert(spec_next::<Ext4DirEntry>(ranges, 0, off) is None);
        assert(items =~= Seq::<DirEntryView>::empty());
    } else {
        match DirEntryView::decode(block.skip(off as int)) {
            Decoded::Item(n, v) => {
                assert(8 <= n <= block.len() - off);
                assert(v.rec_len == n);
                assert(spec_next::<Ext4DirEntry>(ranges, 0, off) == Some(
                    (v, 0nat, (off + n) as nat),
                ));
                let rest = spec_items::<Ext4DirEntry>(ranges, 0, (off + n) as nat);
                assert(items == seq![v] + rest);
                assert(items.drop_first() =~= rest);
                lemma_rec_len_sum(block, (off + n) as nat);
            },
            _ => {
                assert(spec_next::<Ext4DirEntry>(ranges, 0, off) is None);
                assert(items =~= Seq::<DirEntryView>::empty());
            },
        }
    }
}

/// Two decoded entries that say the same are the same entry.
pub proof fn lemma_dir_entry_view_injective(a: Ext4DirEntry, b: Ext4DirEntry)
    requires
        a.wf(),
        b.wf(),
        a@ == b@,
    ensures
        a == b,
{
    assert forall|i: int| 0 <= i < 255 implies a.name@[i] == b.name@[i] by {
        assert(a@.name_len == b@.name_len);
        if i < a.name_len {
            assert(a@.name[i] == a.name@[i]);
            assert(b@.name[i] == b.name@[i]);
        } else {
            assert(a.name@[i] == 0 && b.name@[i] == 0);
        }
    }
    assert(a.name =~= b.name);
}

/// The size that is stored as the exponent `k`: 1024 doubled `k` times.
pub open spec fn size_of_log(k: nat) -> nat
    decreases k,
{
    if k == 0 {
        1024
    } else {
        2 * size_of_log((k - 1) as nat)
    }
}

/// Whether `v` is a size that some exponent of at most 53 stores.
pub open spec fn is_size_of_log(v: u64) -> bool {
    exists|k: nat| k <= 53 && v == #[trigger] size_of_log(k)
}

/// The exponent that stores the size `v`.
pub open spec fn log_of_size(v: u64) -> nat {
    choose|k: nat| k <= 53 && v == #[trigger] size_of_log(k)
}

/// Every size is at least 1024.
pub proof fn lemma_size_of_log_at_least(k: nat)
    ensures
        size_of_log(k) >= 1024,
    decreases k,
{
    if k > 0 {
        lemma_size_of_log_at_least((k - 1) as nat);
    }
}

/// A larger exponent stores a larger size.
pub proof fn lemma_size_of_log_increases(a: nat, b: nat)
    requires
        a < b,
    ensures
        0 < size_of_log(a) < size_of_log(b),
    decreases b,
{
    if a + 1 < b {
        lemma_size_of_log_increases(a, (b - 1) as nat);
    } else if a > 0 {
        lemma_size_of_log_increases((a - 1) as nat, a);
    }
}

/// The sizes of the exponents up to 53 fit in 64 bits.
pub proof fn lemma_size_of_log_fits(k: nat)
    requires
        k <= 53,
    ensures
        size_of_log(k) <= 0x8000_0000_0000_0000,
{
    assert(size_of_log(53) == 0x8000_0000_0000_0000) by {
        reveal_with_fuel(size_of_log, 54);
    }
    if k < 53 {
        lemma_size_of_log_increases(k, 53);
    }
}

/// The size of an exponent of at most 53 fits in 64 bits, and its exponent
/// is found again.
pub proof fn lemma_log_of_size(k: nat)
    requires
        k <= 53,
    ensures
        size_of_log(k) <= u64::MAX,
        is_size_of_log(size_of_log(k) as u64),
        log_of_size(size_of_log(k) as u64) == k,
{
    lemma_size_of_log_fits(k);
    let v = size_of_log(k) as u64;
    let found = log_of_size(v);
    if found < k {
        lemma_size_of_log_increases(found, k);
    }
    if k < found {
        lemma_size_of_log_increases(k, found);
    }
}

/// The size that the exponent `x` stores, or `None` where `x` is above 53.
pub fn size_from_log(x: u32) -> (r: Option<u64>)
    ensures
        r is Some <==> x <= 53,
        r matches Some(v) ==> v == size_of_log(x as nat),
{
    if x > 53 {
        return None;
    }
    let mut v: u64 = 1024;
    let mut i: u32 = 0;
    while i < x
        invariant
            i <= x <= 53,
            v == size_of_log(i as nat),
        decreases x - i,
    {
        proof {
            lemma_size_of_log_fits((i + 1) as nat);
        }
        v = v * 2;
        i += 1;
    }
    Some(v)
}

/// The exponent that stores the size `v`, or `None` where no exponent up to
/// 53 does.
pub fn log_from_size(v: u64) -> (r: Option<u8>)
    ensures
        r is Some <==> is_size_of_log(v),
        r matches Some(k) ==> k <= 53 && v == size_of_log(k as nat) && k == log_of_size(v),
{
    let mut cur: u64 = 1024;
    let mut k: u8 = 0;
    loop
        invariant
            k <= 53,
            cur == size_of_log(k as nat),
            forall|j: nat| j < k ==> v != #[trigger] size_of_log(j),
        decreases 53 - k,
    {
        if cur == v {
            proof {
                lemma_log_of_size(k as nat);
            }
            return Some(k);
        }
        if k == 53 {
            return None;
        }
        proof {
            lemma_size_of_log_fits((k + 1) as nat);
        }
        cur = cur * 2;
        k += 1;
    }
}

/// Whether the numbers `ws` are stored little-endian back to back in `s`
/// from `off` on.
pub open spec fn words_at(ws: Seq<u32>, s: Seq<u8>, off: int) -> bool {
    forall|k: int| 0 <= k < ws.len() ==> ws[k] == le32(s, off + 4 * k)
}

/// The bytes that store the numbers `ws` little-endian back to back.
pub open spec fn words_bytes(ws: Seq<u32>) -> Seq<u8>
    decreases ws.len(),
{
    if ws.len() == 0 {
        Seq::empty()
    } else {
        words_bytes(ws.drop_last()) + u32_bytes(ws.last())
    }
}

/// Writing the numbers read from `off` on gives the bytes from `off` on
/// again.
pub proof fn lemma_words_bytes(ws: Seq<u32>, s: Seq<u8>, off: int)
    requires
        0 <= off,
        off + 4 * ws.len() <= s.len(),
        words_at(ws, s, off),
    ensures
        words_bytes(ws) == s.subrange(off, off + 4 * ws.len()),
    decreases ws.len(),
{
    if ws.len() == 0 {
        assert(words_bytes(ws) =~= s.subrange(off, off + 4 * ws.len()));
    } else {
        let n = ws.len() - 1;
        let rest = ws.drop_last();
        assert forall|k: int| 0 <= k < rest.len() implies rest[k] == le32(s, off + 4 * k) by {
            assert(rest[k] == ws[k]);
        }
        lemma_words_bytes(rest, s, off);
        lemma_bytes_of_le32(s, off + 4 * n);
        assert(ws.last() == le32(s, off + 4 * n));
        assert(words_bytes(ws) =~= s.subrange(off, off + 4 * ws.len()));
    }
}

/// Appends the little-endian bytes of the numbers `ws`.
pub fn put_words(out: &mut Vec<u8>, ws: &[u32])
    ensures
        final(out)@ == old(out)@ + words_bytes(ws@),
{
    let mut i: usize = 0;
    assert(ws@.take(0) =~= Seq::<u32>::empty());
    assert(out@ =~= old(out)@ + words_bytes(ws@.take(0)));
    while i < ws.len()
        invariant
            i <= ws@.len(),
            out@ == old(out)@ + words_bytes(ws@.take(i as int)),
        decreases ws@.len() - i,
    {
        let ghost before = ws@.take(i as int);
        put_u32(out, ws[i]);
        i += 1;
        proof {
            let now = ws@.take(i as int);
            assert(now.drop_last() =~= before);
            assert(out@ =~= old(out)@ + words_bytes(now));
        }
    }
    assert(ws@.take(i as int) =~= ws@);
}

/// Two pieces of `s` that meet are one piece.
pub proof fn lemma_subrange_join(s: Seq<u8>, a: int, b: int, c: int)
    requires
        0 <= a <= b <= c <= s.len(),
    ensures
        s.subrange(a, b) + s.subrange(b, c) == s.subrange(a, c),
{
    assert(s.subrange(a, b) + s.subrange(b, c) =~= s.subrange(a, c));
}

/// The descriptor of a block group: 64 bytes that say where its bitmaps and its
/// inode table are.
#[derive(Debug, Clone, Copy)]
pub struct Ext4GroupDesc {
    /// Block number of the block bitmap (low 32 bits).
    pub bg_block_bitmap_lo: u32,
    /// Block number of the inode bitmap (low 32 bits).
    pub bg_inode_bitmap_lo: u32,
    /// Block number of the inode table (low 32 bits).
    pub bg_inode_table_lo: u32,
    /// Number of free blocks (low 16 bits).
    pub bg_free_blocks_count_lo: u16,
    /// Number of free inodes (low 16 bits).
    pub bg_free_inodes_count_lo: u16,
    /// Number of directories (low 16 bits).
    pub bg_used_dirs_count_lo: u16,
    /// Flags of the group.
    pub bg_flags: BgFlags,
    /// Block number of the snapshot exclusion bitmap (low 32 bits).
    pub bg_exclude_bitmap_lo: u32,
    /// Checksum of the block bitmap (low 16 bits).
    pub bg_block_bitmap_csum_lo: u16,
    /// Checksum of the inode bitmap (low 16 bits).
    pub bg_inode_bitmap_csum_lo: u16,
    /// Number of unused inodes (low 16 bits).
    pub bg_itable_unused_lo: u16,
    /// Checksum of the descriptor.
    pub bg_checksum: u16,
    /// Block number of the block bitmap (high 32 bits).
    pub bg_block_bitmap_hi: u32,
    /// Block number of the inode bitmap (high 32 bits).
    pub bg_inode_bitmap_hi: u32,
    /// Block number of the inode table (high 32 bits).
    pub bg_inode_table_hi: u32,
    /// Number of free blocks (high 16 bits).
    pub bg_free_blocks_count_hi: u16,
    /// Number of free inodes (high 16 bits).
    pub bg_free_inodes_count_hi: u16,
    /// Number of directories (high 16 bits).
    pub bg_used_dirs_count_hi: u16,
    /// Number of unused inodes (high 16 bits).
    pub bg_itable_unused_hi: u16,
    /// Block number of the snapshot exclusion bitmap (high 32 bits).
    pub bg_exclude_bitmap_hi: u32,
    /// Checksum of the block bitmap (high 16 bits).
    pub bg_block_bitmap_csum_hi: u16,
    /// Checksum of the inode bitmap (high 16 bits).
    pub bg_inode_bitmap_csum_hi: u16,
    /// Reserved.
    pub bg_reserved: u32,
}

impl Ext4GroupDesc {
    /// Size of the record on disk.
    pub const SIZE: usize = 64;

    /// Whether `self` is what the 64 bytes at `off` decode to.
    pub open spec fn decoded_from(self, s: Seq<u8>, off: int) -> bool {
        &&& self.bg_block_bitmap_lo == le32(s, off)
        &&& self.bg_inode_bitmap_lo == le32(s, off + 4)
        &&& self.bg_inode_table_lo == le32(s, off + 8)
        &&& self.bg_free_blocks_count_lo == le16(s, off + 12)
        &&& self.bg_free_inodes_count_lo == le16(s, off + 14)
        &&& self.bg_used_dirs_count_lo == le16(s, off + 16)
        &&& self.bg_flags == BgFlags::spec_from_bits_truncate(le16(s, off + 18) as u16)
        &&& self.bg_exclude_bitmap_lo == le32(s, off + 20)
        &&& self.bg_block_bitmap_csum_lo == le16(s, off + 24)
        &&& self.bg_inode_bitmap_csum_lo == le16(s, off + 26)
        &&& self.bg_itable_unused_lo == le16(s, off + 28)
        &&& self.bg_checksum == le16(s, off + 30)
        &&& self.bg_block_bitmap_hi == le32(s, off + 32)
        &&& self.bg_inode_bitmap_hi == le32(s, off + 36)
        &&& self.bg_inode_table_hi == le32(s, off + 40)
        &&& self.bg_free_blocks_count_hi == le16(s, off + 44)
        &&& self.bg_free_inodes_count_hi == le16(s, off + 46)
        &&& self.bg_used_dirs_count_hi == le16(s, off + 48)
        &&& self.bg_itable_unused_hi == le16(s, off + 50)
        &&& self.bg_exclude_bitmap_hi == le32(s, off + 52)
        &&& self.bg_block_bitmap_csum_hi == le16(s, off + 56)
        &&& self.bg_inode_bitmap_csum_hi == le16(s, off + 58)
        &&& self.bg_reserved == le32(s, off + 60)
    }

    /// Reads the descriptor stored at `off`.
    pub fn read_at(input: &[u8], off: usize) -> (r: Ext4GroupDesc)
        requires
            off + 64 <= input.len(),
        ensures
            r.decoded_from(input@, off as int),
    {
        Ext4GroupDesc {
            bg_block_bitmap_lo: read_u32(input, off),
            bg_inode_bitmap_lo: read_u32(input, off + 4),
            bg_inode_table_lo: read_u32(input, off + 8),
            bg_free_blocks_count_lo: read_u16(input, off + 12),
            bg_free_inodes_count_lo: read_u16(input, off + 14),
            bg_used_dirs_count_lo: read_u16(input, off + 16),
            bg_flags: BgFlags::from_bits_truncate(read_u16(input, off + 18)),
            bg_exclude_bitmap_lo: read_u32(input, off + 20),
            bg_block_bitmap_csum_lo: read_u16(input, off + 24),
            bg_inode_bitmap_csum_lo: read_u16(input, off + 26),
            bg_itable_unused_lo: read_u16(input, off + 28),
            bg_checksum: read_u16(input, off + 30),
            bg_block_bitmap_hi: read_u32(input, off + 32),
            bg_inode_bitmap_hi: read_u32(input, off + 36),
            bg_inode_table_hi: read_u32(input, off + 40),
            bg_free_blocks_count_hi: read_u16(input, off + 44),
            bg_free_inodes_count_hi: read_u16(input, off + 46),
            bg_used_dirs_count_hi: read_u16(input, off + 48),
            bg_itable_unused_hi: read_u16(input, off + 50),
            bg_exclude_bitmap_hi: read_u32(input, off + 52),
            bg_block_bitmap_csum_hi: read_u16(input, off + 56),
            bg_inode_bitmap_csum_hi: read_u16(input, off + 58),
            bg_reserved: read_u32(input, off + 60),
        }
    }

    /// Decodes a descriptor from the front of `input` and hands back the
    /// input after it. Fails exactly when fewer than 64 bytes are there.
    pub fn parse(input: &[u8]) -> (r: Result<(&[u8], Ext4GroupDesc), ParseError>)
        ensures
            r is Ok <==> input@.len() >= 64,
            r matches Ok((rest, d)) ==> d.decoded_from(input@, 0) && rest@ == input@.skip(64),
            r matches Err(e) ==> e == ParseError::TooShort,
    {
        match take(input, Self::SIZE) {
            Ok((rest, _)) => Ok((rest, Self::read_at(input, 0))),
            Err(e) => Err(e),
        }
    }

}

/// The superblock: the 1024 bytes at offset 1024 of a volume that describe its
/// geometry and its features.
#[derive(Debug, Clone, Copy)]
pub struct Ext4SuperBlock {
    /// Number of inodes.
    pub s_inodes_count: u32,
    /// Number of blocks (low 32 bits).
    pub s_blocks_count_lo: u32,
    /// Number of reserved blocks (low 32 bits).
    pub s_r_blocks_count_lo: u32,
    /// Number of free blocks (low 32 bits).
    pub s_free_blocks_count_lo: u32,
    /// Number of free inodes.
    pub s_free_inodes_count: u32,
    /// First data block.
    pub s_first_data_block: u32,
    /// Block size in bytes: 1024 shifted left by the stored number.
    pub s_log_block_size: u64,
    /// Cluster size in bytes: 1024 shifted left by the stored number.
    pub s_log_cluster_size: u64,
    /// Blocks per group.
    pub s_blocks_per_group: u32,
    /// Clusters per group.
    pub s_clusters_per_group: u32,
    /// Inodes per group.
    pub s_inodes_per_group: u32,
    /// Mount time.
    pub s_mtime: u32,
    /// Write time.
    pub s_wtime: u32,
    /// Mounts since the last check.
    pub s_mnt_count: u16,
    /// Mounts after which a check is due.
    pub s_max_mnt_count: u16,
    /// Magic number, `EXT4_SUPER_MAGIC` in a valid superblock.
    pub s_magic: u16,
    /// State of the volume.
    pub s_state: u16,
    /// What to do on errors.
    pub s_errors: u16,
    /// Minor revision level.
    pub s_minor_rev_level: u16,
    /// Time of the last check.
    pub s_lastcheck: u32,
    /// Longest time between checks.
    pub s_checkinterval: u32,
    /// System that made the volume.
    pub s_creator_os: u32,
    /// Revision level.
    pub s_rev_level: u32,
    /// Default owner of reserved blocks.
    pub s_def_resuid: u16,
    /// Default group of reserved blocks.
    pub s_def_resgid: u16,
    /// First inode that is not reserved.
    pub s_first_ino: u32,
    /// Size of an inode slot in bytes.
    pub s_inode_size: u16,
    /// Group that holds this superblock.
    pub s_block_group_nr: u16,
    /// Compatible features.
    pub s_feature_compat: CompatFeatures,
    /// Incompatible features.
    pub s_feature_incompat: IncompatFeatures,
    /// Read-only compatible features.
    pub s_feature_ro_compat: RoCompatFeatures,
    /// Volume id.
    pub s_uuid: [u8; 16],
    /// Volume label.
    pub s_volume_name: [u8; 16],
    /// Where the volume was last mounted.
    pub s_last_mounted: [u8; 64],
    /// Compression algorithms in use.
    pub s_algorithm_usage_bitmap: u32,
    /// Blocks to preallocate for files.
    pub s_prealloc_blocks: u8,
    /// Blocks to preallocate for directories.
    pub s_prealloc_dir_blocks: u8,
    /// Blocks reserved for more group descriptors.
    pub s_reserved_gdt_blocks: u16,
    /// Id of the journal superblock.
    pub s_journal_uuid: [u8; 16],
    /// Inode of the journal.
    pub s_journal_inum: u32,
    /// Device of the journal.
    pub s_journal_dev: u32,
    /// Head of the orphan list.
    pub s_last_orphan: u32,
    /// Seed of the directory hash.
    pub s_hash_seed: [u32; 4],
    /// Default hash version.
    pub s_def_hash_version: u8,
    /// Kind of journal backup.
    pub s_jnl_backup_type: u8,
    /// Size of a group descriptor in bytes.
    pub s_desc_size: u16,
    /// Default mount options.
    pub s_default_mount_opts: u32,
    /// First meta block group.
    pub s_first_meta_bg: u32,
    /// When the volume was made.
    pub s_mkfs_time: u32,
    /// Backup of the journal inode.
    pub s_jnl_blocks: [u32; 17],
    /// Number of blocks (high 32 bits).
    pub s_blocks_count_hi: u32,
    /// Number of reserved blocks (high 32 bits).
    pub s_r_blocks_count_hi: u32,
    /// Number of free blocks (high 32 bits).
    pub s_free_blocks_count_hi: u32,
    /// Least extra size of an inode.
    pub s_min_extra_isize: u16,
    /// Wanted extra size of an inode.
    pub s_want_extra_isize: u16,
    /// Miscellaneous flags.
    pub s_flags: u32,
    /// RAID stride.
    pub s_raid_stride: u16,
    /// Seconds between multiple mount protection checks.
    pub s_mmp_update_interval: u16,
    /// Block of the multiple mount protection data.
    pub s_mmp_block: u64,
    /// RAID stripe width.
    pub s_raid_stripe_width: u32,
    /// Size of a flexible group: 1024 shifted left by the stored number.
    pub s_log_groups_per_flex: u64,
    /// Checksum algorithm.
    pub s_checksum_type: u8,
    /// Encryption version.
    pub s_encryption_level: u8,
    /// Padding.
    pub s_reserved_pad: u8,
    /// KiB written over the life of the volume.
    pub s_kbytes_written: u64,
    /// Inode of the active snapshot.
    pub s_snapshot_inum: u32,
    /// Id of the active snapshot.
    pub s_snapshot_id: u32,
    /// Blocks reserved for the active snapshot.
    pub s_snapshot_r_blocks_count: u64,
    /// Head of the snapshot list.
    pub s_snapshot_list: u32,
    /// Number of errors seen.
    pub s_error_count: u32,
    /// Time of the first error.
    pub s_first_error_time: u32,
    /// Inode of the first error.
    pub s_first_error_ino: u32,
    /// Block of the first error.
    pub s_first_error_block: u64,
    /// Function of the first error.
    pub s_first_error_func: [u8; 32],
    /// Line of the first error.
    pub s_first_error_line: u32,
    /// Time of the last error.
    pub s_last_error_time: u32,
    /// Inode of the last error.
    pub s_last_error_ino: u32,
    /// Line of the last error.
    pub s_last_error_line: u32,
    /// Block of the last error.
    pub s_last_error_block: u64,
    /// Function of the last error.
    pub s_last_error_func: [u8; 32],
    /// Mount options.
    pub s_mount_opts: [u8; 64],
    /// Inode of the user quota file.
    pub s_usr_quota_inum: u32,
    /// Inode of the group quota file.
    pub s_grp_quota_inum: u32,
    /// Overhead clusters.
    pub s_overhead_clusters: u32,
    /// Groups that hold backup superblocks.
    pub s_backup_bgs: [u32; 2],
    /// Encryption algorithms in use.
    pub s_encrypt_algos: [u8; 4],
    /// Salt of the encryption key.
    pub s_encrypt_pw_salt: [u8; 16],
    /// Inode of lost+found.
    pub s_lpf_ino: u32,
    /// Inode of the project quota file.
    pub s_prj_quota_inum: u32,
    /// Seed of the metadata checksums.
    pub s_checksum_seed: u32,
    /// High bits of the write time.
    pub s_wtime_hi: u8,
    /// High bits of the mount time.
    pub s_mtime_hi: u8,
    /// High bits of the creation time.
    pub s_mkfs_time_hi: u8,
    /// High bits of the time of the last check.
    pub s_lastcheck_hi: u8,
    /// High bits of the time of the first error.
    pub s_first_error_time_hi: u8,
    /// High bits of the time of the last error.
    pub s_last_error_time_hi: u8,
    /// Code of the first error.
    pub s_first_error_errcode: u8,
    /// Code of the last error.
    pub s_last_error_errcode: u8,
    /// Encoding of file names.
    pub s_encoding: u16,
    /// Flags of the encoding.
    pub s_encoding_flags: u16,
    /// Inode of the orphan file.
    pub s_orphan_file_inum: u32,
    /// Padding to the end of the block.
    pub s_reserved: [u32; 94],
    /// Checksum of the superblock.
    pub s_checksum: u32,
}

impl Ext4SuperBlock {
    /// Size of the record on disk.
    pub const SIZE: usize = 1024;

    /// Whether `self` is what the 1024 bytes at `off` decode to.
    pub open spec fn decoded_from(self, s: Seq<u8>, off: int) -> bool {
        &&& self.decoded_part_0(s, off)
        &&& self.decoded_part_1(s, off)
        &&& self.decoded_part_2(s, off)
        &&& self.decoded_part_3(s, off)
        &&& self.decoded_part_4(s, off)
        &&& self.decoded_part_5(s, off)
        &&& self.decoded_part_6(s, off)
        &&& self.decoded_part_7(s, off)
        &&& self.decoded_part_8(s, off)
        &&& self.decoded_part_9(s, off)
        &&& self.decoded_part_10(s, off)
        &&& self.decoded_part_11(s, off)
    }

    /// The fields stored from byte 0 to byte 48 of the record.
    #[verifier::opaque]
    pub open spec fn decoded_part_0(self, s: Seq<u8>, off: int) -> bool {
        &&& self.s_inodes_count == le32(s, off)
        &&& self.s_blocks_count_lo == le32(s, off + 4)
        &&& self.s_r_blocks_count_lo == le32(s, off + 8)
        &&& self.s_free_blocks_count_lo == le32(s, off + 12)
        &&& self.s_free_inodes_count == le32(s, off + 16)
        &&& self.s_first_data_block == le32(s, off + 20)
        &&& self.s_log_block_size == size_of_log(le32(s, off + 24) as nat)
        &&& self.s_log_cluster_size == size_of_log(le32(s, off + 28) as nat)
        &&& self.s_blocks_per_group == le32(s, off + 32)
        &&& self.s_clusters_per_group == le32(s, off + 36)
        &&& self.s_inodes_per_group == le32(s, off + 40)
        &&& self.s_mtime == le32(s, off + 44)
    }

    /// The fields stored from byte 48 to byte 96 of the record.
    #[verifier::opaque]
    pub open spec fn decoded_part_1(self, s: Seq<u8>, off: int) -> bool {
        &&& self.s_wtime == le32(s, off + 48)
        &&& self.s_mnt_count == le16(s, off + 52)
        &&& self.s_max_mnt_count == le16(s, off + 54)
        &&& self.s_magic == le16(s, off + 56)
        &&& self.s_state == le16(s, off + 58)
        &&& self.s_errors == le16(s, off + 60)
        &&& self.s_minor_rev_level == le16(s, off + 62)
        &&& self.s_lastcheck == le32(s, off + 64)
        &&& self.s_checkinterval == le32(s, off + 68)
        &&& self.s_creator_os == le32(s, off + 72)
        &&& self.s_rev_level == le32(s, off + 76)
        &&& self.s_def_resuid == le16(s, off + 80)
        &&& self.s_def_resgid == le16(s, off + 82)
        &&& self.s_first_ino == le32(s, off + 84)
        &&& self.s_inode_size == le16(s, off + 88)
        &&& self.s_block_group_nr == le16(s, off + 90)
        &&& self.s_feature_compat == CompatFeatures::spec_from_bits_truncate(le32(s, off + 92) as u32)
    }

    /// The fields stored from byte 96 to byte 200 of the record.
    #[verifier::opaque]
    pub open spec fn decoded_part_2(self, s: Seq<u8>, off: int) -> bool {
        &&& self.s_feature_incompat == IncompatFeatures::spec_from_bits_truncate(le32(s, off + 96) as u32)
        &&& self.s_feature_ro_compat == RoCompatFeatures::spec_from_bits_truncate(le32(s, off + 100) as u32)
        &&& self.s_uuid@ == s.subrange(off + 104, off + 120)
        &&& self.s_volume_name@ == s.subrange(off + 120, off + 136)
        &&& self.s_last_mounted@ == s.subrange(off + 136, off + 200)
    }

    /// The fields stored from byte 200 to byte 252 of the record.
    #[verifier::opaque]
    pub open spec fn decoded_part_3(self, s: Seq<u8>, off: int) -> bool {
        &&& self.s_algorithm_usage_bitmap == le32(s, off + 200)
        &&& self.s_prealloc_blocks == s[off + 204]
        &&& self.s_prealloc_dir_blocks == s[off + 205]
        &&& self.s_reserved_gdt_blocks == le16(s, off + 206)
        &&& self.s_journal_uuid@ == s.subrange(off + 208, off + 224)
        &&& self.s_journal_inum == le32(s, off + 224)
        &&& self.s_journal_dev == le32(s, off + 228)
        &&& self.s_last_orphan == le32(s, off + 232)
        &&& words_at(self.s_hash_seed@, s, off + 236)
    }

    /// The fields stored from byte 252 to byte 336 of the record.
    #[verifier::opaque]
    pub open spec fn decoded_part_4(self, s: Seq<u8>, off: int) -> bool {
        &&& self.s_def_hash_version == s[off + 252]
        &&& self.s_jnl_backup_type == s[off + 253]
        &&& self.s_desc_size == le16(s, off + 254)
        &&& self.s_default_mount_opts == le32(s, off + 256)
        &&& self.s_first_meta_bg == le32(s, off + 260)
        &&& self.s_mkfs_time == le32(s, off + 264)
        &&& words_at(self.s_jnl_blocks@, s, off + 268)
    }

    /// The fields stored from byte 336 to byte 384 of the record.
    #[verifier::opaque]
    pub open spec fn decoded_part_5(self, s: Seq<u8>, off: int) -> bool {
        &&& self.s_blocks_count_hi == le32(s, off + 336)
        &&& self.s_r_blocks_count_hi == le32(s, off + 340)
        &&& self.s_free_blocks_count_hi == le32(s, off + 344)
        &&& self.s_min_extra_isize == le16(s, off + 348)
        &&& self.s_want_extra_isize == le16(s, off + 350)
        &&& self.s_flags == le32(s, off + 352)
        &&& self.s_raid_stride == le16(s, off + 356)
        &&& self.s_mmp_update_interval == le16(s, off + 358)
        &&& self.s_mmp_block == le64(s, off + 360)
        &&& self.s_raid_stripe_width == le32(s, off + 368)
        &&& self.s_log_groups_per_flex == size_of_log(s[off + 372] as nat)
        &&& self.s_checksum_type == s[off + 373]
        &&& self.s_encryption_level == s[off + 374]
        &&& self.s_reserved_pad == s[off + 375]
        &&& self.s_kbytes_written == le64(s, off + 376)
    }

    /// The fields stored from byte 384 to byte 456 of the record.
    #[verifier::opaque]
    pub open spec fn decoded_part_6(self, s: Seq<u8>, off: int) -> bool {
        &&& self.s_snapshot_inum == le32(s, off + 384)
        &&& self.s_snapshot_id == le32(s, off + 388)
        &&& self.s_snapshot_r_blocks_count == le64(s, off + 392)
        &&& self.s_snapshot_list == le32(s, off + 400)
        &&& self.s_error_count == le32(s, off + 404)
        &&& self.s_first_error_time == le32(s, off + 408)
        &&& self.s_first_error_ino == le32(s, off + 412)
        &&& self.s_first_error_block == le64(s, off + 416)
        &&& self.s_first_error_func@ == s.subrange(off + 424, off + 456)
    }

    /// The fields stored from byte 456 to byte 512 of the record.
    #[verifier::opaque]
    pub open spec fn decoded_part_7(self, s: Seq<u8>, off: int) -> bool {
        &&& self.s_first_error_line == le32(s, off + 456)
        &&& self.s_last_error_time == le32(s, off + 460)
        &&& self.s_last_error_ino == le32(s, off + 464)
        &&& self.s_last_error_line == le32(s, off + 468)
        &&& self.s_last_error_block == le64(s, off + 472)
        &&& self.s_last_error_func@ == s.subrange(off + 480, off + 512)
    }

    /// The fields stored from byte 512 to byte 576 of the record.
    #[verifier::opaque]
    pub open spec fn decoded_part_8(self, s: Seq<u8>, off: int) -> bool {
        &&& self.s_mount_opts@ == s.subrange(off + 512, off + 576)
    }

    /// The fields stored from byte 576 to byte 624 of the record.
    #[verifier::opaque]
    pub open spec fn decoded_part_9(self, s: Seq<u8>, off: int) -> bool {
        &&& self.s_usr_quota_inum == le32(s, off + 576)
        &&& self.s_grp_quota_inum == le32(s, off + 580)
        &&& self.s_overhead_clusters == le32(s, off + 584)
        &&& words_at(self.s_backup_bgs@, s, off + 588)
        &&& self.s_encrypt_algos@ == s.subrange(off + 596, off + 600)
        &&& self.s_encrypt_pw_salt@ == s.subrange(off + 600, off + 616)
        &&& self.s_lpf_ino == le32(s, off + 616)
        &&& self.s_prj_quota_inum == le32(s, off + 620)
    }

    /// The fields stored from byte 624 to byte 1020 of the record.
    #[verifier::opaque]
    pub open spec fn decoded_part_10(self, s: Seq<u8>, off: int) -> bool {
        &&& self.s_checksum_seed == le32(s, off + 624)
        &&& self.s_wtime_hi == s[off + 628]
        &&& self.s_mtime_hi == s[off + 629]
        &&& self.s_mkfs_time_hi == s[off + 630]
        &&& self.s_lastcheck_hi == s[off + 631]
        &&& self.s_first_error_time_hi == s[off + 632]
        &&& self.s_last_error_time_hi == s[off + 633]
        &&& self.s_first_error_errcode == s[off + 634]
        &&& self.s_last_error_errcode == s[off + 635]
        &&& self.s_encoding == le16(s, off + 636)
        &&& self.s_encoding_flags == le16(s, off + 638)
        &&& self.s_orphan_file_inum == le32(s, off + 640)
        &&& words_at(self.s_reserved@, s, off + 644)
    }

    /// The fields stored from byte 1020 to byte 1024 of the record.
    #[verifier::opaque]
    pub open spec fn decoded_part_11(self, s: Seq<u8>, off: int) -> bool {
        &&& self.s_checksum == le32(s, off + 1020)
    }

    /// Whether the three sizes that are stored as exponents can be stored at
    /// `off`: each stored number is at most 53, so that 1024 shifted by it
    /// fits in 64 bits.
    pub open spec fn sizes_fit(s: Seq<u8>, off: int) -> bool {
        le32(s, off + 24) <= 53 && le32(s, off + 28) <= 53 && s[off + 372] <= 53
    }

    /// Reads the superblock stored at `off`; `None` where one of the three
    /// sizes does not fit.
    #[verifier::rlimit(50)]
    pub fn read_at(input: &[u8], off: usize) -> (r: Option<Ext4SuperBlock>)
        requires
            off + 1024 <= input.len(),
        ensures
            r is Some <==> Self::sizes_fit(input@, off as int),
            r matches Some(sb) ==> sb.decoded_from(input@, off as int),
    {
        let s_log_block_size = match size_from_log(read_u32(input, off + 24)) {
            Some(v) => v,
            None => {
                return None;
            },
        };
        let s_log_cluster_size = match size_from_log(read_u32(input, off + 28)) {
            Some(v) => v,
            None => {
                return None;
            },
        };
        let raw_flex: u8 = read_u8(input, off + 372);
        let s_log_groups_per_flex = match size_from_log(raw_flex as u32) {
            Some(v) => v,
            None => {
                return None;
            },
        };
        let sb = Ext4SuperBlock {
            s_inodes_count: read_u32(input, off),
            s_blocks_count_lo: read_u32(input, off + 4),
            s_r_blocks_count_lo: read_u32(input, off + 8),
            s_free_blocks_count_lo: read_u32(input, off + 12),
            s_free_inodes_count: read_u32(input, off + 16),
            s_first_data_block: read_u32(input, off + 20),
            s_log_block_size,
            s_log_cluster_size,
            s_blocks_per_group: read_u32(input, off + 32),
            s_clusters_per_group: read_u32(input, off + 36),
            s_inodes_per_group: read_u32(input, off + 40),
            s_mtime: read_u32(input, off + 44),
            s_wtime: read_u32(input, off + 48),
            s_mnt_count: read_u16(input, off + 52),
            s_max_mnt_count: read_u16(input, off + 54),
            s_magic: read_u16(input, off + 56),
            s_state: read_u16(input, off + 58),
            s_errors: read_u16(input, off + 60),
            s_minor_rev_level: read_u16(input, off + 62),
            s_lastcheck: read_u32(input, off + 64),
            s_checkinterval: read_u32(input, off + 68),
            s_creator_os: read_u32(input, off + 72),
            s_rev_level: read_u32(input, off + 76),
            s_def_resuid: read_u16(input, off + 80),
            s_def_resgid: read_u16(input, off + 82),
            s_first_ino: read_u32(input, off + 84),
            s_inode_size: read_u16(input, off + 88),
            s_block_group_nr: read_u16(input, off + 90),
            s_feature_compat: CompatFeatures::from_bits_truncate(read_u32(input, off + 92)),
            s_feature_incompat: IncompatFeatures::from_bits_truncate(read_u32(input, off + 96)),
            s_feature_ro_compat: RoCompatFeatures::from_bits_truncate(read_u32(input, off + 100)),
            s_uuid: read_bytes::<16>(input, off + 104),
            s_volume_name: read_bytes::<16>(input, off + 120),
            s_last_mounted: read_bytes::<64>(input, off + 136),
            s_algorithm_usage_bitmap: read_u32(input, off + 200),
            s_prealloc_blocks: read_u8(input, off + 204),
            s_prealloc_dir_blocks: read_u8(input, off + 205),
            s_reserved_gdt_blocks: read_u16(input, off + 206),
            s_journal_uuid: read_bytes::<16>(input, off + 208),
            s_journal_inum: read_u32(input, off + 224),
            s_journal_dev: read_u32(input, off + 228),
            s_last_orphan: read_u32(input, off + 232),
            s_hash_seed: read_words::<4>(input, off + 236),
            s_def_hash_version: read_u8(input, off + 252),
            s_jnl_backup_type: read_u8(input, off + 253),
            s_desc_size: read_u16(input, off + 254),
            s_default_mount_opts: read_u32(input, off + 256),
            s_first_meta_bg: read_u32(input, off + 260),
            s_mkfs_time: read_u32(input, off + 264),
            s_jnl_blocks: read_words::<17>(input, off + 268),
            s_blocks_count_hi: read_u32(input, off + 336),
            s_r_blocks_count_hi: read_u32(input, off + 340),
            s_free_blocks_count_hi: read_u32(input, off + 344),
            s_min_extra_isize: read_u16(input, off + 348),
            s_want_extra_isize: read_u16(input, off + 350),
            s_flags: read_u32(input, off + 352),
            s_raid_stride: read_u16(input, off + 356),
            s_mmp_update_interval: read_u16(input, off + 358),
            s_mmp_block: read_u64(input, off + 360),
            s_raid_stripe_width: read_u32(input, off + 368),
            s_log_groups_per_flex,
            s_checksum_type: read_u8(input, off + 373),
            s_encryption_level: read_u8(input, off + 374),
            s_reserved_pad: read_u8(input, off + 375),
            s_kbytes_written: read_u64(input, off + 376),
            s_snapshot_inum: read_u32(input, off + 384),
            s_snapshot_id: read_u32(input, off + 388),
            s_snapshot_r_blocks_count: read_u64(input, off + 392),
            s_snapshot_list: read_u32(input, off + 400),
            s_error_count: read_u32(input, off + 404),
            s_first_error_time: read_u32(input, off + 408),
            s_first_error_ino: read_u32(input, off + 412),
            s_first_error_block: read_u64(input, off + 416),
            s_first_error_func: read_bytes::<32>(input, off + 424),
            s_first_error_line: read_u32(input, off + 456),
            s_last_error_time: read_u32(input, off + 460),
            s_last_error_ino: read_u32(input, off + 464),
            s_last_error_line: read_u32(input, off + 468),
            s_last_error_block: read_u64(input, off + 472),
            s_last_error_func: read_bytes::<32>(input, off + 480),
            s_mount_opts: read_bytes::<64>(input, off + 512),
            s_usr_quota_inum: read_u32(input, off + 576),
            s_grp_quota_inum: read_u32(input, off + 580),
            s_overhead_clusters: read_u32(input, off + 584),
            s_backup_bgs: read_words::<2>(input, off + 588),
            s_encrypt_algos: read_bytes::<4>(input, off + 596),
            s_encrypt_pw_salt: read_bytes::<16>(input, off + 600),
            s_lpf_ino: read_u32(input, off + 616),
            s_prj_quota_inum: read_u32(input, off + 620),
            s_checksum_seed: read_u32(input, off + 624),
            s_wtime_hi: read_u8(input, off + 628),
            s_mtime_hi: read_u8(input, off + 629),
            s_mkfs_time_hi: read_u8(input, off + 630),
            s_lastcheck_hi: read_u8(input, off + 631),
            s_first_error_time_hi: read_u8(input, off + 632),
            s_last_error_time_hi: read_u8(input, off + 633),
            s_first_error_errcode: read_u8(input, off + 634),
            s_last_error_errcode: read_u8(input, off + 635),
            s_encoding: read_u16(input, off + 636),
            s_encoding_flags: read_u16(input, off + 638),
            s_orphan_file_inum: read_u32(input, off + 640),
            s_reserved: read_words::<94>(input, off + 644),
            s_checksum: read_u32(input, off + 1020),
        };
        assert(sb.decoded_part_0(input@, off as int)) by {
            reveal(Ext4SuperBlock::decoded_part_0);
        }
        assert(sb.decoded_part_1(input@, off as int)) by {
            reveal(Ext4SuperBlock::decoded_part_1);
        }
        assert(sb.decoded_part_2(input@, off as int)) by {
            reveal(Ext4SuperBlock::decoded_part_2);
        }
        assert(sb.decoded_part_3(input@, off as int)) by {
            reveal(Ext4SuperBlock::decoded_part_3);
        }
        assert(sb.decoded_part_4(input@, off as int)) by {
            reveal(Ext4SuperBlock::decoded_part_4);
        }
        assert(sb.decoded_part_5(input@, off as int)) by {
            reveal(Ext4SuperBlock::decoded_part_5);
        }
        assert(sb.decoded_part_6(input@, off as int)) by {
            reveal(Ext4SuperBlock::decoded_part_6);
        }
        assert(sb.decoded_part_7(input@, off as int)) by {
            reveal(Ext4SuperBlock::decoded_part_7);
        }
        assert(sb.decoded_part_8(input@, off as int)) by {
            reveal(Ext4SuperBlock::decoded_part_8);
        }
        assert(sb.decoded_part_9(input@, off as int)) by {
            reveal(Ext4SuperBlock::decoded_part_9);
        }
        assert(sb.decoded_part_10(input@, off as int)) by {
            reveal(Ext4SuperBlock::decoded_part_10);
        }
        assert(sb.decoded_part_11(input@, off as int)) by {
            reveal(Ext4SuperBlock::decoded_part_11);
        }
        Some(sb)
    }

    /// Decodes a superblock from the front of `input` and hands back the
    /// input after its 1024 bytes. Fails on fewer than 1024 bytes, and on a
    /// size that does not fit.
    pub fn parse(input: &[u8]) -> (r: Result<(&[u8], Ext4SuperBlock), ParseError>)
        ensures
            r is Ok <==> input@.len() >= 1024 && Self::sizes_fit(input@, 0),
            r matches Ok((rest, sb)) ==> sb.decoded_from(input@, 0) && rest@ == input@.skip(1024),
            r matches Err(e) ==> e == (if input@.len() < 1024 {
                ParseError::TooShort
            } else {
                ParseError::BadGeometry
            }),
    {
        match take(input, Self::SIZE) {
            Ok((rest, _)) => match Self::read_at(input, 0) {
                Some(sb) => Ok((rest, sb)),
                None => Err(ParseError::BadGeometry),
            },
            Err(e) => Err(e),
        }
    }

    /// The bytes that store the fields of bytes 0 to 48 of the record.
    #[verifier::opaque]
    pub open spec fn encoding_part_0(self) -> Seq<u8> {
        u32_bytes(self.s_inodes_count)
            + u32_bytes(self.s_blocks_count_lo)
            + u32_bytes(self.s_r_blocks_count_lo)
            + u32_bytes(self.s_free_blocks_count_lo)
            + u32_bytes(self.s_free_inodes_count)
            + u32_bytes(self.s_first_data_block)
            + u32_bytes(log_of_size(self.s_log_block_size) as u32)
            + u32_bytes(log_of_size(self.s_log_cluster_size) as u32)
            + u32_bytes(self.s_blocks_per_group)
            + u32_bytes(self.s_clusters_per_group)
            + u32_bytes(self.s_inodes_per_group)
            + u32_bytes(self.s_mtime)
    }

    /// The bytes that store the fields of bytes 48 to 96 of the record.
    #[verifier::opaque]
    pub open spec fn encoding_part_1(self) -> Seq<u8> {
        u32_bytes(self.s_wtime)
            + u16_bytes(self.s_mnt_count)
            + u16_bytes(self.s_max_mnt_count)
            + u16_bytes(self.s_magic)
            + u16_bytes(self.s_state)
            + u16_bytes(self.s_errors)
            + u16_bytes(self.s_minor_rev_level)
            + u32_bytes(self.s_lastcheck)
            + u32_bytes(self.s_checkinterval)
            + u32_bytes(self.s_creator_os)
            + u32_bytes(self.s_rev_level)
            + u16_bytes(self.s_def_resuid)
            + u16_bytes(self.s_def_resgid)
            + u32_bytes(self.s_first_ino)
            + u16_bytes(self.s_inode_size)
            + u16_bytes(self.s_block_group_nr)
            + u32_bytes(self.s_feature_compat.spec_bits())
    }

    /// The bytes that store the fields of bytes 96 to 200 of the record.
    #[verifier::opaque]
    pub open spec fn encoding_part_2(self) -> Seq<u8> {
        u32_bytes(self.s_feature_incompat.spec_bits())
            + u32_bytes(self.s_feature_ro_compat.spec_bits())
            + self.s_uuid@
            + self.s_volume_name@
            + self.s_last_mounted@
    }

    /// The bytes that store the fields of bytes 200 to 252 of the record.
    #[verifier::opaque]
    pub open spec fn encoding_part_3(self) -> Seq<u8> {
        u32_bytes(self.s_algorithm_usage_bitmap)
            + seq![self.s_prealloc_blocks]
            + seq![self.s_prealloc_dir_blocks]
            + u16_bytes(self.s_reserved_gdt_blocks)
            + self.s_journal_uuid@
            + u32_bytes(self.s_journal_inum)
            + u32_bytes(self.s_journal_dev)
            + u32_bytes(self.s_last_orphan)
            + words_bytes(self.s_hash_seed@)
    }

    /// The bytes that store the fields of bytes 252 to 336 of the record.
    #[verifier::opaque]
    pub open spec fn encoding_part_4(self) -> Seq<u8> {
        seq![self.s_def_hash_version]
            + seq![self.s_jnl_backup_type]
            + u16_bytes(self.s_desc_size)
            + u32_bytes(self.s_default_mount_opts)
            + u32_bytes(self.s_first_meta_bg)
            + u32_bytes(self.s_mkfs_time)
            + words_bytes(self.s_jnl_blocks@)
    }

    /// The bytes that store the fields of bytes 336 to 384 of the record.
    #[verifier::opaque]
    pub open spec fn encoding_part_5(self) -> Seq<u8> {
        u32_bytes(self.s_blocks_count_hi)
            + u32_bytes(self.s_r_blocks_count_hi)
            + u32_bytes(self.s_free_blocks_count_hi)
            + u16_bytes(self.s_min_extra_isize)
            + u16_bytes(self.s_want_extra_isize)
            + u32_bytes(self.s_flags)
            + u16_bytes(self.s_raid_stride)
            + u16_bytes(self.s_mmp_update_interval)
            + u64_bytes(self.s_mmp_block)
            + u32_bytes(self.s_raid_stripe_width)
            + seq![log_of_size(self.s_log_groups_per_flex) as u8]
            + seq![self.s_checksum_type]
            + seq![self.s_encryption_level]
            + seq![self.s_reserved_pad]
            + u64_bytes(self.s_kbytes_written)
    }

    /// The bytes that store the fields of bytes 384 to 456 of the record.
    #[verifier::opaque]
    pub open spec fn encoding_part_6(self) -> Seq<u8> {
        u32_bytes(self.s_snapshot_inum)
            + u32_bytes(self.s_snapshot_id)
            + u64_bytes(self.s_snapshot_r_blocks_count)
            + u32_bytes(self.s_snapshot_list)
            + u32_bytes(self.s_error_count)
            + u32_bytes(self.s_first_error_time)
            + u32_bytes(self.s_first_error_ino)
            + u64_bytes(self.s_first_error_block)
            + self.s_first_error_func@
    }

    /// The bytes that store the fields of bytes 456 to 512 of the record.
    #[verifier::opaque]
    pub open spec fn encoding_part_7(self) -> Seq<u8> {
        u32_bytes(self.s_first_error_line)
            + u32_bytes(self.s_last_error_time)
            + u32_bytes(self.s_last_error_ino)
            + u32_bytes(self.s_last_error_line)
            + u64_bytes(self.s_last_error_block)
            + self.s_last_error_func@
    }

    /// The bytes that store the fields of bytes 512 to 576 of the record.
    #[verifier::opaque]
    pub open spec fn encoding_part_8(self) -> Seq<u8> {
        self.s_mount_opts@
    }

    /// The bytes that store the fields of bytes 576 to 624 of the record.
    #[verifier::opaque]
    pub open spec fn encoding_part_9(self) -> Seq<u8> {
        u32_bytes(self.s_usr_quota_inum)
            + u32_bytes(self.s_grp_quota_inum)
            + u32_bytes(self.s_overhead_clusters)
            + words_bytes(self.s_backup_bgs@)
            + self.s_encrypt_algos@
            + self.s_encrypt_pw_salt@
            + u32_bytes(self.s_lpf_ino)
            + u32_bytes(self.s_prj_quota_inum)
    }

    /// The bytes that store the fields of bytes 624 to 1020 of the record.
    #[verifier::opaque]
    pub open spec fn encoding_part_10(self) -> Seq<u8> {
        u32_bytes(self.s_checksum_seed)
            + seq![self.s_wtime_hi]
            + seq![self.s_mtime_hi]
            + seq![self.s_mkfs_time_hi]
            + seq![self.s_lastcheck_hi]
            + seq![self.s_first_error_time_hi]
            + seq![self.s_last_error_time_hi]
            + seq![self.s_first_error_errcode]
            + seq![self.s_last_error_errcode]
            + u16_bytes(self.s_encoding)
            + u16_bytes(self.s_encoding_flags)
            + u32_bytes(self.s_orphan_file_inum)
            + words_bytes(self.s_reserved@)
    }

    /// The bytes that store the fields of bytes 1020 to 1024 of the record.
    #[verifier::opaque]
    pub open spec fn encoding_part_11(self) -> Seq<u8> {
        u32_bytes(self.s_checksum)
    }

    /// The 1024 bytes that store the superblock.
    pub open spec fn encoding(self) -> Seq<u8> {
        self.encoding_part_0()
            + self.encoding_part_1()
            + self.encoding_part_2()
            + self.encoding_part_3()
            + self.encoding_part_4()
            + self.encoding_part_5()
            + self.encoding_part_6()
            + self.encoding_part_7()
            + self.encoding_part_8()
            + self.encoding_part_9()
            + self.encoding_part_10()
            + self.encoding_part_11()
    }

    /// Whether the superblock can be stored: its three sizes are 1024
    /// shifted left by at most 53.
    pub open spec fn encodable(self) -> bool {
        is_size_of_log(self.s_log_block_size) && is_size_of_log(self.s_log_cluster_size)
            && is_size_of_log(self.s_log_groups_per_flex)
    }

    /// Whether the three feature words stored at `off` hold named bits only,
    /// so that decoding loses none.
    pub open spec fn features_are_named(s: Seq<u8>, off: int) -> bool {
        let compat = le32(s, off + 92) as u32;
        let incompat = le32(s, off + 96) as u32;
        let ro_compat = le32(s, off + 100) as u32;
        &&& compat & CompatFeatures::ALL == compat
        &&& incompat & IncompatFeatures::ALL == incompat
        &&& ro_compat & RoCompatFeatures::ALL == ro_compat
    }

    fn encode_part_0(&self, out: &mut Vec<u8>)
        requires
            self.encodable(),
        ensures
            final(out)@ == old(out)@ + self.encoding_part_0(),
    {
        put_u32(out, self.s_inodes_count);
        put_u32(out, self.s_blocks_count_lo);
        put_u32(out, self.s_r_blocks_count_lo);
        put_u32(out, self.s_free_blocks_count_lo);
        put_u32(out, self.s_free_inodes_count);
        put_u32(out, self.s_first_data_block);
        let k_s_log_block_size: u8 = match log_from_size(self.s_log_block_size) {
            Some(k) => k,
            None => 0,
        };
        put_u32(out, k_s_log_block_size as u32);
        let k_s_log_cluster_size: u8 = match log_from_size(self.s_log_cluster_size) {
            Some(k) => k,
            None => 0,
        };
        put_u32(out, k_s_log_cluster_size as u32);
        put_u32(out, self.s_blocks_per_group);
        put_u32(out, self.s_clusters_per_group);
        put_u32(out, self.s_inodes_per_group);
        put_u32(out, self.s_mtime);
        assert(out@ =~= old(out)@ + self.encoding_part_0()) by {
            reveal(Ext4SuperBlock::encoding_part_0);
        }
    }

    fn encode_part_1(&self, out: &mut Vec<u8>)
        requires
            self.encodable(),
        ensures
            final(out)@ == old(out)@ + self.encoding_part_1(),
    {
        put_u32(out, self.s_wtime);
        put_u16(out, self.s_mnt_count);
        put_u16(out, self.s_max_mnt_count);
        put_u16(out, self.s_magic);
        put_u16(out, self.s_state);
        put_u16(out, self.s_errors);
        put_u16(out, self.s_minor_rev_level);
        put_u32(out, self.s_lastcheck);
        put_u32(out, self.s_checkinterval);
        put_u32(out, self.s_creator_os);
        put_u32(out, self.s_rev_level);
        put_u16(out, self.s_def_resuid);
        put_u16(out, self.s_def_resgid);
        put_u32(out, self.s_first_ino);
        put_u16(out, self.s_inode_size);
        put_u16(out, self.s_block_group_nr);
        put_u32(out, self.s_feature_compat.bits());
        assert(out@ =~= old(out)@ + self.encoding_part_1()) by {
            reveal(Ext4SuperBlock::encoding_part_1);
        }
    }

    fn encode_part_2(&self, out: &mut Vec<u8>)
        requires
            self.encodable(),
        ensures
            final(out)@ == old(out)@ + self.encoding_part_2(),
    {
        put_u32(out, self.s_feature_incompat.bits());
        put_u32(out, self.s_feature_ro_compat.bits());
        put_bytes(out, self.s_uuid.as_slice());
        put_bytes(out, self.s_volume_name.as_slice());
        put_bytes(out, self.s_last_mounted.as_slice());
        assert(out@ =~= old(out)@ + self.encoding_part_2()) by {
            reveal(Ext4SuperBlock::encoding_part_2);
        }
    }

    fn encode_part_3(&self, out: &mut Vec<u8>)
        requires
            self.encodable(),
        ensures
            final(out)@ == old(out)@ + self.encoding_part_3(),
    {
        put_u32(out, self.s_algorithm_usage_bitmap);
        out.push(self.s_prealloc_blocks);
        out.push(self.s_prealloc_dir_blocks);
        put_u16(out, self.s_reserved_gdt_blocks);
        put_bytes(out, self.s_journal_uuid.as_slice());
        put_u32(out, self.s_journal_inum);
        put_u32(out, self.s_journal_dev);
        put_u32(out, self.s_last_orphan);
        put_words(out, self.s_hash_seed.as_slice());
        assert(out@ =~= old(out)@ + self.encoding_part_3()) by {
            reveal(Ext4SuperBlock::encoding_part_3);
        }
    }

    fn encode_part_4(&self, out: &mut Vec<u8>)
        requires
            self.encodable(),
        ensures
            final(out)@ == old(out)@ + self.encoding_part_4(),
    {
        out.push(self.s_def_hash_version);
        out.push(self.s_jnl_backup_type);
        put_u16(out, self.s_desc_size);
        put_u32(out, self.s_default_mount_opts);
        put_u32(out, self.s_first_meta_bg);
        put_u32(out, self.s_mkfs_time);
        put_words(out, self.s_jnl_blocks.as_slice());
        assert(out@ =~= old(out)@ + self.encoding_part_4()) by {
            reveal(Ext4SuperBlock::encoding_part_4);
        }
    }

    fn encode_part_5(&self, out: &mut Vec<u8>)
        requires
            self.encodable(),
        ensures
            final(out)@ == old(out)@ + self.encoding_part_5(),
    {
        put_u32(out, self.s_blocks_count_hi);
        put_u32(out, self.s_r_blocks_count_hi);
        put_u32(out, self.s_free_blocks_count_hi);
        put_u16(out, self.s_min_extra_isize);
        put_u16(out, self.s_want_extra_isize);
        put_u32(out, self.s_flags);
        put_u16(out, self.s_raid_stride);
        put_u16(out, self.s_mmp_update_interval);
        put_u64(out, self.s_mmp_block);
        put_u32(out, self.s_raid_stripe_width);
        let k_s_log_groups_per_flex: u8 = match log_from_size(self.s_log_groups_per_flex) {
            Some(k) => k,
            None => 0,
        };
        out.push(k_s_log_groups_per_flex);
        out.push(self.s_checksum_type);
        out.push(self.s_encryption_level);
        out.push(self.s_reserved_pad);
        put_u64(out, self.s_kbytes_written);
        assert(out@ =~= old(out)@ + self.encoding_part_5()) by {
            reveal(Ext4SuperBlock::encoding_part_5);
        }
    }

    fn encode_part_6(&self, out: &mut Vec<u8>)
        requires
            self.encodable(),
        ensures
            final(out)@ == old(out)@ + self.encoding_part_6(),
    {
        put_u32(out, self.s_snapshot_inum);
        put_u32(out, self.s_snapshot_id);
        put_u64(out, self.s_snapshot_r_blocks_count);
        put_u32(out, self.s_snapshot_list);
        put_u32(out, self.s_error_count);
        put_u32(out, self.s_first_error_time);
        put_u32(out, self.s_first_error_ino);
        put_u64(out, self.s_first_error_block);
        put_bytes(out, self.s_first_error_func.as_slice());
        assert(out@ =~= old(out)@ + self.encoding_part_6()) by {
            reveal(Ext4SuperBlock::encoding_part_6);
        }
    }

    fn encode_part_7(&self, out: &mut Vec<u8>)
        requires
            self.encodable(),
        ensures
            final(out)@ == old(out)@ + self.encoding_part_7(),
    {
        put_u32(out, self.s_first_error_line);
        put_u32(out, self.s_last_error_time);
        put_u32(out, self.s_last_error_ino);
        put_u32(out, self.s_last_error_line);
        put_u64(out, self.s_last_error_block);
        put_bytes(out, self.s_last_error_func.as_slice());
        assert(out@ =~= old(out)@ + self.encoding_part_7()) by {
            reveal(Ext4SuperBlock::encoding_part_7);
        }
    }

    fn encode_part_8(&self, out: &mut Vec<u8>)
        requires
            self.encodable(),
        ensures
            final(out)@ == old(out)@ + self.encoding_part_8(),
    {
        put_bytes(out, self.s_mount_opts.as_slice());
        assert(out@ =~= old(out)@ + self.encoding_part_8()) by {
            reveal(Ext4SuperBlock::encoding_part_8);
        }
    }

    fn encode_part_9(&self, out: &mut Vec<u8>)
        requires
            self.encodable(),
        ensures
            final(out)@ == old(out)@ + self.encoding_part_9(),
    {
        put_u32(out, self.s_usr_quota_inum);
        put_u32(out, self.s_grp_quota_inum);
        put_u32(out, self.s_overhead_clusters);
        put_words(out, self.s_backup_bgs.as_slice());
        put_bytes(out, self.s_encrypt_algos.as_slice());
        put_bytes(out, self.s_encrypt_pw_salt.as_slice());
        put_u32(out, self.s_lpf_ino);
        put_u32(out, self.s_prj_quota_inum);
        assert(out@ =~= old(out)@ + self.encoding_part_9()) by {
            reveal(Ext4SuperBlock::encoding_part_9);
        }
    }

    fn encode_part_10(&self, out: &mut Vec<u8>)
        requires
            self.encodable(),
        ensures
            final(out)@ == old(out)@ + self.encoding_part_10(),
    {
        put_u32(out, self.s_checksum_seed);
        out.push(self.s_wtime_hi);
        out.push(self.s_mtime_hi);
        out.push(self.s_mkfs_time_hi);
        out.push(self.s_lastcheck_hi);
        out.push(self.s_first_error_time_hi);
        out.push(self.s_last_error_time_hi);
        out.push(self.s_first_error_errcode);
        out.push(self.s_last_error_errcode);
        put_u16(out, self.s_encoding);
        put_u16(out, self.s_encoding_flags);
        put_u32(out, self.s_orphan_file_inum);
        put_words(out, self.s_reserved.as_slice());
        assert(out@ =~= old(out)@ + self.encoding_part_10()) by {
            reveal(Ext4SuperBlock::encoding_part_10);
        }
    }

    fn encode_part_11(&self, out: &mut Vec<u8>)
        requires
            self.encodable(),
        ensures
            final(out)@ == old(out)@ + self.encoding_part_11(),
    {
        put_u32(out, self.s_checksum);
        assert(out@ =~= old(out)@ + self.encoding_part_11()) by {
            reveal(Ext4SuperBlock::encoding_part_11);
        }
    }

    /// The 1024 bytes that store the superblock, or `None` where one of its
    /// three sizes is not 1024 shifted left by at most 53.
    pub fn encode(&self) -> (r: Option<Vec<u8>>)
        ensures
            r is Some <==> self.encodable(),
            r matches Some(bytes) ==> bytes@ == self.encoding(),
    {
        if log_from_size(self.s_log_block_size).is_none() || log_from_size(
            self.s_log_cluster_size,
        ).is_none() || log_from_size(self.s_log_groups_per_flex).is_none() {
            return None;
        }
        let mut out: Vec<u8> = Vec::new();
        self.encode_part_0(&mut out);
        self.encode_part_1(&mut out);
        self.encode_part_2(&mut out);
        self.encode_part_3(&mut out);
        self.encode_part_4(&mut out);
        self.encode_part_5(&mut out);
        self.encode_part_6(&mut out);
        self.encode_part_7(&mut out);
        self.encode_part_8(&mut out);
        self.encode_part_9(&mut out);
        self.encode_part_10(&mut out);
        self.encode_part_11(&mut out);
        assert(out@ =~= self.encoding());
        Some(out)
    }

    proof fn lemma_part_0(self, s: Seq<u8>, off: int)
        requires
            0 <= off,
            off + 1024 <= s.len(),
            self.decoded_part_0(s, off),
            Self::sizes_fit(s, off),
            Self::features_are_named(s, off),
        ensures
            self.encoding_part_0() == s.subrange(off, off + 48),
    {
        reveal(Ext4SuperBlock::decoded_part_0);
        reveal(Ext4SuperBlock::encoding_part_0);
        assert(u32_bytes(self.s_inodes_count) == s.subrange(off, off + 4)) by {
            lemma_bytes_of_le32(s, off);
        }
        let acc = u32_bytes(self.s_inodes_count);
        assert(u32_bytes(self.s_blocks_count_lo) == s.subrange(off + 4, off + 8)) by {
            lemma_bytes_of_le32(s, off + 4);
        }
        lemma_subrange_join(s, off, off + 4, off + 8);
        let acc = acc + u32_bytes(self.s_blocks_count_lo);
        assert(acc == s.subrange(off, off + 8));
        assert(u32_bytes(self.s_r_blocks_count_lo) == s.subrange(off + 8, off + 12)) by {
            lemma_bytes_of_le32(s, off + 8);
        }
        lemma_subrange_join(s, off, off + 8, off + 12);
        let acc = acc + u32_bytes(self.s_r_blocks_count_lo);
        assert(acc == s.subrange(off, off + 12));
        assert(u32_bytes(self.s_free_blocks_count_lo) == s.subrange(off + 12, off + 16)) by {
            lemma_bytes_of_le32(s, off + 12);
        }
        lemma_subrange_join(s, off, off + 12, off + 16);
        let acc = acc + u32_bytes(self.s_free_blocks_count_lo);
        assert(acc == s.subrange(off, off + 16));
        assert(u32_bytes(self.s_free_inodes_count) == s.subrange(off + 16, off + 20)) by {
            lemma_bytes_of_le32(s, off + 16);
        }
        lemma_subrange_join(s, off, off + 16, off + 20);
        let acc = acc + u32_bytes(self.s_free_inodes_count);
        assert(acc == s.subrange(off, off + 20));
        assert(u32_bytes(self.s_first_data_block) == s.subrange(off + 20, off + 24)) by {
            lemma_bytes_of_le32(s, off + 20);
        }
        lemma_subrange_join(s, off, off + 20, off + 24);
        let acc = acc + u32_bytes(self.s_first_data_block);
        assert(acc == s.subrange(off, off + 24));
        assert(u32_bytes(log_of_size(self.s_log_block_size) as u32) == s.subrange(off + 24, off + 28)) by {
            lemma_bytes_of_le32(s, off + 24);
            lemma_log_of_size(le32(s, off + 24) as nat);
        }
        lemma_subrange_join(s, off, off + 24, off + 28);
        let acc = acc + u32_bytes(log_of_size(self.s_log_block_size) as u32);
        assert(acc == s.subrange(off, off + 28));
        assert(u32_bytes(log_of_size(self.s_log_cluster_size) as u32) == s.subrange(off + 28, off + 32)) by {
            lemma_bytes_of_le32(s, off + 28);
            lemma_log_of_size(le32(s, off + 28) as nat);
        }
        lemma_subrange_join(s, off, off + 28, off + 32);
        let acc = acc + u32_bytes(log_of_size(self.s_log_cluster_size) as u32);
        assert(acc == s.subrange(off, off + 32));
        assert(u32_bytes(self.s_blocks_per_group) == s.subrange(off + 32, off + 36)) by {
            lemma_bytes_of_le32(s, off + 32);
        }
        lemma_subrange_join(s, off, off + 32, off + 36);
        let acc = acc + u32_bytes(self.s_blocks_per_group);
        assert(acc == s.subrange(off, off + 36));
        assert(u32_bytes(self.s_clusters_per_group) == s.subrange(off + 36, off + 40)) by {
            lemma_bytes_of_le32(s, off + 36);
        }
        lemma_subrange_join(s, off, off + 36, off + 40);
        let acc = acc + u32_bytes(self.s_clusters_per_group);
        assert(acc == s.subrange(off, off + 40));
        assert(u32_bytes(self.s_inodes_per_group) == s.subrange(off + 40, off + 44)) by {
            lemma_bytes_of_le32(s, off + 40);
        }
        lemma_subrange_join(s, off, off + 40, off + 44);
        let acc = acc + u32_bytes(self.s_inodes_per_group);
        assert(acc == s.subrange(off, off + 44));
        assert(u32_bytes(self.s_mtime) == s.subrange(off + 44, off + 48)) by {
            lemma_bytes_of_le32(s, off + 44);
        }
        lemma_subrange_join(s, off, off + 44, off + 48);
        let acc = acc + u32_bytes(self.s_mtime);
        assert(acc == s.subrange(off, off + 48));
        assert(acc == self.encoding_part_0());
    }

    proof fn lemma_part_1(self, s: Seq<u8>, off: int)
        requires
            0 <= off,
            off + 1024 <= s.len(),
            self.decoded_part_1(s, off),
            Self::sizes_fit(s, off),
            Self::features_are_named(s, off),
        ensures
            self.encoding_part_1() == s.subrange(off + 48, off + 96),
    {
        reveal(Ext4SuperBlock::decoded_part_1);
        reveal(Ext4SuperBlock::encoding_part_1);
        assert(u32_bytes(self.s_wtime) == s.subrange(off + 48, off + 52)) by {
            lemma_bytes_of_le32(s, off + 48);
        }
        let acc = u32_bytes(self.s_wtime);
        assert(u16_bytes(self.s_mnt_count) == s.subrange(off + 52, off + 54)) by {
            lemma_bytes_of_le16(s, off + 52);
        }
        lemma_subrange_join(s, off + 48, off + 52, off + 54);
        let acc = acc + u16_bytes(self.s_mnt_count);
        assert(acc == s.subrange(off + 48, off + 54));
        assert(u16_bytes(self.s_max_mnt_count) == s.subrange(off + 54, off + 56)) by {
            lemma_bytes_of_le16(s, off + 54);
        }
        lemma_subrange_join(s, off + 48, off + 54, off + 56);
        let acc = acc + u16_bytes(self.s_max_mnt_count);
        assert(acc == s.subrange(off + 48, off + 56));
        assert(u16_bytes(self.s_magic) == s.subrange(off + 56, off + 58)) by {
            lemma_bytes_of_le16(s, off + 56);
        }
        lemma_subrange_join(s, off + 48, off + 56, off + 58);
        let acc = acc + u16_bytes(self.s_magic);
        assert(acc == s.subrange(off + 48, off + 58));
        assert(u16_bytes(self.s_state) == s.subrange(off + 58, off + 60)) by {
            lemma_bytes_of_le16(s, off + 58);
        }
        lemma_subrange_join(s, off + 48, off + 58, off + 60);
        let acc = acc + u16_bytes(self.s_state);
        assert(acc == s.subrange(off + 48, off + 60));
        assert(u16_bytes(self.s_errors) == s.subrange(off + 60, off + 62)) by {
            lemma_bytes_of_le16(s, off + 60);
        }
        lemma_subrange_join(s, off + 48, off + 60, off + 62);
        let acc = acc + u16_bytes(self.s_errors);
        assert(acc == s.subrange(off + 48, off + 62));
        assert(u16_bytes(self.s_minor_rev_level) == s.subrange(off + 62, off + 64)) by {
            lemma_bytes_of_le16(s, off + 62);
        }
        lemma_subrange_join(s, off + 48, off + 62, off + 64);
        let acc = acc + u16_bytes(self.s_minor_rev_level);
        assert(acc == s.subrange(off + 48, off + 64));
        assert(u32_bytes(self.s_lastcheck) == s.subrange(off + 64, off + 68)) by {
            lemma_bytes_of_le32(s, off + 64);
        }
        lemma_subrange_join(s, off + 48, off + 64, off + 68);
        let acc = acc + u32_bytes(self.s_lastcheck);
        assert(acc == s.subrange(off + 48, off + 68));
        assert(u32_bytes(self.s_checkinterval) == s.subrange(off + 68, off + 72)) by {
            lemma_bytes_of_le32(s, off + 68);
        }
        lemma_subrange_join(s, off + 48, off + 68, off + 72);
        let acc = acc + u32_bytes(self.s_checkinterval);
        assert(acc == s.subrange(off + 48, off + 72));
        assert(u32_bytes(self.s_creator_os) == s.subrange(off + 72, off + 76)) by {
            lemma_bytes_of_le32(s, off + 72);
        }
        lemma_subrange_join(s, off + 48, off + 72, off + 76);
        let acc = acc + u32_bytes(self.s_creator_os);
        assert(acc == s.subrange(off + 48, off + 76));
        assert(u32_bytes(self.s_rev_level) == s.subrange(off + 76, off + 80)) by {
            lemma_bytes_of_le32(s, off + 76);
        }
        lemma_subrange_join(s, off + 48, off + 76, off + 80);
        let acc = acc + u32_bytes(self.s_rev_level);
        assert(acc == s.subrange(off + 48, off + 80));
        assert(u16_bytes(self.s_def_resuid) == s.subrange(off + 80, off + 82)) by {
            lemma_bytes_of_le16(s, off + 80);
        }
        lemma_subrange_join(s, off + 48, off + 80, off + 82);
        let acc = acc + u16_bytes(self.s_def_resuid);
        assert(acc == s.subrange(off + 48, off + 82));
        assert(u16_bytes(self.s_def_resgid) == s.subrange(off + 82, off + 84)) by {
            lemma_bytes_of_le16(s, off + 82);
        }
        lemma_subrange_join(s, off + 48, off + 82, off + 84);
        let acc = acc + u16_bytes(self.s_def_resgid);
        assert(acc == s.subrange(off + 48, off + 84));
        assert(u32_bytes(self.s_first_ino) == s.subrange(off + 84, off + 88)) by {
            lemma_bytes_of_le32(s, off + 84);
        }
        lemma_subrange_join(s, off + 48, off + 84, off + 88);
        let acc = acc + u32_bytes(self.s_first_ino);
        assert(acc == s.subrange(off + 48, off + 88));
        assert(u16_bytes(self.s_inode_size) == s.subrange(off + 88, off + 90)) by {
            lemma_bytes_of_le16(s, off + 88);
        }
        lemma_subrange_join(s, off + 48, off + 88, off + 90);
        let acc = acc + u16_bytes(self.s_inode_size);
        assert(acc == s.subrange(off + 48, off + 90));
        assert(u16_bytes(self.s_block_group_nr) == s.subrange(off + 90, off + 92)) by {
            lemma_bytes_of_le16(s, off + 90);
        }
        lemma_subrange_join(s, off + 48, off + 90, off + 92);
        let acc = acc + u16_bytes(self.s_block_group_nr);
        assert(acc == s.subrange(off + 48, off + 92));
        assert(u32_bytes(self.s_feature_compat.spec_bits()) == s.subrange(off + 92, off + 96)) by {
            lemma_bytes_of_le32(s, off + 92);
            CompatFeatures::lemma_from_bits_truncate(le32(s, off + 92) as u32);
        }
        lemma_subrange_join(s, off + 48, off + 92, off + 96);
        let acc = acc + u32_bytes(self.s_feature_compat.spec_bits());
        assert(acc == s.subrange(off + 48, off + 96));
        assert(acc == self.encoding_part_1());
    }

    proof fn lemma_part_2(self, s: Seq<u8>, off: int)
        requires
            0 <= off,
            off + 1024 <= s.len(),
            self.decoded_part_2(s, off),
            Self::sizes_fit(s, off),
            Self::features_are_named(s, off),
        ensures
            self.encoding_part_2() == s.subrange(off + 96, off + 200),
    {
        reveal(Ext4SuperBlock::decoded_part_2);
        reveal(Ext4SuperBlock::encoding_part_2);
        assert(u32_bytes(self.s_feature_incompat.spec_bits()) == s.subrange(off + 96, off + 100)) by {
            lemma_bytes_of_le32(s, off + 96);
            IncompatFeatures::lemma_from_bits_truncate(le32(s, off + 96) as u32);
        }
        let acc = u32_bytes(self.s_feature_incompat.spec_bits());
        assert(u32_bytes(self.s_feature_ro_compat.spec_bits()) == s.subrange(off + 100, off + 104)) by {
            lemma_bytes_of_le32(s, off + 100);
            RoCompatFeatures::lemma_from_bits_truncate(le32(s, off + 100) as u32);
        }
        lemma_subrange_join(s, off + 96, off + 100, off + 104);
        let acc = acc + u32_bytes(self.s_feature_ro_compat.spec_bits());
        assert(acc == s.subrange(off + 96, off + 104));
        assert(self.s_uuid@ == s.subrange(off + 104, off + 120));
        lemma_subrange_join(s, off + 96, off + 104, off + 120);
        let acc = acc + self.s_uuid@;
        assert(acc == s.subrange(off + 96, off + 120));
        assert(self.s_volume_name@ == s.subrange(off + 120, off + 136));
        lemma_subrange_join(s, off + 96, off + 120, off + 136);
        let acc = acc + self.s_volume_name@;
        assert(acc == s.subrange(off + 96, off + 136));
        assert(self.s_last_mounted@ == s.subrange(off + 136, off + 200));
        lemma_subrange_join(s, off + 96, off + 136, off + 200);
        let acc = acc + self.s_last_mounted@;
        assert(acc == s.subrange(off + 96, off + 200));
        assert(acc == self.encoding_part_2());
    }

    proof fn lemma_part_3(self, s: Seq<u8>, off: int)
        requires
            0 <= off,
            off + 1024 <= s.len(),
            self.decoded_part_3(s, off),
            Self::sizes_fit(s, off),
            Self::features_are_named(s, off),
        ensures
            self.encoding_part_3() == s.subrange(off + 200, off + 252),
    {
        reveal(Ext4SuperBlock::decoded_part_3);
        reveal(Ext4SuperBlock::encoding_part_3);
        assert(u32_bytes(self.s_algorithm_usage_bitmap) == s.subrange(off + 200, off + 204)) by {
            lemma_bytes_of_le32(s, off + 200);
        }
        let acc = u32_bytes(self.s_algorithm_usage_bitmap);
        assert(seq![self.s_prealloc_blocks] =~= s.subrange(off + 204, off + 205));
        lemma_subrange_join(s, off + 200, off + 204, off + 205);
        let acc = acc + seq![self.s_prealloc_blocks];
        assert(acc == s.subrange(off + 200, off + 205));
        assert(seq![self.s_prealloc_dir_blocks] =~= s.subrange(off + 205, off + 206));
        lemma_subrange_join(s, off + 200, off + 205, off + 206);
        let acc = acc + seq![self.s_prealloc_dir_blocks];
        assert(acc == s.subrange(off + 200, off + 206));
        assert(u16_bytes(self.s_reserved_gdt_blocks) == s.subrange(off + 206, off + 208)) by {
            lemma_bytes_of_le16(s, off + 206);
        }
        lemma_subrange_join(s, off + 200, off + 206, off + 208);
        let acc = acc + u16_bytes(self.s_reserved_gdt_blocks);
        assert(acc == s.subrange(off + 200, off + 208));
        assert(self.s_journal_uuid@ == s.subrange(off + 208, off + 224));
        lemma_subrange_join(s, off + 200, off + 208, off + 224);
        let acc = acc + self.s_journal_uuid@;
        assert(acc == s.subrange(off + 200, off + 224));
        assert(u32_bytes(self.s_journal_inum) == s.subrange(off + 224, off + 228)) by {
            lemma_bytes_of_le32(s, off + 224);
        }
        lemma_subrange_join(s, off + 200, off + 224, off + 228);
        let acc = acc + u32_bytes(self.s_journal_inum);
        assert(acc == s.subrange(off + 200, off + 228));
        assert(u32_bytes(self.s_journal_dev) == s.subrange(off + 228, off + 232)) by {
            lemma_bytes_of_le32(s, off + 228);
        }
        lemma_subrange_join(s, off + 200, off + 228, off + 232);
        let acc = acc + u32_bytes(self.s_journal_dev);
        assert(acc == s.subrange(off + 200, off + 232));
        assert(u32_bytes(self.s_last_orphan) == s.subrange(off + 232, off + 236)) by {
            lemma_bytes_of_le32(s, off + 232);
        }
        lemma_subrange_join(s, off + 200, off + 232, off + 236);
        let acc = acc + u32_bytes(self.s_last_orphan);
        assert(acc == s.subrange(off + 200, off + 236));
        assert(words_bytes(self.s_hash_seed@) == s.subrange(off + 236, off + 252)) by {
            lemma_words_bytes(self.s_hash_seed@, s, off + 236);
        }
        lemma_subrange_join(s, off + 200, off + 236, off + 252);
        let acc = acc + words_bytes(self.s_hash_seed@);
        assert(acc == s.subrange(off + 200, off + 252));
        assert(acc == self.encoding_part_3());
    }

    proof fn lemma_part_4(self, s: Seq<u8>, off: int)
        requires
            0 <= off,
            off + 1024 <= s.len(),
            self.decoded_part_4(s, off),
            Self::sizes_fit(s, off),
            Self::features_are_named(s, off),
        ensures
            self.encoding_part_4() == s.subrange(off + 252, off + 336),
    {
        reveal(Ext4SuperBlock::decoded_part_4);
        reveal(Ext4SuperBlock::encoding_part_4);
        assert(seq![self.s_def_hash_version] =~= s.subrange(off + 252, off + 253));
        let acc = seq![self.s_def_hash_version];
        assert(seq![self.s_jnl_backup_type] =~= s.subrange(off + 253, off + 254));
        lemma_subrange_join(s, off + 252, off + 253, off + 254);
        let acc = acc + seq![self.s_jnl_backup_type];
        assert(acc == s.subrange(off + 252, off + 254));
        assert(u16_bytes(self.s_desc_size) == s.subrange(off + 254, off + 256)) by {
            lemma_bytes_of_le16(s, off + 254);
        }
        lemma_subrange_join(s, off + 252, off + 254, off + 256);
        let acc = acc + u16_bytes(self.s_desc_size);
        assert(acc == s.subrange(off + 252, off + 256));
        assert(u32_bytes(self.s_default_mount_opts) == s.subrange(off + 256, off + 260)) by {
            lemma_bytes_of_le32(s, off + 256);
        }
        lemma_subrange_join(s, off + 252, off + 256, off + 260);
        let acc = acc + u32_bytes(self.s_default_mount_opts);
        assert(acc == s.subrange(off + 252, off + 260));
        assert(u32_bytes(self.s_first_meta_bg) == s.subrange(off + 260, off + 264)) by {
            lemma_bytes_of_le32(s, off + 260);
        }
        lemma_subrange_join(s, off + 252, off + 260, off + 264);
        let acc = acc + u32_bytes(self.s_first_meta_bg);
        assert(acc == s.subrange(off + 252, off + 264));
        assert(u32_bytes(self.s_mkfs_time) == s.subrange(off + 264, off + 268)) by {
            lemma_bytes_of_le32(s, off + 264);
        }
        lemma_subrange_join(s, off + 252, off + 264, off + 268);
        let acc = acc + u32_bytes(self.s_mkfs_time);
        assert(acc == s.subrange(off + 252, off + 268));
        assert(words_bytes(self.s_jnl_blocks@) == s.subrange(off + 268, off + 336)) by {
            lemma_words_bytes(self.s_jnl_blocks@, s, off + 268);
        }
        lemma_subrange_join(s, off + 252, off + 268, off + 336);
        let acc = acc + words_bytes(self.s_jnl_blocks@);
        assert(acc == s.subrange(off + 252, off + 336));
        assert(acc == self.encoding_part_4());
    }

    proof fn lemma_part_5(self, s: Seq<u8>, off: int)
        requires
            0 <= off,
            off + 1024 <= s.len(),
            self.decoded_part_5(s, off),
            Self::sizes_fit(s, off),
            Self::features_are_named(s, off),
        ensures
            self.encoding_part_5() == s.subrange(off + 336, off + 384),
    {
        reveal(Ext4SuperBlock::decoded_part_5);
        reveal(Ext4SuperBlock::encoding_part_5);
        assert(u32_bytes(self.s_blocks_count_hi) == s.subrange(off + 336, off + 340)) by {
            lemma_bytes_of_le32(s, off + 336);
        }
        let acc = u32_bytes(self.s_blocks_count_hi);
        assert(u32_bytes(self.s_r_blocks_count_hi) == s.subrange(off + 340, off + 344)) by {
            lemma_bytes_of_le32(s, off + 340);
        }
        lemma_subrange_join(s, off + 336, off + 340, off + 344);
        let acc = acc + u32_bytes(self.s_r_blocks_count_hi);
        assert(acc == s.subrange(off + 336, off + 344));
        assert(u32_bytes(self.s_free_blocks_count_hi) == s.subrange(off + 344, off + 348)) by {
            lemma_bytes_of_le32(s, off + 344);
        }
        lemma_subrange_join(s, off + 336, off + 344, off + 348);
        let acc = acc + u32_bytes(self.s_free_blocks_count_hi);
        assert(acc == s.subrange(off + 336, off + 348));
        assert(u16_bytes(self.s_min_extra_isize) == s.subrange(off + 348, off + 350)) by {
            lemma_bytes_of_le16(s, off + 348);
        }
        lemma_subrange_join(s, off + 336, off + 348, off + 350);
        let acc = acc + u16_bytes(self.s_min_extra_isize);
        assert(acc == s.subrange(off + 336, off + 350));
        assert(u16_bytes(self.s_want_extra_isize) == s.subrange(off + 350, off + 352)) by {
            lemma_bytes_of_le16(s, off + 350);
        }
        lemma_subrange_join(s, off + 336, off + 350, off + 352);
        let acc = acc + u16_bytes(self.s_want_extra_isize);
        assert(acc == s.subrange(off + 336, off + 352));
        assert(u32_bytes(self.s_flags) == s.subrange(off + 352, off + 356)) by {
            lemma_bytes_of_le32(s, off + 352);
        }
        lemma_subrange_join(s, off + 336, off + 352, off + 356);
        let acc = acc + u32_bytes(self.s_flags);
        assert(acc == s.subrange(off + 336, off + 356));
        assert(u16_bytes(self.s_raid_stride) == s.subrange(off + 356, off + 358)) by {
            lemma_bytes_of_le16(s, off + 356);
        }
        lemma_subrange_join(s, off + 336, off + 356, off + 358);
        let acc = acc + u16_bytes(self.s_raid_stride);
        assert(acc == s.subrange(off + 336, off + 358));
        assert(u16_bytes(self.s_mmp_update_interval) == s.subrange(off + 358, off + 360)) by {
            lemma_bytes_of_le16(s, off + 358);
        }
        lemma_subrange_join(s, off + 336, off + 358, off + 360);
        let acc = acc + u16_bytes(self.s_mmp_update_interval);
        assert(acc == s.subrange(off + 336, off + 360));
        assert(u64_bytes(self.s_mmp_block) == s.subrange(off + 360, off + 368)) by {
            lemma_bytes_of_le64(s, off + 360);
        }
        lemma_subrange_join(s, off + 336, off + 360, off + 368);
        let acc = acc + u64_bytes(self.s_mmp_block);
        assert(acc == s.subrange(off + 336, off + 368));
        assert(u32_bytes(self.s_raid_stripe_width) == s.subrange(off + 368, off + 372)) by {
            lemma_bytes_of_le32(s, off + 368);
        }
        lemma_subrange_join(s, off + 336, off + 368, off + 372);
        let acc = acc + u32_bytes(self.s_raid_stripe_width);
        assert(acc == s.subrange(off + 336, off + 372));
        assert(seq![log_of_size(self.s_log_groups_per_flex) as u8] =~= s.subrange(off + 372, off + 373)) by {
            lemma_log_of_size(s[off + 372] as nat);
        }
        lemma_subrange_join(s, off + 336, off + 372, off + 373);
        let acc = acc + seq![log_of_size(self.s_log_groups_per_flex) as u8];
        assert(acc == s.subrange(off + 336, off + 373));
        assert(seq![self.s_checksum_type] =~= s.subrange(off + 373, off + 374));
        lemma_subrange_join(s, off + 336, off + 373, off + 374);
        let acc = acc + seq![self.s_checksum_type];
        assert(acc == s.subrange(off + 336, off + 374));
        assert(seq![self.s_encryption_level] =~= s.subrange(off + 374, off + 375));
        lemma_subrange_join(s, off + 336, off + 374, off + 375);
        let acc = acc + seq![self.s_encryption_level];
        assert(acc == s.subrange(off + 336, off + 375));
        assert(seq![self.s_reserved_pad] =~= s.subrange(off + 375, off + 376));
        lemma_subrange_join(s, off + 336, off + 375, off + 376);
        let acc = acc + seq![self.s_reserved_pad];
        assert(acc == s.subrange(off + 336, off + 376));
        assert(u64_bytes(self.s_kbytes_written) == s.subrange(off + 376, off + 384)) by {
            lemma_bytes_of_le64(s, off + 376);
        }
        lemma_subrange_join(s, off + 336, off + 376, off + 384);
        let acc = acc + u64_bytes(self.s_kbytes_written);
        assert(acc == s.subrange(off + 336, off + 384));
        assert(acc == self.encoding_part_5());
    }

    proof fn lemma_part_6(self, s: Seq<u8>, off: int)
        requires
            0 <= off,
            off + 1024 <= s.len(),
            self.decoded_part_6(s, off),
            Self::sizes_fit(s, off),
            Self::features_are_named(s, off),
        ensures
            self.encoding_part_6() == s.subrange(off + 384, off + 456),
    {
        reveal(Ext4SuperBlock::decoded_part_6);
        reveal(Ext4SuperBlock::encoding_part_6);
        assert(u32_bytes(self.s_snapshot_inum) == s.subrange(off + 384, off + 388)) by {
            lemma_bytes_of_le32(s, off + 384);
        }
        let acc = u32_bytes(self.s_snapshot_inum);
        assert(u32_bytes(self.s_snapshot_id) == s.subrange(off + 388, off + 392)) by {
            lemma_bytes_of_le32(s, off + 388);
        }
        lemma_subrange_join(s, off + 384, off + 388, off + 392);
        let acc = acc + u32_bytes(self.s_snapshot_id);
        assert(acc == s.subrange(off + 384, off + 392));
        assert(u64_bytes(self.s_snapshot_r_blocks_count) == s.subrange(off + 392, off + 400)) by {
            lemma_bytes_of_le64(s, off + 392);
        }
        lemma_subrange_join(s, off + 384, off + 392, off + 400);
        let acc = acc + u64_bytes(self.s_snapshot_r_blocks_count);
        assert(acc == s.subrange(off + 384, off + 400));
        assert(u32_bytes(self.s_snapshot_list) == s.subrange(off + 400, off + 404)) by {
            lemma_bytes_of_le32(s, off + 400);
        }
        lemma_subrange_join(s, off + 384, off + 400, off + 404);
        let acc = acc + u32_bytes(self.s_snapshot_list);
        assert(acc == s.subrange(off + 384, off + 404));
        assert(u32_bytes(self.s_error_count) == s.subrange(off + 404, off + 408)) by {
            lemma_bytes_of_le32(s, off + 404);
        }
        lemma_subrange_join(s, off + 384, off + 404, off + 408);
        let acc = acc + u32_bytes(self.s_error_count);
        assert(acc == s.subrange(off + 384, off + 408));
        assert(u32_bytes(self.s_first_error_time) == s.subrange(off + 408, off + 412)) by {
            lemma_bytes_of_le32(s, off + 408);
        }
        lemma_subrange_join(s, off + 384, off + 408, off + 412);
        let acc = acc + u32_bytes(self.s_first_error_time);
        assert(acc == s.subrange(off + 384, off + 412));
        assert(u32_bytes(self.s_first_error_ino) == s.subrange(off + 412, off + 416)) by {
            lemma_bytes_of_le32(s, off + 412);
        }
        lemma_subrange_join(s, off + 384, off + 412, off + 416);
        let acc = acc + u32_bytes(self.s_first_error_ino);
        assert(acc == s.subrange(off + 384, off + 416));
        assert(u64_bytes(self.s_first_error_block) == s.subrange(off + 416, off + 424)) by {
            lemma_bytes_of_le64(s, off + 416);
        }
        lemma_subrange_join(s, off + 384, off + 416, off + 424);
        let acc = acc + u64_bytes(self.s_first_error_block);
        assert(acc == s.subrange(off + 384, off + 424));
        assert(self.s_first_error_func@ == s.subrange(off + 424, off + 456));
        lemma_subrange_join(s, off + 384, off + 424, off + 456);
        let acc = acc + self.s_first_error_func@;
        assert(acc == s.subrange(off + 384, off + 456));
        assert(acc == self.encoding_part_6());
    }

    proof fn lemma_part_7(self, s: Seq<u8>, off: int)
        requires
            0 <= off,
            off + 1024 <= s.len(),
            self.decoded_part_7(s, off),
            Self::sizes_fit(s, off),
            Self::features_are_named(s, off),
        ensures
            self.encoding_part_7() == s.subrange(off + 456, off + 512),
    {
        reveal(Ext4SuperBlock::decoded_part_7);
        reveal(Ext4SuperBlock::encoding_part_7);
        assert(u32_bytes(self.s_first_error_line) == s.subrange(off + 456, off + 460)) by {
            lemma_bytes_of_le32(s, off + 456);
        }
        let acc = u32_bytes(self.s_first_error_line);
        assert(u32_bytes(self.s_last_error_time) == s.subrange(off + 460, off + 464)) by {
            lemma_bytes_of_le32(s, off + 460);
        }
        lemma_subrange_join(s, off + 456, off + 460, off + 464);
        let acc = acc + u32_bytes(self.s_last_error_time);
        assert(acc == s.subrange(off + 456, off + 464));
        assert(u32_bytes(self.s_last_error_ino) == s.subrange(off + 464, off + 468)) by {
            lemma_bytes_of_le32(s, off + 464);
        }
        lemma_subrange_join(s, off + 456, off + 464, off + 468);
        let acc = acc + u32_bytes(self.s_last_error_ino);
        assert(acc == s.subrange(off + 456, off + 468));
        assert(u32_bytes(self.s_last_error_line) == s.subrange(off + 468, off + 472)) by {
            lemma_bytes_of_le32(s, off + 468);
        }
        lemma_subrange_join(s, off + 456, off + 468, off + 472);
        let acc = acc + u32_bytes(self.s_last_error_line);
        assert(acc == s.subrange(off + 456, off + 472));
        assert(u64_bytes(self.s_last_error_block) == s.subrange(off + 472, off + 480)) by {
            lemma_bytes_of_le64(s, off + 472);
        }
        lemma_subrange_join(s, off + 456, off + 472, off + 480);
        let acc = acc + u64_bytes(self.s_last_error_block);
        assert(acc == s.subrange(off + 456, off + 480));
        assert(self.s_last_error_func@ == s.subrange(off + 480, off + 512));
        lemma_subrange_join(s, off + 456, off + 480, off + 512);
        let acc = acc + self.s_last_error_func@;
        assert(acc == s.subrange(off + 456, off + 512));
        assert(acc == self.encoding_part_7());
    }

    proof fn lemma_part_8(self, s: Seq<u8>, off: int)
        requires
            0 <= off,
            off + 1024 <= s.len(),
            self.decoded_part_8(s, off),
            Self::sizes_fit(s, off),
            Self::features_are_named(s, off),
        ensures
            self.encoding_part_8() == s.subrange(off + 512, off + 576),
    {
        reveal(Ext4SuperBlock::decoded_part_8);
        reveal(Ext4SuperBlock::encoding_part_8);
        assert(self.s_mount_opts@ == s.subrange(off + 512, off + 576));
        let acc = self.s_mount_opts@;
        assert(acc == self.encoding_part_8());
    }

    proof fn lemma_part_9(self, s: Seq<u8>, off: int)
        requires
            0 <= off,
            off + 1024 <= s.len(),
            self.decoded_part_9(s, off),
            Self::sizes_fit(s, off),
            Self::features_are_named(s, off),
        ensures
            self.encoding_part_9() == s.subrange(off + 576, off + 624),
    {
        reveal(Ext4SuperBlock::decoded_part_9);
        reveal(Ext4SuperBlock::encoding_part_9);
        assert(u32_bytes(self.s_usr_quota_inum) == s.subrange(off + 576, off + 580)) by {
            lemma_bytes_of_le32(s, off + 576);
        }
        let acc = u32_bytes(self.s_usr_quota_inum);
        assert(u32_bytes(self.s_grp_quota_inum) == s.subrange(off + 580, off + 584)) by {
            lemma_bytes_of_le32(s, off + 580);
        }
        lemma_subrange_join(s, off + 576, off + 580, off + 584);
        let acc = acc + u32_bytes(self.s_grp_quota_inum);
        assert(acc == s.subrange(off + 576, off + 584));
        assert(u32_bytes(self.s_overhead_clusters) == s.subrange(off + 584, off + 588)) by {
            lemma_bytes_of_le32(s, off + 584);
        }
        lemma_subrange_join(s, off + 576, off + 584, off + 588);
        let acc = acc + u32_bytes(self.s_overhead_clusters);
        assert(acc == s.subrange(off + 576, off + 588));
        assert(words_bytes(self.s_backup_bgs@) == s.subrange(off + 588, off + 596)) by {
            lemma_words_bytes(self.s_backup_bgs@, s, off + 588);
        }
        lemma_subrange_join(s, off + 576, off + 588, off + 596);
        let acc = acc + words_bytes(self.s_backup_bgs@);
        assert(acc == s.subrange(off + 576, off + 596));
        assert(self.s_encrypt_algos@ == s.subrange(off + 596, off + 600));
        lemma_subrange_join(s, off + 576, off + 596, off + 600);
        let acc = acc + self.s_encrypt_algos@;
        assert(acc == s.subrange(off + 576, off + 600));
        assert(self.s_encrypt_pw_salt@ == s.subrange(off + 600, off + 616));
        lemma_subrange_join(s, off + 576, off + 600, off + 616);
        let acc = acc + self.s_encrypt_pw_salt@;
        assert(acc == s.subrange(off + 576, off + 616));
        assert(u32_bytes(self.s_lpf_ino) == s.subrange(off + 616, off + 620)) by {
            lemma_bytes_of_le32(s, off + 616);
        }
        lemma_subrange_join(s, off + 576, off + 616, off + 620);
        let acc = acc + u32_bytes(self.s_lpf_ino);
        assert(acc == s.subrange(off + 576, off + 620));
        assert(u32_bytes(self.s_prj_quota_inum) == s.subrange(off + 620, off + 624)) by {
            lemma_bytes_of_le32(s, off + 620);
        }
        lemma_subrange_join(s, off + 576, off + 620, off + 624);
        let acc = acc + u32_bytes(self.s_prj_quota_inum);
        assert(acc == s.subrange(off + 576, off + 624));
        assert(acc == self.encoding_part_9());
    }

    proof fn lemma_part_10(self, s: Seq<u8>, off: int)
        requires
            0 <= off,
            off + 1024 <= s.len(),
            self.decoded_part_10(s, off),
            Self::sizes_fit(s, off),
            Self::features_are_named(s, off),
        ensures
            self.encoding_part_10() == s.subrange(off + 624, off + 1020),
    {
        reveal(Ext4SuperBlock::decoded_part_10);
        reveal(Ext4SuperBlock::encoding_part_10);
        assert(u32_bytes(self.s_checksum_seed) == s.subrange(off + 624, off + 628)) by {
            lemma_bytes_of_le32(s, off + 624);
        }
        let acc = u32_bytes(self.s_checksum_seed);
        assert(seq![self.s_wtime_hi] =~= s.subrange(off + 628, off + 629));
        lemma_subrange_join(s, off + 624, off + 628, off + 629);
        let acc = acc + seq![self.s_wtime_hi];
        assert(acc == s.subrange(off + 624, off + 629));
        assert(seq![self.s_mtime_hi] =~= s.subrange(off + 629, off + 630));
        lemma_subrange_join(s, off + 624, off + 629, off + 630);
        let acc = acc + seq![self.s_mtime_hi];
        assert(acc == s.subrange(off + 624, off + 630));
        assert(seq![self.s_mkfs_time_hi] =~= s.subrange(off + 630, off + 631));
        lemma_subrange_join(s, off + 624, off + 630, off + 631);
        let acc = acc + seq![self.s_mkfs_time_hi];
        assert(acc == s.subrange(off + 624, off + 631));
        assert(seq![self.s_lastcheck_hi] =~= s.subrange(off + 631, off + 632));
        lemma_subrange_join(s, off + 624, off + 631, off + 632);
        let acc = acc + seq![self.s_lastcheck_hi];
        assert(acc == s.subrange(off + 624, off + 632));
        assert(seq![self.s_first_error_time_hi] =~= s.subrange(off + 632, off + 633));
        lemma_subrange_join(s, off + 624, off + 632, off + 633);
        let acc = acc + seq![self.s_first_error_time_hi];
        assert(acc == s.subrange(off + 624, off + 633));
        assert(seq![self.s_last_error_time_hi] =~= s.subrange(off + 633, off + 634));
        lemma_subrange_join(s, off + 624, off + 633, off + 634);
        let acc = acc + seq![self.s_last_error_time_hi];
        assert(acc == s.subrange(off + 624, off + 634));
        assert(seq![self.s_first_error_errcode] =~= s.subrange(off + 634, off + 635));
        lemma_subrange_join(s, off + 624, off + 634, off + 635);
        let acc = acc + seq![self.s_first_error_errcode];
        assert(acc == s.subrange(off + 624, off + 635));
        assert(seq![self.s_last_error_errcode] =~= s.subrange(off + 635, off + 636));
        lemma_subrange_join(s, off + 624, off + 635, off + 636);
        let acc = acc + seq![self.s_last_error_errcode];
        assert(acc == s.subrange(off + 624, off + 636));
        assert(u16_bytes(self.s_encoding) == s.subrange(off + 636, off + 638)) by {
            lemma_bytes_of_le16(s, off + 636);
        }
        lemma_subrange_join(s, off + 624, off + 636, off + 638);
        let acc = acc + u16_bytes(self.s_encoding);
        assert(acc == s.subrange(off + 624, off + 638));
        assert(u16_bytes(self.s_encoding_flags) == s.subrange(off + 638, off + 640)) by {
            lemma_bytes_of_le16(s, off + 638);
        }
        lemma_subrange_join(s, off + 624, off + 638, off + 640);
        let acc = acc + u16_bytes(self.s_encoding_flags);
        assert(acc == s.subrange(off + 624, off + 640));
        assert(u32_bytes(self.s_orphan_file_inum) == s.subrange(off + 640, off + 644)) by {
            lemma_bytes_of_le32(s, off + 640);
        }
        lemma_subrange_join(s, off + 624, off + 640, off + 644);
        let acc = acc + u32_bytes(self.s_orphan_file_inum);
        assert(acc == s.subrange(off + 624, off + 644));
        assert(words_bytes(self.s_reserved@) == s.subrange(off + 644, off + 1020)) by {
            lemma_words_bytes(self.s_reserved@, s, off + 644);
        }
        lemma_subrange_join(s, off + 624, off + 644, off + 1020);
        let acc = acc + words_bytes(self.s_reserved@);
        assert(acc == s.subrange(off + 624, off + 1020));
        assert(acc == self.encoding_part_10());
    }

    proof fn lemma_part_11(self, s: Seq<u8>, off: int)
        requires
            0 <= off,
            off + 1024 <= s.len(),
            self.decoded_part_11(s, off),
            Self::sizes_fit(s, off),
            Self::features_are_named(s, off),
        ensures
            self.encoding_part_11() == s.subrange(off + 1020, off + 1024),
    {
        reveal(Ext4SuperBlock::decoded_part_11);
        reveal(Ext4SuperBlock::encoding_part_11);
        assert(u32_bytes(self.s_checksum) == s.subrange(off + 1020, off + 1024)) by {
            lemma_bytes_of_le32(s, off + 1020);
        }
        let acc = u32_bytes(self.s_checksum);
        assert(acc == self.encoding_part_11());
    }

    /// The fields that say how the volume is laid out come from their
    /// places in the record.
    pub proof fn lemma_geometry(self, s: Seq<u8>, off: int)
        requires
            self.decoded_from(s, off),
        ensures
            self.s_inodes_count == le32(s, off),
            self.s_blocks_count_lo == le32(s, off + 4),
            self.s_log_block_size == size_of_log(le32(s, off + 24) as nat),
            self.s_blocks_per_group == le32(s, off + 32),
            self.s_inodes_per_group == le32(s, off + 40),
            self.s_magic == le16(s, off + 56),
            self.s_inode_size == le16(s, off + 88),
            self.s_feature_incompat == IncompatFeatures::spec_from_bits_truncate(le32(s, off + 96) as u32),
            self.s_feature_ro_compat == RoCompatFeatures::spec_from_bits_truncate(le32(s, off + 100) as u32),
            self.s_reserved_gdt_blocks == le16(s, off + 206),
            self.s_desc_size == le16(s, off + 254),
    {
        reveal(Ext4SuperBlock::decoded_part_0);
        reveal(Ext4SuperBlock::decoded_part_1);
        reveal(Ext4SuperBlock::decoded_part_2);
        reveal(Ext4SuperBlock::decoded_part_3);
        reveal(Ext4SuperBlock::decoded_part_4);
    }

    /// Decoding a superblock and encoding what was decoded gives the same
    /// 1024 bytes again, where the three feature words hold named bits only.
    pub proof fn lemma_encoding_of_decoded(self, s: Seq<u8>, off: int)
        requires
            0 <= off,
            off + 1024 <= s.len(),
            self.decoded_from(s, off),
            Self::sizes_fit(s, off),
            Self::features_are_named(s, off),
        ensures
            self.encodable(),
            self.encoding() == s.subrange(off, off + 1024),
    {
        self.lemma_part_0(s, off);
        self.lemma_part_1(s, off);
        self.lemma_part_2(s, off);
        self.lemma_part_3(s, off);
        self.lemma_part_4(s, off);
        self.lemma_part_5(s, off);
        self.lemma_part_6(s, off);
        self.lemma_part_7(s, off);
        self.lemma_part_8(s, off);
        self.lemma_part_9(s, off);
        self.lemma_part_10(s, off);
        self.lemma_part_11(s, off);
        assert(self.encodable()) by {
            reveal(Ext4SuperBlock::decoded_part_0);
            reveal(Ext4SuperBlock::decoded_part_5);
            lemma_log_of_size(le32(s, off + 24) as nat);
            lemma_log_of_size(le32(s, off + 28) as nat);
            lemma_log_of_size(s[off + 372] as nat);
        }
        self.lemma_join(s, off);
    }

    proof fn lemma_join(self, s: Seq<u8>, off: int)
        requires
            0 <= off,
            off + 1024 <= s.len(),
            self.encoding_part_0() == s.subrange(off, off + 48),
            self.encoding_part_1() == s.subrange(off + 48, off + 96),
            self.encoding_part_2() == s.subrange(off + 96, off + 200),
            self.encoding_part_3() == s.subrange(off + 200, off + 252),
            self.encoding_part_4() == s.subrange(off + 252, off + 336),
            self.encoding_part_5() == s.subrange(off + 336, off + 384),
            self.encoding_part_6() == s.subrange(off + 384, off + 456),
            self.encoding_part_7() == s.subrange(off + 456, off + 512),
            self.encoding_part_8() == s.subrange(off + 512, off + 576),
            self.encoding_part_9() == s.subrange(off + 576, off + 624),
            self.encoding_part_10() == s.subrange(off + 624, off + 1020),
            self.encoding_part_11() == s.subrange(off + 1020, off + 1024),
        ensures
            self.encoding() == s.subrange(off, off + 1024),
    {
        let acc = self.encoding_part_0();
        lemma_subrange_join(s, off, off + 48, off + 96);
        let acc = acc + self.encoding_part_1();
        assert(acc == s.subrange(off, off + 96));
        lemma_subrange_join(s, off, off + 96, off + 200);
        let acc = acc + self.encoding_part_2();
        assert(acc == s.subrange(off, off + 200));
        lemma_subrange_join(s, off, off + 200, off + 252);
        let acc = acc + self.encoding_part_3();
        assert(acc == s.subrange(off, off + 252));
        lemma_subrange_join(s, off, off + 252, off + 336);
        let acc = acc + self.encoding_part_4();
        assert(acc == s.subrange(off, off + 336));
        lemma_subrange_join(s, off, off + 336, off + 384);
        let acc = acc + self.encoding_part_5();
        assert(acc == s.subrange(off, off + 384));
        lemma_subrange_join(s, off, off + 384, off + 456);
        let acc = acc + self.encoding_part_6();
        assert(acc == s.subrange(off, off + 456));
        lemma_subrange_join(s, off, off + 456, off + 512);
        let acc = acc + self.encoding_part_7();
        assert(acc == s.subrange(off, off + 512));
        lemma_subrange_join(s, off, off + 512, off + 576);
        let acc = acc + self.encoding_part_8();
        assert(acc == s.subrange(off, off + 576));
        lemma_subrange_join(s, off, off + 576, off + 624);
        let acc = acc + self.encoding_part_9();
        assert(acc == s.subrange(off, off + 624));
        lemma_subrange_join(s, off, off + 624, off + 1020);
        let acc = acc + self.encoding_part_10();
        assert(acc == s.subrange(off, off + 1020));
        lemma_subrange_join(s, off, off + 1020, off + 1024);
        let acc = acc + self.encoding_part_11();
        assert(acc == s.subrange(off, off + 1024));
        assert(acc == self.encoding());
    }
}

} // verus!
