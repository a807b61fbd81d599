//! The bit masks of the on-disk records, each with its named bits.
//!
//! A value of one of these types holds known bits only: `from_bits_truncate`
//! drops the others, and the fields are private.

use vstd::prelude::*;

verus! {

/// The compatible feature set of a superblock: a reader may ignore any of these.
#[derive(Clone, Copy, Debug, PartialEq, Eq, Structural)]
pub struct CompatFeatures {
    bits: u32,
}

impl CompatFeatures {
    /// Directory preallocation.
    pub const DIR_PREALLOC: u32 = 0x0000_0001;

    /// Imagic inodes.
    pub const IMAGIC_INODES: u32 = 0x0000_0002;

    /// The volume has a journal.
    pub const HAS_JOURNAL: u32 = 0x0000_0004;

    /// Extended attributes are supported.
    pub const EXT_ATTR: u32 = 0x0000_0008;

    /// Descriptor blocks are reserved for growing the volume.
    pub const RESIZE_INODE: u32 = 0x0000_0010;

    /// Directories may carry hash-tree indices.
    pub const DIR_INDEX: u32 = 0x0000_0020;

    /// Lazy block groups.
    pub const LAZY_BG: u32 = 0x0000_0040;

    /// Exclude inode.
    pub const EXCLUDE_INODE: u32 = 0x0000_0080;

    /// Exclude bitmap.
    pub const EXCLUDE_BITMAP: u32 = 0x0000_0100;

    /// Second version of sparse superblocks.
    pub const SPARSE_SUPER2: u32 = 0x0000_0200;

    /// Fast commits are supported.
    pub const FAST_COMMIT: u32 = 0x0000_0400;

    /// An orphan file is allocated.
    pub const ORPHAN_PRESENT: u32 = 0x0000_1000;

    /// Every named bit.
    pub const ALL: u32 = 0x0000_17ff;

    /// The bits that are set.
    pub closed spec fn spec_bits(&self) -> u32 {
        self.bits
    }

    /// What `from_bits_truncate` makes of `bits`.
    pub closed spec fn spec_from_bits_truncate(bits: u32) -> Self {
        CompatFeatures { bits: bits & CompatFeatures::ALL }
    }

    /// No bit set.
    pub fn empty() -> (r: Self)
        ensures
            r.spec_bits() == 0,
    {
        CompatFeatures { bits: 0 }
    }

    /// The named bits of `bits`; the others are dropped.
    pub fn from_bits_truncate(bits: u32) -> (r: Self)
        ensures
            r == Self::spec_from_bits_truncate(bits),
            r.spec_bits() == bits & CompatFeatures::ALL,
    {
        CompatFeatures { bits: bits & CompatFeatures::ALL }
    }

    /// The bits that are set.
    #[verifier::when_used_as_spec(spec_bits)]
    pub fn bits(&self) -> (r: u32)
        ensures
            r == self.spec_bits(),
    {
        self.bits
    }

    /// Whether every bit of `mask` is set.
    pub fn contains(&self, mask: u32) -> (r: bool)
        ensures
            r == (self.spec_bits() & mask == mask),
    {
        self.bits & mask == mask
    }

    /// The bits of a truncated value are the named bits of what it was made from,
    /// and truncating them again changes nothing.
    pub proof fn lemma_from_bits_truncate(raw: u32)
        ensures
            Self::spec_from_bits_truncate(raw).spec_bits() == raw & CompatFeatures::ALL,
            Self::spec_from_bits_truncate(raw & CompatFeatures::ALL) == Self::spec_from_bits_truncate(raw),
    {
        let all = CompatFeatures::ALL;
        assert((raw & all) & all == raw & all) by (bit_vector);
    }
}

/// The incompatible feature set of a superblock: a reader that does not know one of
/// these cannot read the volume safely.
#[derive(Clone, Copy, Debug, PartialEq, Eq, Structural)]
pub struct IncompatFeatures {
    bits: u32,
}

impl IncompatFeatures {
    /// Compression.
    pub const COMPRESSION: u32 = 0x0000_0001;

    /// Directory entries record the file type.
    pub const FILETYPE: u32 = 0x0000_0002;

    /// The journal needs recovery.
    pub const RECOVER: u32 = 0x0000_0004;

    /// The volume is a separate journal device.
    pub const JOURNAL_DEV: u32 = 0x0000_0008;

    /// Meta block groups.
    pub const META_BG: u32 = 0x0000_0010;

    /// Files use extents.
    pub const EXTENTS: u32 = 0x0000_0040;

    /// Block numbers are 64 bits wide.
    pub const _64BIT: u32 = 0x0000_0080;

    /// Multiple mount protection.
    pub const MMP: u32 = 0x0000_0100;

    /// Flexible block groups.
    pub const FLEX_BG: u32 = 0x0000_0200;

    /// Extended attributes live in inodes.
    pub const EA_INODE: u32 = 0x0000_0400;

    /// Data in directory entries.
    pub const DIRDATA: u32 = 0x0000_1000;

    /// The checksum seed is stored in the superblock.
    pub const CSUM_SEED: u32 = 0x0000_2000;

    /// Large directories with three-level hash trees.
    pub const LARGEDIR: u32 = 0x0000_4000;

    /// Data is stored inside inodes.
    pub const INLINE_DATA: u32 = 0x0000_8000;

    /// Encrypted inodes are present.
    pub const ENCRYPT: u32 = 0x0001_0000;

    /// Every named bit.
    pub const ALL: u32 = 0x0001_f7df;

    /// The bits that are set.
    pub closed spec fn spec_bits(&self) -> u32 {
        self.bits
    }

    /// What `from_bits_truncate` makes of `bits`.
    pub closed spec fn spec_from_bits_truncate(bits: u32) -> Self {
        IncompatFeatures { bits: bits & IncompatFeatures::ALL }
    }

    /// No bit set.
    pub fn empty() -> (r: Self)
        ensures
            r.spec_bits() == 0,
    {
        IncompatFeatures { bits: 0 }
    }

    /// The named bits of `bits`; the others are dropped.
    pub fn from_bits_truncate(bits: u32) -> (r: Self)
        ensures
            r == Self::spec_from_bits_truncate(bits),
            r.spec_bits() == bits & IncompatFeatures::ALL,
    {
        IncompatFeatures { bits: bits & IncompatFeatures::ALL }
    }

    /// The bits that are set.
    #[verifier::when_used_as_spec(spec_bits)]
    pub fn bits(&self) -> (r: u32)
        ensures
            r == self.spec_bits(),
    {
        self.bits
    }

    /// Whether every bit of `mask` is set.
    pub fn contains(&self, mask: u32) -> (r: bool)
        ensures
            r == (self.spec_bits() & mask == mask),
    {
        self.bits & mask == mask
    }

    /// The bits of a truncated value are the named bits of what it was made from,
    /// and truncating them again changes nothing.
    pub proof fn lemma_from_bits_truncate(raw: u32)
        ensures
            Self::spec_from_bits_truncate(raw).spec_bits() == raw & IncompatFeatures::ALL,
            Self::spec_from_bits_truncate(raw & IncompatFeatures::ALL) == Self::spec_from_bits_truncate(raw),
    {
        let all = IncompatFeatures::ALL;
        assert((raw & all) & all == raw & all) by (bit_vector);
    }
}

/// The read-only compatible feature set of a superblock: a reader may ignore these,
/// a writer may not.
#[derive(Clone, Copy, Debug, PartialEq, Eq, Structural)]
pub struct RoCompatFeatures {
    bits: u32,
}

impl RoCompatFeatures {
    /// Backup superblocks are kept in some groups only.
    pub const SPARSE_SUPER: u32 = 0x0000_0001;

    /// Files may be larger than 2 GiB.
    pub const LARGE_FILE: u32 = 0x0000_0002;

    /// B-tree directories.
    pub const BTREE_DIR: u32 = 0x0000_0004;

    /// File sizes are counted in blocks.
    pub const HUGE_FILE: u32 = 0x0000_0008;

    /// Group descriptors carry checksums.
    pub const GDT_CSUM: u32 = 0x0000_0010;

    /// No limit on the number of subdirectories.
    pub const DIR_NLINK: u32 = 0x0000_0020;

    /// Inodes carry extra fields.
    pub const EXTRA_ISIZE: u32 = 0x0000_0040;

    /// A snapshot is present.
    pub const HAS_SNAPSHOT: u32 = 0x0000_0080;

    /// Quotas.
    pub const QUOTA: u32 = 0x0000_0100;

    /// Allocation in clusters of blocks.
    pub const BIGALLOC: u32 = 0x0000_0200;

    /// Metadata carries checksums.
    pub const METADATA_CSUM: u32 = 0x0000_0400;

    /// Replicas.
    pub const REPLICA: u32 = 0x0000_0800;

    /// The image is read-only.
    pub const READONLY: u32 = 0x0000_1000;

    /// Project quotas.
    pub const PROJECT: u32 = 0x0000_2000;

    /// Verity inodes are present.
    pub const VERITY: u32 = 0x0000_8000;

    /// Orphan cleanup is needed.
    pub const ORPHAN_PRESENT: u32 = 0x0001_0000;

    /// Every named bit.
    pub const ALL: u32 = 0x0001_bfff;

    /// The bits that are set.
    pub closed spec fn spec_bits(&self) -> u32 {
        self.bits
    }

    /// What `from_bits_truncate` makes of `bits`.
    pub closed spec fn spec_from_bits_truncate(bits: u32) -> Self {
        RoCompatFeatures { bits: bits & RoCompatFeatures::ALL }
    }

    /// No bit set.
    pub fn empty() -> (r: Self)
        ensures
            r.spec_bits() == 0,
    {
        RoCompatFeatures { bits: 0 }
    }

    /// The named bits of `bits`; the others are dropped.
    pub fn from_bits_truncate(bits: u32) -> (r: Self)
        ensures
            r == Self::spec_from_bits_truncate(bits),
            r.spec_bits() == bits & RoCompatFeatures::ALL,
    {
        RoCompatFeatures { bits: bits & RoCompatFeatures::ALL }
    }

    /// The bits that are set.
    #[verifier::when_used_as_spec(spec_bits)]
    pub fn bits(&self) -> (r: u32)
        ensures
            r == self.spec_bits(),
    {
        self.bits
    }

    /// Whether every bit of `mask` is set.
    pub fn contains(&self, mask: u32) -> (r: bool)
        ensures
            r == (self.spec_bits() & mask == mask),
    {
        self.bits & mask == mask
    }

    /// The bits of a truncated value are the named bits of what it was made from,
    /// and truncating them again changes nothing.
    pub proof fn lemma_from_bits_truncate(raw: u32)
        ensures
            Self::spec_from_bits_truncate(raw).spec_bits() == raw & RoCompatFeatures::ALL,
            Self::spec_from_bits_truncate(raw & RoCompatFeatures::ALL) == Self::spec_from_bits_truncate(raw),
    {
        let all = RoCompatFeatures::ALL;
        assert((raw & all) & all == raw & all) by (bit_vector);
    }
}

/// The flags of a block group descriptor.
#[derive(Clone, Copy, Debug, PartialEq, Eq, Structural)]
pub struct BgFlags {
    bits: u16,
}

impl BgFlags {
    /// Inode table and bitmap are not initialised.
    pub const INODE_UNINIT: u16 = 0x0001;

    /// The block bitmap is not initialised.
    pub const BLOCK_UNINIT: u16 = 0x0002;

    /// The inode table is zeroed.
    pub const INODE_ZEROED: u16 = 0x0004;

    /// Every named bit.
    pub const ALL: u16 = 0x0007;

    /// The bits that are set.
    pub closed spec fn spec_bits(&self) -> u16 {
        self.bits
    }

    /// What `from_bits_truncate` makes of `bits`.
    pub closed spec fn spec_from_bits_truncate(bits: u16) -> Self {
        BgFlags { bits: bits & BgFlags::ALL }
    }

    /// No bit set.
    pub fn empty() -> (r: Self)
        ensures
            r.spec_bits() == 0,
    {
        BgFlags { bits: 0 }
    }

    /// The named bits of `bits`; the others are dropped.
    pub fn from_bits_truncate(bits: u16) -> (r: Self)
        ensures
            r == Self::spec_from_bits_truncate(bits),
            r.spec_bits() == bits & BgFlags::ALL,
    {
        BgFlags { bits: bits & BgFlags::ALL }
    }

    /// The bits that are set.
    #[verifier::when_used_as_spec(spec_bits)]
    pub fn bits(&self) -> (r: u16)
        ensures
            r == self.spec_bits(),
    {
        self.bits
    }

    /// Whether every bit of `mask` is set.
    pub fn contains(&self, mask: u16) -> (r: bool)
        ensures
            r == (self.spec_bits() & mask == mask),
    {
        self.bits & mask == mask
    }

    /// The bits of a truncated value are the named bits of what it was made from,
    /// and truncating them again changes nothing.
    pub proof fn lemma_from_bits_truncate(raw: u16)
        ensures
            Self::spec_from_bits_truncate(raw).spec_bits() == raw & BgFlags::ALL,
            Self::spec_from_bits_truncate(raw & BgFlags::ALL) == Self::spec_from_bits_truncate(raw),
    {
        let all = BgFlags::ALL;
        assert((raw & all) & all == raw & all) by (bit_vector);
    }
}

/// The permission bits of a file mode: its low twelve bits.
#[derive(Clone, Copy, Debug, PartialEq, Eq, Structural)]
pub struct FilePermissions {
    bits: u16,
}

impl FilePermissions {
    /// Others may execute.
    pub const S_IXOTH: u16 = 0x0001;

    /// Others may write.
    pub const S_IWOTH: u16 = 0x0002;

    /// Others may read.
    pub const S_IROTH: u16 = 0x0004;

    /// The group may execute.
    pub const S_IXGRP: u16 = 0x0008;

    /// The group may write.
    pub const S_IWGRP: u16 = 0x0010;

    /// The group may read.
    pub const S_IRGRP: u16 = 0x0020;

    /// The owner may execute.
    pub const S_IXUSR: u16 = 0x0040;

    /// The owner may write.
    pub const S_IWUSR: u16 = 0x0080;

    /// The owner may read.
    pub const S_IRUSR: u16 = 0x0100;

    /// Sticky bit.
    pub const S_ISVTX: u16 = 0x0200;

    /// Set group id.
    pub const S_ISGID: u16 = 0x0400;

    /// Set user id.
    pub const S_ISUID: u16 = 0x0800;

    /// Every named bit.
    pub const ALL: u16 = 0x0fff;

    /// The bits that are set.
    pub closed spec fn spec_bits(&self) -> u16 {
        self.bits
    }

    /// What `from_bits_truncate` makes of `bits`.
    pub closed spec fn spec_from_bits_truncate(bits: u16) -> Self {
        FilePermissions { bits: bits & FilePermissions::ALL }
    }

    /// No bit set.
    pub fn empty() -> (r: Self)
        ensures
            r.spec_bits() == 0,
    {
        FilePermissions { bits: 0 }
    }

    /// The named bits of `bits`; the others are dropped.
    pub fn from_bits_truncate(bits: u16) -> (r: Self)
        ensures
            r == Self::spec_from_bits_truncate(bits),
            r.spec_bits() == bits & FilePermissions::ALL,
    {
        FilePermissions { bits: bits & FilePermissions::ALL }
    }

    /// The bits that are set.
    #[verifier::when_used_as_spec(spec_bits)]
    pub fn bits(&self) -> (r: u16)
        ensures
            r == self.spec_bits(),
    {
        self.bits
    }

    /// Whether every bit of `mask` is set.
    pub fn contains(&self, mask: u16) -> (r: bool)
        ensures
            r == (self.spec_bits() & mask == mask),
    {
        self.bits & mask == mask
    }

    /// The bits of a truncated value are the named bits of what it was made from,
    /// and truncating them again changes nothing.
    pub proof fn lemma_from_bits_truncate(raw: u16)
        ensures
            Self::spec_from_bits_truncate(raw).spec_bits() == raw & FilePermissions::ALL,
            Self::spec_from_bits_truncate(raw & FilePermissions::ALL) == Self::spec_from_bits_truncate(raw),
    {
        let all = FilePermissions::ALL;
        assert((raw & all) & all == raw & all) by (bit_vector);
    }
}

/// The flags of an inode.
#[derive(Clone, Copy, Debug, PartialEq, Eq, Structural)]
pub struct InodeFlags {
    bits: u32,
}

impl InodeFlags {
    /// Secure deletion.
    pub const SECURE_DELETE: u32 = 0x0000_0001;

    /// Keep for undeletion.
    pub const PRESERVE_UNDELETE: u32 = 0x0000_0002;

    /// The file is compressed.
    pub const COMPRESSED: u32 = 0x0000_0004;

    /// Writes are synchronous.
    pub const SYNC: u32 = 0x0000_0008;

    /// The file is immutable.
    pub const IMMUTABLE: u32 = 0x0000_0010;

    /// The file can only be appended to.
    pub const APPEND_ONLY: u32 = 0x0000_0020;

    /// Not to be dumped.
    pub const NO_DUMP: u32 = 0x0000_0040;

    /// The access time is not updated.
    pub const NO_ATIME: u32 = 0x0000_0080;

    /// Dirty compressed file.
    pub const DIRTY_COMPRESSED: u32 = 0x0000_0100;

    /// Compressed clusters.
    pub const COMPRESSED_CLUSTERS: u32 = 0x0000_0200;

    /// Not to be compressed.
    pub const NO_COMPRESS: u32 = 0x0000_0400;

    /// The inode is encrypted.
    pub const ENCRYPTED: u32 = 0x0000_0800;

    /// The directory has a hash-tree index.
    pub const INDEX: u32 = 0x0000_1000;

    /// Imagic inode.
    pub const IMAGIC: u32 = 0x0000_2000;

    /// File data goes through the journal.
    pub const JOURNAL_DATA: u32 = 0x0000_4000;

    /// The tail is not merged.
    pub const NO_TAIL: u32 = 0x0000_8000;

    /// Directory changes are synchronous.
    pub const DIRSYNC: u32 = 0x0001_0000;

    /// Top of a directory hierarchy.
    pub const TOPDIR: u32 = 0x0002_0000;

    /// A huge file.
    pub const HUGE_FILE: u32 = 0x0004_0000;

    /// The block region holds an extent tree.
    pub const EXTENTS: u32 = 0x0008_0000;

    /// A verity inode.
    pub const VERITY: u32 = 0x0010_0000;

    /// The inode holds a large extended attribute.
    pub const EA_INODE: u32 = 0x0020_0000;

    /// Blocks are allocated past the end of the file.
    pub const EOF_BLOCKS: u32 = 0x0040_0000;

    /// A snapshot file.
    pub const SNAPFILE: u32 = 0x0100_0000;

    /// A snapshot that is being deleted.
    pub const SNAPFILE_DELETED: u32 = 0x0400_0000;

    /// A snapshot that has been shrunk.
    pub const SNAPFILE_SHRUNK: u32 = 0x0800_0000;

    /// The inode holds its data inline.
    pub const INLINE_DATA: u32 = 0x1000_0000;

    /// Children inherit the project id.
    pub const PROJINHERIT: u32 = 0x2000_0000;

    /// Reserved.
    pub const RESERVED: u32 = 0x8000_0000;

    /// Every named bit.
    pub const ALL: u32 = 0xbd7f_ffff;

    /// The bits that are set.
    pub closed spec fn spec_bits(&self) -> u32 {
        self.bits
    }

    /// What `from_bits_truncate` makes of `bits`.
    pub closed spec fn spec_from_bits_truncate(bits: u32) -> Self {
        InodeFlags { bits: bits & InodeFlags::ALL }
    }

    /// No bit set.
    pub fn empty() -> (r: Self)
        ensures
            r.spec_bits() == 0,
    {
        InodeFlags { bits: 0 }
    }

    /// The named bits of `bits`; the others are dropped.
    pub fn from_bits_truncate(bits: u32) -> (r: Self)
        ensures
            r == Self::spec_from_bits_truncate(bits),
            r.spec_bits() == bits & InodeFlags::ALL,
    {
        InodeFlags { bits: bits & InodeFlags::ALL }
    }

    /// The bits that are set.
    #[verifier::when_used_as_spec(spec_bits)]
    pub fn bits(&self) -> (r: u32)
        ensures
            r == self.spec_bits(),
    {
        self.bits
    }

    /// Whether every bit of `mask` is set.
    pub fn contains(&self, mask: u32) -> (r: bool)
        ensures
            r == (self.spec_bits() & mask == mask),
    {
        self.bits & mask == mask
    }

    /// The bits of a truncated value are the named bits of what it was made from,
    /// and truncating them again changes nothing.
    pub proof fn lemma_from_bits_truncate(raw: u32)
        ensures
            Self::spec_from_bits_truncate(raw).spec_bits() == raw & InodeFlags::ALL,
            Self::spec_from_bits_truncate(raw & InodeFlags::ALL) == Self::spec_from_bits_truncate(raw),
    {
        let all = InodeFlags::ALL;
        assert((raw & all) & all == raw & all) by (bit_vector);
    }
}

} // verus!
