//! The geometry of a volume and the way from an inode number to its inode.
//!
//! Everything here works on the image, the decoded superblock and one group
//! descriptor as plain values; the two volume types of this crate are built
//! on these functions.

use crate::defs::{Ext4GroupDesc, Ext4Inode, Ext4SuperBlock};
use crate::wire::{le16, le32, read_u8, ParseError};
use vstd::prelude::*;

verus! {

/// Offset of the superblock in the image.
pub const SUPERBLOCK_OFFSET: usize = 1024;

/// The number of block groups: the blocks of the volume divided by the
/// blocks of a group, rounded up; 0 where a group has no blocks.
pub open spec fn spec_group_count(blocks_count: u32, blocks_per_group: u32) -> int {
    if blocks_per_group == 0 {
        0
    } else {
        (blocks_count + blocks_per_group - 1) / (blocks_per_group as int)
    }
}

/// Where the table of group descriptors starts: at the block behind the one
/// that holds the superblock.
pub open spec fn spec_desc_table_offset(block_size: u64) -> int {
    (1024int / (block_size as int) + 1) * block_size
}

/// The number of bytes from one group descriptor to the next: the size of a
/// descriptor that the superblock gives, and at least the 64 bytes of the
/// descriptor record.
pub open spec fn spec_desc_stride(desc_size: u16) -> int {
    if desc_size < 64 {
        64
    } else {
        desc_size as int
    }
}

/// Where the descriptor of group `g` starts.
pub open spec fn spec_desc_offset(block_size: u64, desc_size: u16, g: int) -> int {
    spec_desc_table_offset(block_size) + g * spec_desc_stride(desc_size)
}

/// The magic number of the superblock in `image`.
pub open spec fn image_magic(image: Seq<u8>) -> u16 {
    le16(image, 1080) as u16
}

/// The block size that the superblock in `image` gives.
pub open spec fn image_block_size(image: Seq<u8>) -> u64 {
    crate::defs::size_of_log(le32(image, 1048) as nat) as u64
}

/// The number of blocks that the superblock in `image` gives.
pub open spec fn image_blocks_count(image: Seq<u8>) -> u32 {
    le32(image, 1028) as u32
}

/// The number of blocks of a group that the superblock in `image` gives.
pub open spec fn image_blocks_per_group(image: Seq<u8>) -> u32 {
    le32(image, 1056) as u32
}

/// The size of a group descriptor that the superblock in `image` gives.
pub open spec fn image_desc_size(image: Seq<u8>) -> u16 {
    le16(image, 1278) as u16
}

/// The number of the groups of `image`.
pub open spec fn image_group_count(image: Seq<u8>) -> int {
    spec_group_count(image_blocks_count(image), image_blocks_per_group(image))
}

/// Where the table of group descriptors starts.
pub fn desc_table_offset(block_size: u64) -> (r: u128)
    requires
        block_size != 0,
    ensures
        r == spec_desc_table_offset(block_size),
        r <= 1025 * 0xffff_ffff_ffff_ffff,
{
    let size: u128 = block_size as u128;
    let before: u128 = 1024 / size;
    assert((before + 1) * size <= 1025 * 0xffff_ffff_ffff_ffff) by (nonlinear_arith)
        requires
            0 <= before <= 1024,
            0 <= size <= 0xffff_ffff_ffff_ffff,
    ;
    (before + 1) * size
}

/// The number of bytes from one group descriptor to the next.
pub fn desc_stride(desc_size: u16) -> (r: u16)
    ensures
        r == spec_desc_stride(desc_size),
{
    if desc_size < 64 {
        64
    } else {
        desc_size
    }
}

/// Why the image cannot be opened as a volume, or `None` where it can: the
/// first of these that holds. The image ends before the superblock does; a
/// size in the superblock does not fit; the magic number is wrong; a group
/// has no blocks; the image ends before the table of group descriptors does.
pub open spec fn open_error(image: Seq<u8>) -> Option<ParseError> {
    if image.len() < 2048 {
        Some(ParseError::TooShort)
    } else if !Ext4SuperBlock::sizes_fit(image, 1024) {
        Some(ParseError::BadGeometry)
    } else if image_magic(image) != 0xEF53 {
        Some(ParseError::BadMagic)
    } else if image_blocks_per_group(image) == 0 {
        Some(ParseError::BadGeometry)
    } else if spec_desc_offset(
        image_block_size(image),
        image_desc_size(image),
        image_group_count(image),
    ) > image.len() {
        Some(ParseError::TooShort)
    } else {
        None
    }
}

/// Whether `descs` are the group descriptors that the image holds for the
/// superblock `sb`: one per group, each decoded from its place in the table.
pub open spec fn descs_decoded(descs: Seq<Ext4GroupDesc>, sb: Ext4SuperBlock, image: Seq<u8>) -> bool {
    &&& descs.len() == spec_group_count(sb.s_blocks_count_lo, sb.s_blocks_per_group)
    &&& forall|g: int|
        0 <= g < descs.len() ==> (#[trigger] descs[g]).decoded_from(
            image,
            spec_desc_offset(sb.s_log_block_size, sb.s_desc_size, g),
        )
}

/// The number of block groups, or `None` where a group has no blocks.
pub fn group_count(sb: &Ext4SuperBlock) -> (r: Option<u32>)
    ensures
        r is Some <==> sb.s_blocks_per_group != 0,
        r matches Some(n) ==> n == spec_group_count(sb.s_blocks_count_lo, sb.s_blocks_per_group),
{
    if sb.s_blocks_per_group == 0 {
        None
    } else {
        let blocks: u64 = sb.s_blocks_count_lo as u64;
        let per_group: u64 = sb.s_blocks_per_group as u64;
        let n: u64 = (blocks + per_group - 1) / per_group;
        assert(n <= blocks) by (nonlinear_arith)
            requires
                n == (blocks + per_group - 1) / (per_group as int),
                per_group >= 1,
                blocks >= 0,
        ;
        Some(n as u32)
    }
}

/// Reads the superblock and the table of group descriptors of the image.
pub fn open_volume(input: &[u8]) -> (r: Result<(Ext4SuperBlock, Vec<Ext4GroupDesc>), ParseError>)
    ensures
        match r {
            Ok((sb, descs)) => open_error(input@) is None && sb.decoded_from(input@, 1024)
                && sb.s_magic == 0xEF53 && descs_decoded(descs@, sb, input@),
            Err(e) => open_error(input@) == Some(e),
        },
{
    let len = input.len();
    if len < 2048 {
        return Err(ParseError::TooShort);
    }
    let sb = match Ext4SuperBlock::read_at(input, SUPERBLOCK_OFFSET) {
        Some(sb) => sb,
        None => {
            return Err(ParseError::BadGeometry);
        },
    };
    proof {
        crate::defs::lemma_log_of_size(le32(input@, 1048) as nat);
        sb.lemma_geometry(input@, 1024);
    }
    if sb.s_magic != crate::defs::EXT4_SUPER_MAGIC {
        return Err(ParseError::BadMagic);
    }
    let count: u32 = match group_count(&sb) {
        Some(n) => n,
        None => {
            return Err(ParseError::BadGeometry);
        },
    };
    assert(sb.s_log_block_size >= 1024) by {
        crate::defs::lemma_size_of_log_at_least(le32(input@, 1048) as nat);
    }
    let stride: u128 = desc_stride(sb.s_desc_size) as u128;
    let table: u128 = desc_table_offset(sb.s_log_block_size);
    assert(count * stride <= 0xffff_ffff * 0xffff) by (nonlinear_arith)
        requires
            0 <= count <= 0xffff_ffff,
            0 <= stride <= 0xffff,
    ;
    let end: u128 = table + (count as u128) * stride;
    if end > len as u128 {
        return Err(ParseError::TooShort);
    }
    let mut descs: Vec<Ext4GroupDesc> = Vec::new();
    let mut g: u32 = 0;
    while g < count
        invariant
            g <= count,
            len == input.len(),
            stride == spec_desc_stride(sb.s_desc_size) >= 64,
            table == spec_desc_table_offset(sb.s_log_block_size),
            table + count * stride <= len,
            descs@.len() == g,
            forall|k: int|
                0 <= k < g ==> (#[trigger] descs@[k]).decoded_from(
                    input@,
                    spec_desc_offset(sb.s_log_block_size, sb.s_desc_size, k),
                ),
        decreases count - g,
    {
        assert(g * stride + stride <= count * stride) by (nonlinear_arith)
            requires
                0 <= g < count,
                stride >= 0,
        ;
        let off: u128 = table + (g as u128) * stride;
        let desc = Ext4GroupDesc::read_at(input, off as usize);
        descs.push(desc);
        g += 1;
    }
    Ok((sb, descs))
}

/// The incompatible feature bits of the superblock in `image` that this
/// crate does not know how to read: all but "file type in directory entries"
/// and "extents".
pub open spec fn spec_unsupported_incompat(image: Seq<u8>) -> u32 {
    (le32(image, 1120) as u32) & !0x42u32
}

/// The incompatible feature bits of the superblock in `input` that this
/// crate does not know how to read, named or not; `None` where the image
/// ends before the superblock does. Opening a volume does not look at them:
/// a caller that wants to refuse such a volume asks here.
pub fn unsupported_incompat(input: &[u8]) -> (r: Option<u32>)
    ensures
        r is Some <==> input@.len() >= 2048,
        r matches Some(bits) ==> bits == spec_unsupported_incompat(input@),
{
    if input.len() < 2048 {
        None
    } else {
        Some(crate::wire::read_u32(input, 1120) & !0x42u32)
    }
}

/// Whether the size of an inode slot is one that the format allows: at
/// least 128 bytes and at most a block.
pub fn inode_size_in_range(sb: &Ext4SuperBlock) -> (r: bool)
    ensures
        r == (128 <= sb.s_inode_size <= sb.s_log_block_size),
{
    sb.s_inode_size >= 128 && sb.s_inode_size as u64 <= sb.s_log_block_size
}

/// The group that holds the inode `i_no`, where a group has `per_group`
/// inodes.
pub open spec fn spec_inode_group(per_group: u32, i_no: u64) -> int {
    (i_no - 1) / (per_group as int)
}

/// The place of the inode `i_no` in its group.
pub open spec fn spec_inode_slot(per_group: u32, i_no: u64) -> int {
    (i_no - 1) % (per_group as int)
}

/// Where the byte of the inode bitmap lies that holds the bit of `slot`.
pub open spec fn spec_bitmap_byte(block_size: u64, desc: Ext4GroupDesc, slot: int) -> int {
    desc.bg_inode_bitmap_lo * block_size + slot / 8
}

/// Whether bit `bit` of `byte` is set, bit 0 being the lowest.
pub open spec fn bit_is_set(byte: u8, bit: u8) -> bool {
    (byte >> bit) & 1 == 1
}

/// Whether the inode in `slot` of the group is marked as allocated:
/// `None` where the image ends before the byte of its bit.
pub open spec fn spec_inode_bit(image: Seq<u8>, block_size: u64, desc: Ext4GroupDesc, slot: int) -> Option<
    bool,
> {
    let at = spec_bitmap_byte(block_size, desc, slot);
    if at < image.len() {
        Some(bit_is_set(image[at], (slot % 8) as u8))
    } else {
        None
    }
}

/// Where the inode in `slot` of the group is stored.
pub open spec fn spec_inode_offset(
    block_size: u64,
    inode_size: u16,
    desc: Ext4GroupDesc,
    slot: int,
) -> int {
    desc.bg_inode_table_lo * block_size + slot * inode_size
}

/// Whether the inode in `slot` of the group can be read: it is marked as
/// allocated and its 160 bytes lie inside the image.
pub open spec fn spec_slot_readable(
    image: Seq<u8>,
    sb: Ext4SuperBlock,
    desc: Ext4GroupDesc,
    slot: int,
) -> bool {
    &&& spec_inode_bit(image, sb.s_log_block_size, desc, slot) == Some(true)
    &&& spec_inode_offset(sb.s_log_block_size, sb.s_inode_size, desc, slot) + 160 <= image.len()
}

/// Whether the inode table of the group lies inside the image.
pub open spec fn spec_inode_table_in_image(image_len: nat, sb: Ext4SuperBlock, desc: Ext4GroupDesc) -> bool {
    desc.bg_inode_table_lo * sb.s_log_block_size + sb.s_inodes_per_group * sb.s_inode_size
        <= image_len
}

/// The group and the slot of the inode `i_no`, or `None` where the number is
/// 0 or a group has no inodes.
pub fn locate_inode(inodes_per_group: u32, i_no: u64) -> (r: Option<(u64, u64)>)
    ensures
        r is Some <==> i_no >= 1 && inodes_per_group != 0,
        r matches Some((group, slot)) ==> group == spec_inode_group(inodes_per_group, i_no) && slot
            == spec_inode_slot(inodes_per_group, i_no) && slot < inodes_per_group,
{
    if i_no == 0 || inodes_per_group == 0 {
        None
    } else {
        let per_group: u64 = inodes_per_group as u64;
        Some(((i_no - 1) / per_group, (i_no - 1) % per_group))
    }
}

/// The bit of the inode bitmap for `slot` of the group: `None` where the
/// image ends before the byte that holds it.
pub fn inode_bit(input: &[u8], block_size: u64, desc: &Ext4GroupDesc, slot: u64) -> (r: Option<bool>)
    ensures
        r == spec_inode_bit(input@, block_size, *desc, slot as int),
{
    let bitmap: u32 = desc.bg_inode_bitmap_lo;
    assert(bitmap * block_size <= 0xffff_ffff * 0xffff_ffff_ffff_ffff) by (nonlinear_arith)
        requires
            0 <= bitmap <= 0xffff_ffff,
            0 <= block_size <= 0xffff_ffff_ffff_ffff,
    ;
    let at: u128 = (bitmap as u128) * (block_size as u128) + (slot / 8) as u128;
    if at < input.len() as u128 {
        let byte: u8 = read_u8(input, at as usize);
        let bit: u8 = (slot % 8) as u8;
        assert(bit < 8);
        Some((byte >> bit) & 1 == 1)
    } else {
        None
    }
}

/// The inode in `slot` of the group: `None` where it is not marked as
/// allocated, or where the image ends before its bitmap byte or before the
/// end of its record.
pub fn read_inode_in_group(input: &[u8], sb: &Ext4SuperBlock, desc: &Ext4GroupDesc, slot: u64) -> (r:
    Option<Ext4Inode>)
    ensures
        r is Some <==> spec_slot_readable(input@, *sb, *desc, slot as int),
        r matches Some(inode) ==> inode.decoded_from(
            input@,
            spec_inode_offset(sb.s_log_block_size, sb.s_inode_size, *desc, slot as int),
        ),
{
    match inode_bit(input, sb.s_log_block_size, desc, slot) {
        Some(true) => {},
        _ => {
            return None;
        },
    }
    let table: u32 = desc.bg_inode_table_lo;
    let block_size: u64 = sb.s_log_block_size;
    let inode_size: u16 = sb.s_inode_size;
    assert(table * block_size <= 0xffff_ffff * 0xffff_ffff_ffff_ffff && slot * inode_size
        <= 0xffff_ffff_ffff_ffff * 0xffff) by (nonlinear_arith)
        requires
            0 <= table <= 0xffff_ffff,
            0 <= block_size <= 0xffff_ffff_ffff_ffff,
            0 <= slot <= 0xffff_ffff_ffff_ffff,
            0 <= inode_size <= 0xffff,
    ;
    let at: u128 = (table as u128) * (block_size as u128) + (slot as u128) * (inode_size as u128);
    if at + 160 <= input.len() as u128 {
        Some(Ext4Inode::read_at(input, at as usize))
    } else {
        None
    }
}

/// Whether the inode table of the group lies inside the image.
pub fn inode_table_in_image(input: &[u8], sb: &Ext4SuperBlock, desc: &Ext4GroupDesc) -> (r: bool)
    ensures
        r == spec_inode_table_in_image(input@.len(), *sb, *desc),
{
    let table: u32 = desc.bg_inode_table_lo;
    let block_size: u64 = sb.s_log_block_size;
    let per_group: u32 = sb.s_inodes_per_group;
    let inode_size: u16 = sb.s_inode_size;
    assert(table * block_size <= 0xffff_ffff * 0xffff_ffff_ffff_ffff && per_group * inode_size
        <= 0xffff_ffff * 0xffff) by (nonlinear_arith)
        requires
            0 <= table <= 0xffff_ffff,
            0 <= block_size <= 0xffff_ffff_ffff_ffff,
            0 <= per_group <= 0xffff_ffff,
            0 <= inode_size <= 0xffff,
    ;
    let end: u128 = (table as u128) * (block_size as u128) + (per_group as u128) * (
    inode_size as u128);
    end <= input.len() as u128
}

/// Where the inode table of a group lies inside the image and an inode
/// record fits in an inode slot, every inode of the group that is marked as
/// allocated can be read.
pub proof fn lemma_allocated_slot_is_readable(
    image: Seq<u8>,
    sb: Ext4SuperBlock,
    desc: Ext4GroupDesc,
    slot: int,
)
    requires
        0 <= slot < sb.s_inodes_per_group,
        sb.s_inode_size >= 160,
        spec_inode_table_in_image(image.len(), sb, desc),
        spec_inode_bit(image, sb.s_log_block_size, desc, slot) == Some(true),
    ensures
        spec_slot_readable(image, sb, desc, slot),
{
    let size = sb.s_inode_size as int;
    let per_group = sb.s_inodes_per_group as int;
    assert(slot * size + size <= per_group * size) by (nonlinear_arith)
        requires
            0 <= slot < per_group,
            size >= 0,
    ;
}

} // verus!
