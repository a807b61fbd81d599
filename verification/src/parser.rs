//! Parsers for the regions of an image: the first block with superblock and
//! descriptor table, the bitmaps and inode table of a group, and the inodes
//! of a table.
//!
//! Each parser takes the input from its cursor on and hands back the input
//! behind what it took, the way the record decoders do.

use crate::defs::{Ext4GroupDesc, Ext4Inode, Ext4SuperBlock};
use crate::volume::{
    desc_stride, desc_table_offset, descs_decoded, group_count, image_block_size,
    image_desc_size, image_group_count, open_error, open_volume, spec_desc_stride,
    spec_desc_table_offset,
};
use crate::wire::{le16, le32, take, ParseError};
use vstd::prelude::*;
use vstd::slice::slice_subrange;

verus! {

/// The number of bytes from `current_bytes` to the next multiple of
/// `block_size`; 0 on a multiple.
pub open spec fn spec_block_rest(block_size: u64, current_bytes: u64) -> int {
    (block_size - (current_bytes % block_size)) % (block_size as int)
}

/// Takes the bytes that are left of the block in which `current_bytes`
/// bytes have been consumed: the rest first, the taken bytes second.
pub fn consume_block(input: &[u8], block_size: u64, current_bytes: u64) -> (r: Result<
    (&[u8], &[u8]),
    ParseError,
>)
    requires
        block_size != 0,
    ensures
        r is Ok <==> spec_block_rest(block_size, current_bytes) <= input@.len(),
        r matches Ok((rest, taken)) ==> taken@ == input@.take(
            spec_block_rest(block_size, current_bytes),
        ) && rest@ == input@.skip(spec_block_rest(block_size, current_bytes)),
        r matches Err(e) ==> e == ParseError::TooShort,
{
    let rem: u64 = (block_size - (current_bytes % block_size)) % block_size;
    if rem > input.len() as u64 {
        Err(ParseError::TooShort)
    } else {
        take(input, rem as usize)
    }
}

/// The first block group of an image: its superblock, the group
/// descriptors, and the blocks reserved behind them.
#[derive(Debug)]
pub struct BlockGroupWithSuperBlock<'a> {
    /// The superblock.
    pub super_block: Ext4SuperBlock,
    /// The group descriptors, in order.
    pub group_descs: Vec<Ext4GroupDesc>,
    /// The blocks reserved for more group descriptors.
    pub reserved_gdt_blocks: &'a [u8],
}

/// The regions of a block group.
#[derive(Debug)]
pub struct BlockGroup<'a> {
    /// The block bitmap: one block.
    pub data_block_bitmap: &'a [u8],
    /// The inode bitmap: one bit per inode of the group.
    pub inode_bitmap: &'a [u8],
    /// The inode table: one slot per inode of the group.
    pub inode_table: &'a [u8],
}

/// Where the blocks reserved for more group descriptors start in `image`:
/// at the end of the block in which the descriptor table ends.
pub open spec fn spec_reserved_offset(image: Seq<u8>) -> int {
    let block_size = image_block_size(image);
    let table_len = image_group_count(image) * spec_desc_stride(image_desc_size(image));
    spec_desc_table_offset(block_size) + table_len + spec_block_rest(block_size, table_len as u64)
}

/// Where the reserved blocks end in `image`: as many blocks on as the
/// superblock says.
pub open spec fn spec_reserved_end(image: Seq<u8>) -> int {
    spec_reserved_offset(image) + image_block_size(image) * le16(image, 1230)
}

/// Why the first block group of the image cannot be parsed, or `None` where
/// it can: the reason why the image cannot be opened, else that the image
/// ends before the reserved blocks do.
pub open spec fn block0_error(image: Seq<u8>) -> Option<ParseError> {
    match open_error(image) {
        Some(e) => Some(e),
        None => if spec_reserved_end(image) > image.len() {
            Some(ParseError::TooShort)
        } else {
            None
        },
    }
}

/// Parses the first block group from the start of the image: the
/// superblock at offset 1024, one descriptor per group from the next block
/// on, and the reserved blocks from the block behind the descriptors on.
/// Hands back the input behind the reserved blocks.
pub fn parse_block0(input: &[u8]) -> (r: Result<(&[u8], BlockGroupWithSuperBlock), ParseError>)
    ensures
        match r {
            Ok((rest, group)) => block0_error(input@) is None && group.super_block.decoded_from(
                input@,
                1024,
            ) && descs_decoded(group.group_descs@, group.super_block, input@)
                && group.reserved_gdt_blocks@ == input@.subrange(
                spec_reserved_offset(input@),
                spec_reserved_end(input@),
            ) && rest@ == input@.skip(spec_reserved_end(input@)),
            Err(e) => block0_error(input@) == Some(e),
        },
{
    let (super_block, group_descs) = match open_volume(input) {
        Ok(pair) => pair,
        Err(e) => {
            return Err(e);
        },
    };
    proof {
        crate::defs::lemma_log_of_size(le32(input@, 1048) as nat);
        crate::defs::lemma_size_of_log_at_least(le32(input@, 1048) as nat);
        super_block.lemma_geometry(input@, 1024);
    }
    let block_size: u64 = super_block.s_log_block_size;
    let stride: u16 = desc_stride(super_block.s_desc_size);
    let blocks: u16 = super_block.s_reserved_gdt_blocks;
    let count: u64 = match group_count(&super_block) {
        Some(n) => n as u64,
        None => 0,
    };
    assert(count * stride <= 0xffff_ffff * 0xffff && block_size * blocks
        <= 0xffff_ffff_ffff_ffff * 0xffff) by (nonlinear_arith)
        requires
            0 <= count <= 0xffff_ffff,
            0 <= stride <= 0xffff,
            0 <= block_size <= 0xffff_ffff_ffff_ffff,
            0 <= blocks <= 0xffff,
    ;
    let table_len: u64 = count * (stride as u64);
    let rem: u64 = (block_size - (table_len % block_size)) % block_size;
    let table: u128 = desc_table_offset(block_size);
    let reserved: u128 = table + table_len as u128 + rem as u128;
    let end: u128 = reserved + (block_size as u128) * (blocks as u128);
    if end > input.len() as u128 {
        return Err(ParseError::TooShort);
    }
    let reserved_gdt_blocks = slice_subrange(input, reserved as usize, end as usize);
    let rest = slice_subrange(input, end as usize, input.len());
    Ok((rest, BlockGroupWithSuperBlock { super_block, group_descs, reserved_gdt_blocks }))
}

/// Cuts the regions of a block group out of an image.
pub struct BlockGroupParser {
    block_size: u64,
    inode_bitmap_size: u64,
    inode_table_size: u64,
}

impl BlockGroupParser {
    /// The size of a block.
    pub closed spec fn spec_block_size(&self) -> u64 {
        self.block_size
    }

    /// The size of an inode bitmap in bytes.
    pub closed spec fn spec_inode_bitmap_size(&self) -> u64 {
        self.inode_bitmap_size
    }

    /// The size of an inode table in bytes.
    pub closed spec fn spec_inode_table_size(&self) -> u64 {
        self.inode_table_size
    }

    /// A parser for the groups of a volume with the superblock
    /// `super_block`: the bitmap has one bit per inode of a group, the table
    /// one slot.
    pub fn new(super_block: &Ext4SuperBlock) -> (r: Self)
        ensures
            r.spec_block_size() == super_block.s_log_block_size,
            r.spec_inode_table_size() == super_block.s_inode_size * super_block.s_inodes_per_group,
            r.spec_inode_bitmap_size() == super_block.s_inodes_per_group / 8,
    {
        let inode_size: u16 = super_block.s_inode_size;
        let per_group: u32 = super_block.s_inodes_per_group;
        assert(inode_size * per_group <= 0xffff * 0xffff_ffff) by (nonlinear_arith)
            requires
                0 <= inode_size <= 0xffff,
                0 <= per_group <= 0xffff_ffff,
        ;
        BlockGroupParser {
            block_size: super_block.s_log_block_size,
            inode_table_size: (inode_size as u64) * (per_group as u64),
            inode_bitmap_size: (per_group as u64) / 8,
        }
    }

    /// The `len` bytes of `input` from block `block` on, or `None` where
    /// they do not lie inside `input`.
    fn region<'a>(&self, input: &'a [u8], block: u32, len: u64) -> (r: Option<&'a [u8]>)
        ensures
            r is Some <==> block * self.spec_block_size() + len <= input@.len(),
            r matches Some(s) ==> s@ == input@.subrange(
                block * self.spec_block_size(),
                block * self.spec_block_size() + len,
            ),
    {
        let block_size: u64 = self.block_size;
        assert(block * block_size <= 0xffff_ffff * 0xffff_ffff_ffff_ffff) by (nonlinear_arith)
            requires
                0 <= block <= 0xffff_ffff,
                0 <= block_size <= 0xffff_ffff_ffff_ffff,
        ;
        let start: u128 = (block as u128) * (block_size as u128);
        let end: u128 = start + len as u128;
        if end <= input.len() as u128 {
            Some(slice_subrange(input, start as usize, end as usize))
        } else {
            None
        }
    }

    /// The block bitmap, the inode bitmap and the inode table of the group
    /// of `group_desc`, cut out of `input`, and the input behind the inode
    /// table. Fails exactly when one of the three does not lie inside
    /// `input`.
    pub fn parse<'a>(&self, input: &'a [u8], group_desc: &Ext4GroupDesc) -> (r: Result<
        (&'a [u8], BlockGroup<'a>),
        ParseError,
    >)
        ensures
            r is Ok <==> group_desc.bg_block_bitmap_lo * self.spec_block_size()
                + self.spec_block_size() <= input@.len() && group_desc.bg_inode_bitmap_lo
                * self.spec_block_size() + self.spec_inode_bitmap_size() <= input@.len()
                && group_desc.bg_inode_table_lo * self.spec_block_size()
                + self.spec_inode_table_size() <= input@.len(),
            r matches Ok((rest, group)) ==> {
                let bs = self.spec_block_size();
                &&& group.data_block_bitmap@ == input@.subrange(
                    group_desc.bg_block_bitmap_lo * bs,
                    group_desc.bg_block_bitmap_lo * bs + bs,
                )
                &&& group.inode_bitmap@ == input@.subrange(
                    group_desc.bg_inode_bitmap_lo * bs,
                    group_desc.bg_inode_bitmap_lo * bs + self.spec_inode_bitmap_size(),
                )
                &&& group.inode_table@ == input@.subrange(
                    group_desc.bg_inode_table_lo * bs,
                    group_desc.bg_inode_table_lo * bs + self.spec_inode_table_size(),
                )
                &&& rest@ == input@.skip(
                    group_desc.bg_inode_table_lo * bs + self.spec_inode_table_size(),
                )
            },
            r matches Err(e) ==> e == ParseError::TooShort,
    {
        let data_block_bitmap = match self.region(
            input,
            group_desc.bg_block_bitmap_lo,
            self.block_size,
        ) {
            Some(s) => s,
            None => {
                return Err(ParseError::TooShort);
            },
        };
        let inode_bitmap = match self.region(
            input,
            group_desc.bg_inode_bitmap_lo,
            self.inode_bitmap_size,
        ) {
            Some(s) => s,
            None => {
                return Err(ParseError::TooShort);
            },
        };
        let inode_table = match self.region(
            input,
            group_desc.bg_inode_table_lo,
            self.inode_table_size,
        ) {
            Some(s) => s,
            None => {
                return Err(ParseError::TooShort);
            },
        };
        let block_size: u64 = self.block_size;
        let table: u32 = group_desc.bg_inode_table_lo;
        assert(table * block_size <= 0xffff_ffff * 0xffff_ffff_ffff_ffff) by (nonlinear_arith)
            requires
                0 <= table <= 0xffff_ffff,
                0 <= block_size <= 0xffff_ffff_ffff_ffff,
        ;
        let end: u128 = (table as u128) * (block_size as u128) + self.inode_table_size as u128;
        let rest = slice_subrange(input, end as usize, input.len());
        Ok((rest, BlockGroup { data_block_bitmap, inode_bitmap, inode_table }))
    }
}

/// The bits of `x`, lowest first.
pub fn x_to_bools(x: u8) -> (r: [bool; 8])
    ensures
        forall|k: int| 0 <= k < 8 ==> r@[k] == crate::volume::bit_is_set(x, k as u8),
{
    let r = [
        0x1 & x == 0x1,
        0x2 & x == 0x2,
        0x4 & x == 0x4,
        0x8 & x == 0x8,
        0x10 & x == 0x10,
        0x20 & x == 0x20,
        0x40 & x == 0x40,
        0x80 & x == 0x80,
    ];
    assert((0x1 & x == 0x1) == ((x >> 0u8) & 1 == 1) && (0x2 & x == 0x2) == ((x >> 1u8) & 1 == 1)
        && (0x4 & x == 0x4) == ((x >> 2u8) & 1 == 1) && (0x8 & x == 0x8) == ((x >> 3u8) & 1 == 1)
        && (0x10 & x == 0x10) == ((x >> 4u8) & 1 == 1) && (0x20 & x == 0x20) == ((x >> 5u8) & 1
        == 1) && (0x40 & x == 0x40) == ((x >> 6u8) & 1 == 1) && (0x80 & x == 0x80) == ((x >> 7u8)
        & 1 == 1)) by (bit_vector);
    r
}

/// The bits of a bitmap, byte by byte, the lowest bit of each byte first.
pub fn parse_bitmap(bitmap: &[u8]) -> (r: Vec<bool>)
    ensures
        r@.len() == 8 * bitmap@.len(),
        forall|i: int|
            0 <= i < r@.len() ==> r@[i] == crate::volume::bit_is_set(bitmap@[i / 8], (i % 8) as u8),
{
    let mut out: Vec<bool> = Vec::new();
    let mut n: usize = 0;
    while n < bitmap.len()
        invariant
            n <= bitmap@.len(),
            out@.len() == 8 * n,
            forall|i: int|
                0 <= i < out@.len() ==> out@[i] == crate::volume::bit_is_set(
                    bitmap@[i / 8],
                    (i % 8) as u8,
                ),
        decreases bitmap@.len() - n,
    {
        let bits = x_to_bools(bitmap[n]);
        let mut k: usize = 0;
        while k < 8
            invariant
                k <= 8,
                n < bitmap@.len(),
                out@.len() == 8 * n + k,
                forall|j: int| 0 <= j < 8 ==> bits@[j] == crate::volume::bit_is_set(
                    bitmap@[n as int],
                    j as u8,
                ),
                forall|i: int|
                    0 <= i < out@.len() ==> out@[i] == crate::volume::bit_is_set(
                        bitmap@[i / 8],
                        (i % 8) as u8,
                    ),
            decreases 8 - k,
        {
            out.push(bits[k]);
            k += 1;
        }
        n += 1;
    }
    out
}

/// Reads the inodes of an inode table, slot by slot.
pub struct InodeParser {
    inode_size: u64,
    inode_struct_size: u64,
}

impl InodeParser {
    /// The size of an inode slot.
    pub closed spec fn spec_inode_size(&self) -> u64 {
        self.inode_size
    }

    /// A parser for slots of `inode_size` bytes, which must hold the 160
    /// bytes of an inode record.
    pub fn new(inode_size: u64) -> (r: Self)
        requires
            inode_size >= 160,
        ensures
            r.spec_inode_size() == inode_size,
    {
        InodeParser { inode_size, inode_struct_size: 160 }
    }

    /// The inode in slot `start_at` of the table `input`, and the input
    /// behind that slot. Fails exactly when the slot does not lie inside
    /// `input`.
    pub fn parse<'b>(&self, input: &'b [u8], start_at: usize) -> (r: Result<
        (&'b [u8], Ext4Inode),
        ParseError,
    >)
        ensures
            r is Ok <==> (start_at + 1) * self.spec_inode_size() <= input@.len(),
            r matches Ok((rest, inode)) ==> inode.decoded_from(
                input@,
                start_at * self.spec_inode_size(),
            ) && rest@ == input@.skip((start_at + 1) * self.spec_inode_size()),
            r matches Err(e) ==> e == ParseError::TooShort,
    {
        proof {
            use_type_invariant(self);
        }
        let size: u64 = self.inode_size;
        assert(start_at * size <= 0xffff_ffff_ffff_ffff * 0xffff_ffff_ffff_ffff && (start_at + 1)
            * size == start_at * size + size) by (nonlinear_arith)
            requires
                0 <= start_at <= 0xffff_ffff_ffff_ffff,
                0 <= size <= 0xffff_ffff_ffff_ffff,
        ;
        let start: u128 = (start_at as u128) * (size as u128);
        let end: u128 = start + size as u128;
        if end > input.len() as u128 {
            return Err(ParseError::TooShort);
        }
        let inode = Ext4Inode::read_at(input, start as usize);
        let rest = slice_subrange(input, end as usize, input.len());
        Ok((rest, inode))
    }

    #[verifier::type_invariant]
    spec fn inv(self) -> bool {
        self.inode_size >= 160 && self.inode_struct_size == 160
    }
}

} // verus!
