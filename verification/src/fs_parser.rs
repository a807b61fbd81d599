//! A volume opened from an image, with its group descriptors as a plain
//! list.
//!
//! This is the plain form of `group::Ext4Fs`: it keeps the descriptors as
//! they were read and nothing about copies of the superblock.

use crate::defs::{BlockContents, Ext4GroupDesc, Ext4Inode, Ext4SuperBlock, RoCompatFeatures};
use crate::volume::{
    descs_decoded, inode_bit, locate_inode, open_error, open_volume, read_inode_in_group,
    spec_inode_bit, spec_inode_group, spec_inode_offset, spec_inode_slot, spec_slot_readable,
};
use crate::wire::ParseError;
use vstd::prelude::*;

verus! {

/// A volume: the image, its superblock and its group descriptors.
pub struct Ext4Fs<'a> {
    /// The superblock.
    pub super_block: Ext4SuperBlock,
    /// The group descriptors, in order.
    pub group_descs: Vec<Ext4GroupDesc>,
    /// The image.
    pub file: &'a [u8],
}

impl<'a> Ext4Fs<'a> {
    /// Whether the superblock says that the volume is sparse.
    pub open spec fn spec_is_sparse(&self) -> bool {
        self.super_block.s_feature_ro_compat.spec_bits() & RoCompatFeatures::SPARSE_SUPER
            == RoCompatFeatures::SPARSE_SUPER
    }

    /// Whether the inode `i_no` is found: its number is not 0, its group
    /// exists, it is marked as allocated, and its record lies inside the
    /// image.
    pub open spec fn spec_inode_found(&self, i_no: u64) -> bool {
        let sb = self.super_block;
        let group = spec_inode_group(sb.s_inodes_per_group, i_no);
        &&& i_no >= 1
        &&& sb.s_inodes_per_group != 0
        &&& group < self.group_descs@.len()
        &&& spec_slot_readable(
            self.file@,
            sb,
            self.group_descs@[group],
            spec_inode_slot(sb.s_inodes_per_group, i_no),
        )
    }

    /// Where the record of the inode `i_no` starts in the image.
    pub open spec fn spec_inode_at(&self, i_no: u64) -> int {
        let sb = self.super_block;
        spec_inode_offset(
            sb.s_log_block_size,
            sb.s_inode_size,
            self.group_descs@[spec_inode_group(sb.s_inodes_per_group, i_no)],
            spec_inode_slot(sb.s_inodes_per_group, i_no),
        )
    }

    /// Opens the image as a volume: reads the superblock at offset 1024,
    /// checks its magic number, and reads one descriptor per block group
    /// from the block behind the superblock.
    pub fn from_file(input: &'a [u8]) -> (r: Result<Self, ParseError>)
        ensures
            match r {
                Ok(fs) => open_error(input@) is None && fs.file@ == input@
                    && fs.super_block.decoded_from(input@, 1024) && fs.super_block.s_magic
                    == 0xEF53 && descs_decoded(fs.group_descs@, fs.super_block, input@),
                Err(e) => open_error(input@) == Some(e),
            },
    {
        match open_volume(input) {
            Err(e) => Err(e),
            Ok((super_block, group_descs)) => Ok(Ext4Fs { super_block, group_descs, file: input }),
        }
    }

    /// Whether the superblock says that the volume is sparse.
    pub fn is_sparse(&self) -> (r: bool)
        ensures
            r == self.spec_is_sparse(),
    {
        self.super_block.s_feature_ro_compat.contains(RoCompatFeatures::SPARSE_SUPER)
    }

    /// The inode `i_no`, or `None` where it is not found.
    pub fn get_inode(&self, i_no: u64) -> (r: Option<Ext4Inode>)
        ensures
            r is Some <==> self.spec_inode_found(i_no),
            r matches Some(inode) ==> inode.decoded_from(self.file@, self.spec_inode_at(i_no)),
    {
        let (group, slot) = match locate_inode(self.super_block.s_inodes_per_group, i_no) {
            Some(place) => place,
            None => {
                return None;
            },
        };
        if group >= self.group_descs.len() as u64 {
            return None;
        }
        read_inode_in_group(self.file, &self.super_block, &self.group_descs[group as usize], slot)
    }

    /// The content of `inode` in this volume, by its kind.
    pub fn get_inode_block_contents(&self, inode: &Ext4Inode) -> (r: Option<BlockContents<'a>>)
        ensures
            match inode.i_mode.ty {
                crate::defs::FileType::Symlink => r matches Some(BlockContents::InliedData(v))
                    && v@ == inode.spec_inline_target(),
                crate::defs::FileType::Regular => r matches Some(BlockContents::Data(c))
                    && c.ranges() == inode.spec_data_ranges(
                    self.file@,
                    self.super_block.s_log_block_size as nat,
                ) && c.index() == 0 && c.offset() == 0,
                crate::defs::FileType::Dir => r matches Some(BlockContents::Dentries(c))
                    && c.ranges() == inode.spec_data_ranges(
                    self.file@,
                    self.super_block.s_log_block_size as nat,
                ) && c.index() == 0 && c.offset() == 0,
                _ => r is None,
            },
    {
        inode.get_i_block_contents(self.file, self.super_block.s_log_block_size)
    }

    /// The bit of the inode bitmap of `group_desc` for the inode in place
    /// `offset_in_block` of that group: `None` where the image ends before
    /// the byte that holds it.
    pub fn get_inode_bit(&self, offset_in_block: u64, group_desc: &Ext4GroupDesc) -> (r: Option<
        bool,
    >)
        ensures
            r == spec_inode_bit(
                self.file@,
                self.super_block.s_log_block_size,
                *group_desc,
                offset_in_block as int,
            ),
    {
        inode_bit(self.file, self.super_block.s_log_block_size, group_desc, offset_in_block)
    }
}

} // verus!
