//! A volume opened from an image, with its block groups.
//!
//! Opening reads the superblock and the table of group descriptors. An
//! inode is then found by its number through the bitmap and the inode table
//! of its group, and its content through the extent tree in its block region.

use crate::defs::{BlockContents, Ext4GroupDesc, Ext4Inode, Ext4SuperBlock, RoCompatFeatures};
use crate::volume::{
    descs_decoded, group_count, inode_bit, inode_table_in_image, lemma_allocated_slot_is_readable,
    locate_inode, open_error, open_volume, read_inode_in_group, spec_inode_bit, spec_inode_group,
    spec_inode_offset, spec_inode_slot, spec_inode_table_in_image, spec_slot_readable,
};
use crate::wire::ParseError;
use vstd::prelude::*;

verus! {

/// A block group: its descriptor, and what is known of the copy of the
/// superblock in it, where it holds one.
#[derive(Debug)]
pub struct BlockGroup {
    /// The descriptor of the group.
    pub group_desc: Ext4GroupDesc,
    /// How many blocks the copies of the descriptor table take, where the
    /// group holds a copy of the superblock.
    pub super_block_info: Option<SuperBlockInfo>,
}

/// The blocks that follow a copy of the superblock.
#[derive(Clone, Copy, Debug, PartialEq, Eq, Structural)]
pub struct SuperBlockInfo {
    /// Number of blocks that the table of group descriptors takes.
    pub group_descs_block_num: u64,
    /// Number of blocks reserved for more group descriptors.
    pub reserved_gdt_block_num: u64,
}

impl SuperBlockInfo {
    /// What `from_super_block` makes of `sb`.
    pub open spec fn spec_from_super_block(sb: Ext4SuperBlock) -> SuperBlockInfo {
        let groups = crate::volume::spec_group_count(sb.s_blocks_count_lo, sb.s_blocks_per_group);
        SuperBlockInfo {
            group_descs_block_num: ((groups * sb.s_desc_size + sb.s_log_block_size - 1) / (
            sb.s_log_block_size as int)) as u64,
            reserved_gdt_block_num: sb.s_reserved_gdt_blocks as u64,
        }
    }

    /// The number of blocks that the descriptors of all groups take, rounded
    /// up, and the number of blocks reserved behind them.
    pub fn from_super_block(super_block: &Ext4SuperBlock) -> (r: Self)
        requires
            super_block.s_blocks_per_group != 0,
            super_block.s_log_block_size != 0,
        ensures
            r == Self::spec_from_super_block(*super_block),
    {
        let groups: u32 = match group_count(super_block) {
            Some(n) => n,
            None => 0,
        };
        let desc_size: u16 = super_block.s_desc_size;
        let block_size: u64 = super_block.s_log_block_size;
        assert(groups * desc_size <= 0xffff_ffff * 0xffff) by (nonlinear_arith)
            requires
                0 <= groups <= 0xffff_ffff,
                0 <= desc_size <= 0xffff,
        ;
        let bytes: u128 = (groups as u128) * (desc_size as u128);
        let blocks: u128 = (bytes + (block_size as u128) - 1) / (block_size as u128);
        assert(blocks <= bytes) by (nonlinear_arith)
            requires
                blocks == (bytes + block_size - 1) / (block_size as int),
                block_size >= 1,
                bytes >= 0,
        ;
        SuperBlockInfo {
            group_descs_block_num: blocks as u64,
            reserved_gdt_block_num: super_block.s_reserved_gdt_blocks as u64,
        }
    }
}

/// `b` multiplied by itself `k` times.
pub open spec fn power(b: nat, k: nat) -> nat
    decreases k,
{
    if k == 0 {
        1
    } else {
        b * power(b, (k - 1) as nat)
    }
}

/// Whether `n` is a power of `b`: some `b` multiplied by itself; for the
/// bases 0 and 1, whether `n` is the base.
pub open spec fn spec_is_power_of(n: u64, b: u64) -> bool {
    if b == 0 {
        n == 0
    } else if b == 1 {
        n == 1
    } else {
        exists|k: nat| n == #[trigger] power(b as nat, k)
    }
}

proof fn lemma_power_step(b: nat, m: nat)
    requires
        b >= 2,
        m >= 1,
    ensures
        (exists|k: nat| b * m == #[trigger] power(b, k)) <==> (exists|k: nat|
            m == #[trigger] power(b, k)),
{
    if exists|k: nat| m == #[trigger] power(b, k) {
        let k = choose|k: nat| m == #[trigger] power(b, k);
        assert(b * m == power(b, k + 1));
    }
    if exists|k: nat| b * m == #[trigger] power(b, k) {
        let k = choose|k: nat| b * m == #[trigger] power(b, k);
        assert(k != 0) by (nonlinear_arith)
            requires
                b >= 2,
                m >= 1,
                b * m == power(b, k),
                power(b, 0) == 1,
        ;
        let below = power(b, (k - 1) as nat);
        assert(m == below) by (nonlinear_arith)
            requires
                b >= 2,
                b * m == b * below,
        ;
    }
}

proof fn lemma_power_divides(b: nat, k: nat)
    requires
        b >= 2,
        k >= 1,
    ensures
        power(b, k) % b == 0,
{
    let below = power(b, (k - 1) as nat);
    assert((b * below) % b == 0) by (nonlinear_arith)
        requires
            b >= 2,
    ;
}

/// Whether `n` is a power of `b`.
pub fn is_power_of(n: u64, b: u64) -> (r: bool)
    ensures
        r == spec_is_power_of(n, b),
{
    if b == 0 {
        return n == 0;
    }
    if b == 1 {
        return n == 1;
    }
    if n == 0 {
        proof {
            assert forall|k: nat| 0 != #[trigger] power(b as nat, k) by {
                lemma_power_positive(b as nat, k);
            }
        }
        return false;
    }
    let mut cur: u64 = n;
    while cur % b == 0
        invariant
            b >= 2,
            cur >= 1,
            spec_is_power_of(cur, b) == spec_is_power_of(n, b),
        decreases cur,
    {
        let next: u64 = cur / b;
        proof {
            assert(next >= 1 && next < cur && b * next == cur) by (nonlinear_arith)
                requires
                    cur >= 1,
                    b >= 2,
                    cur % b == 0,
                    next == cur / b,
            ;
            lemma_power_step(b as nat, next as nat);
        }
        cur = next;
    }
    proof {
        if cur != 1 && spec_is_power_of(cur, b) {
            let k = choose|k: nat| cur == #[trigger] power(b as nat, k);
            lemma_power_divides(b as nat, k);
        }
        if cur == 1 {
            assert(cur == power(b as nat, 0));
        }
    }
    cur == 1
}

proof fn lemma_power_positive(b: nat, k: nat)
    requires
        b >= 1,
    ensures
        power(b, k) >= 1,
    decreases k,
{
    if k > 0 {
        lemma_power_positive(b, (k - 1) as nat);
        assert(b * power(b, (k - 1) as nat) >= 1) by (nonlinear_arith)
            requires
                b >= 1,
                power(b, (k - 1) as nat) >= 1,
        ;
    }
}

/// Whether group `index` holds a copy of the superblock.
pub open spec fn spec_has_super_block(is_sparse: bool, index: usize) -> bool {
    is_sparse || index == 0 || spec_is_power_of(index as u64, 3) || spec_is_power_of(
        index as u64,
        5,
    ) || spec_is_power_of(index as u64, 7)
}

/// Whether group `index` holds a copy of the superblock: every group of a
/// sparse volume, else group 0 and the groups whose index is a power of 3, 5
/// or 7.
pub fn has_super_block(is_sparse: bool, index: usize) -> (r: bool)
    ensures
        r == spec_has_super_block(is_sparse, index),
{
    is_sparse || index == 0 || is_power_of(index as u64, 3) || is_power_of(index as u64, 5)
        || is_power_of(index as u64, 7)
}

/// A volume: the image, its superblock and its block groups.
pub struct Ext4Fs<'a> {
    /// The superblock.
    pub super_block: Ext4SuperBlock,
    /// The block groups, in order.
    pub block_groups: Vec<BlockGroup>,
    /// The image.
    pub file: &'a [u8],
}

/// The descriptors of the groups, in order.
pub open spec fn group_descs(groups: Seq<BlockGroup>) -> Seq<Ext4GroupDesc> {
    Seq::new(groups.len(), |g: int| groups[g].group_desc)
}

impl<'a> Ext4Fs<'a> {
    /// Whether the superblock says that the volume is sparse.
    pub open spec fn spec_is_sparse(&self) -> bool {
        self.super_block.s_feature_ro_compat.spec_bits() & RoCompatFeatures::SPARSE_SUPER
            == RoCompatFeatures::SPARSE_SUPER
    }

    /// Whether the inode `i_no` is found: its number is not 0, its group
    /// exists, it is marked as allocated, and its record lies inside the
    /// image.
    pub open spec fn spec_inode_found(&self, i_no: u64) -> bool {
        let sb = self.super_block;
        let group = spec_inode_group(sb.s_inodes_per_group, i_no);
        &&& i_no >= 1
        &&& sb.s_inodes_per_group != 0
        &&& group < self.block_groups@.len()
        &&& spec_slot_readable(
            self.file@,
            sb,
            self.block_groups@[group].group_desc,
            spec_inode_slot(sb.s_inodes_per_group, i_no),
        )
    }

    /// Where the record of the inode `i_no` starts in the image.
    pub open spec fn spec_inode_at(&self, i_no: u64) -> int {
        let sb = self.super_block;
        spec_inode_offset(
            sb.s_log_block_size,
            sb.s_inode_size,
            self.block_groups@[spec_inode_group(sb.s_inodes_per_group, i_no)].group_desc,
            spec_inode_slot(sb.s_inodes_per_group, i_no),
        )
    }

    /// Opens the image as a volume: reads the superblock at offset 1024,
    /// checks its magic number, and reads one descriptor per block group
    /// from the block behind the superblock.
    pub fn from_file(input: &'a [u8]) -> (r: Result<Self, ParseError>)
        ensures
            match r {
                Ok(fs) => open_error(input@) is None && fs.file@ == input@
                    && fs.super_block.decoded_from(input@, 1024)
                    && fs.super_block.s_magic == 0xEF53 && descs_decoded(
                    group_descs(fs.block_groups@),
                    fs.super_block,
                    input@,
                ) && forall|g: int|
                    0 <= g < fs.block_groups@.len() ==> (
                    #[trigger] fs.block_groups@[g]).super_block_info == (if spec_has_super_block(
                        fs.spec_is_sparse(),
                        g as usize,
                    ) {
                        Some(SuperBlockInfo::spec_from_super_block(fs.super_block))
                    } else {
                        None
                    }),
                Err(e) => open_error(input@) == Some(e),
            },
    {
        match open_volume(input) {
            Err(e) => Err(e),
            Ok((super_block, descs)) => {
                let mut fs = Ext4Fs { super_block, block_groups: Vec::new(), file: input };
                proof {
                    crate::defs::lemma_size_of_log_at_least(
                        crate::wire::le32(input@, 1048) as nat,
                    );
                    super_block.lemma_geometry(input@, 1024);
                }
                let groups = fs.parse_groups(descs);
                fs.block_groups = groups;
                assert(group_descs(fs.block_groups@) =~= descs@);
                Ok(fs)
            },
        }
    }

    /// Whether the superblock says that the volume is sparse.
    pub fn is_sparse(&self) -> (r: bool)
        ensures
            r == self.spec_is_sparse(),
    {
        self.super_block.s_feature_ro_compat.contains(RoCompatFeatures::SPARSE_SUPER)
    }

    /// The block groups of the descriptors, each with what is known of its
    /// copy of the superblock.
    fn parse_groups(&self, descs: Vec<Ext4GroupDesc>) -> (r: Vec<BlockGroup>)
        requires
            self.super_block.s_blocks_per_group != 0,
            self.super_block.s_log_block_size != 0,
        ensures
            group_descs(r@) == descs@,
            forall|g: int|
                0 <= g < r@.len() ==> (#[trigger] r@[g]).super_block_info == (
                if spec_has_super_block(self.spec_is_sparse(), g as usize) {
                    Some(SuperBlockInfo::spec_from_super_block(self.super_block))
                } else {
                    None
                }),
    {
        let mut ret: Vec<BlockGroup> = Vec::new();
        let info = SuperBlockInfo::from_super_block(&self.super_block);
        let is_sparse = self.is_sparse();
        let mut index: usize = 0;
        while index < descs.len()
            invariant
                index <= descs@.len(),
                ret@.len() == index,
                is_sparse == self.spec_is_sparse(),
                info == SuperBlockInfo::spec_from_super_block(self.super_block),
                forall|g: int| 0 <= g < index ==> (#[trigger] ret@[g]).group_desc == descs@[g],
                forall|g: int|
                    0 <= g < index ==> (#[trigger] ret@[g]).super_block_info == (
                    if spec_has_super_block(is_sparse, g as usize) {
                        Some(info)
                    } else {
                        None
                    }),
            decreases descs@.len() - index,
        {
            let group = BlockGroup {
                group_desc: descs[index],
                super_block_info: if has_super_block(is_sparse, index) {
                    Some(info)
                } else {
                    None
                },
            };
            ret.push(group);
            index += 1;
        }
        assert(group_descs(ret@) =~= descs@);
        ret
    }

    /// The size of a block in bytes.
    pub fn block_size(&self) -> (r: u64)
        ensures
            r == self.super_block.s_log_block_size,
    {
        self.super_block.s_log_block_size
    }

    /// The size of an inode slot in bytes.
    pub fn inode_size(&self) -> (r: u16)
        ensures
            r == self.super_block.s_inode_size,
    {
        self.super_block.s_inode_size
    }

    /// The number of inodes of a group.
    pub fn inodes_per_group(&self) -> (r: u32)
        ensures
            r == self.super_block.s_inodes_per_group,
    {
        self.super_block.s_inodes_per_group
    }

    /// The descriptor of group `index`, or `None` where there is no such
    /// group.
    pub fn group_desc(&self, index: usize) -> (r: Option<&Ext4GroupDesc>)
        ensures
            r is Some <==> index < self.block_groups@.len(),
            r matches Some(d) ==> *d == self.block_groups@[index as int].group_desc,
    {
        if index < self.block_groups.len() {
            Some(&self.block_groups[index].group_desc)
        } else {
            None
        }
    }

    /// Whether the image is as long as the superblock says: the block size
    /// times the number of blocks.
    pub fn size_matches(&self) -> (r: bool)
        ensures
            r == (self.super_block.s_log_block_size
                * self.super_block.s_blocks_count_lo == self.file@.len()),
    {
        let block_size: u64 = self.super_block.s_log_block_size;
        let blocks: u32 = self.super_block.s_blocks_count_lo;
        assert(block_size * blocks <= 0xffff_ffff_ffff_ffff * 0xffff_ffff) by (nonlinear_arith)
            requires
                0 <= block_size <= 0xffff_ffff_ffff_ffff,
                0 <= blocks <= 0xffff_ffff,
        ;
        (block_size as u128) * (blocks as u128) == self.file.len() as u128
    }

    /// Whether the inode table of every group lies inside the image.
    pub fn inode_tables_in_image(&self) -> (r: bool)
        ensures
            r == forall|g: int|
                0 <= g < self.block_groups@.len() ==> spec_inode_table_in_image(
                    self.file@.len(),
                    self.super_block,
                    (#[trigger] self.block_groups@[g]).group_desc,
                ),
    {
        let mut g: usize = 0;
        while g < self.block_groups.len()
            invariant
                g <= self.block_groups@.len(),
                forall|k: int|
                    0 <= k < g ==> spec_inode_table_in_image(
                        self.file@.len(),
                        self.super_block,
                        (#[trigger] self.block_groups@[k]).group_desc,
                    ),
            decreases self.block_groups@.len() - g,
        {
            if !inode_table_in_image(self.file, &self.super_block, &self.block_groups[g].group_desc) {
                return false;
            }
            g += 1;
        }
        true
    }

    /// The inode `i_no`, or `None` where it is not found.
    pub fn get_inode(&self, i_no: u64) -> (r: Option<Ext4Inode>)
        ensures
            r is Some <==> self.spec_inode_found(i_no),
            r matches Some(inode) ==> inode.decoded_from(self.file@, self.spec_inode_at(i_no)),
    {
        let (group, slot) = match locate_inode(self.super_block.s_inodes_per_group, i_no) {
            Some(place) => place,
            None => {
                return None;
            },
        };
        if group >= self.block_groups.len() as u64 {
            return None;
        }
        let block_group: &BlockGroup = &self.block_groups[group as usize];
        read_inode_in_group(self.file, &self.super_block, &block_group.group_desc, slot)
    }

    /// The content of `inode` in this volume, by its kind.
    pub fn get_inode_block_contents(&self, inode: &Ext4Inode) -> (r: Option<BlockContents<'a>>)
        ensures
            match inode.i_mode.ty {
                crate::defs::FileType::Symlink => r matches Some(BlockContents::InliedData(v))
                    && v@ == inode.spec_inline_target(),
                crate::defs::FileType::Regular => r matches Some(BlockContents::Data(c))
                    && c.ranges() == inode.spec_data_ranges(
                    self.file@,
                    self.super_block.s_log_block_size as nat,
                ) && c.index() == 0 && c.offset() == 0,
                crate::defs::FileType::Dir => r matches Some(BlockContents::Dentries(c))
                    && c.ranges() == inode.spec_data_ranges(
                    self.file@,
                    self.super_block.s_log_block_size as nat,
                ) && c.index() == 0 && c.offset() == 0,
                _ => r is None,
            },
    {
        inode.get_i_block_contents(self.file, self.super_block.s_log_block_size)
    }

    /// The bit of the inode bitmap of `group_desc` for the inode in place
    /// `offset_in_block` of that group: `None` where the image ends before
    /// the byte that holds it.
    pub fn get_inode_bit(&self, offset_in_block: u64, group_desc: &BlockGroup) -> (r: Option<bool>)
        ensures
            r == spec_inode_bit(
                self.file@,
                self.super_block.s_log_block_size,
                group_desc.group_desc,
                offset_in_block as int,
            ),
    {
        inode_bit(
            self.file,
            self.super_block.s_log_block_size,
            &group_desc.group_desc,
            offset_in_block,
        )
    }

    /// Where the inode table of its group lies inside the image and an
    /// inode record fits in a slot, an inode whose number is in range and
    /// whose bit is set is found.
    pub proof fn lemma_allocated_inode_is_found(&self, i_no: u64)
        requires
            i_no >= 1,
            self.super_block.s_inodes_per_group != 0,
            self.super_block.s_inode_size >= 160,
            spec_inode_group(self.super_block.s_inodes_per_group, i_no)
                < self.block_groups@.len(),
            spec_inode_table_in_image(
                self.file@.len(),
                self.super_block,
                self.block_groups@[spec_inode_group(
                    self.super_block.s_inodes_per_group,
                    i_no,
                )].group_desc,
            ),
            spec_inode_bit(
                self.file@,
                self.super_block.s_log_block_size,
                self.block_groups@[spec_inode_group(
                    self.super_block.s_inodes_per_group,
                    i_no,
                )].group_desc,
                spec_inode_slot(self.super_block.s_inodes_per_group, i_no),
            ) == Some(true),
        ensures
            self.spec_inode_found(i_no),
    {
        let sb = self.super_block;
        lemma_allocated_slot_is_readable(
            self.file@,
            sb,
            self.block_groups@[spec_inode_group(sb.s_inodes_per_group, i_no)].group_desc,
            spec_inode_slot(sb.s_inodes_per_group, i_no),
        );
    }
}

} // verus!
