use rext4::defs::{
    BlockContents, Ext4DirEntry, Ext4Extent, Ext4ExtentHeader, Ext4ExtentIdx, Ext4Inode,
    Ext4SuperBlock, FileType,
};
use rext4::group::{Ext4Fs, SuperBlockInfo};
use rext4::parser::{parse_block0, BlockGroupParser};
use rext4::volume::{
    group_count, inode_bit, inode_size_in_range, locate_inode, open_volume, unsupported_incompat,
};
use rext4::walk::{children, should_visit, TreeWalk};
use rext4::wire::ParseError;

const BS: usize = 1024;
const BLOCKS: usize = 64;
const INODE_SIZE: usize = 256;
const INODE_TABLE: usize = 5;

fn put(image: &mut [u8], at: usize, bytes: &[u8]) {
    image[at..at + bytes.len()].copy_from_slice(bytes);
}

fn header(entries: u16, depth: u16) -> Vec<u8> {
    let mut out = Vec::new();
    Ext4ExtentHeader { eh_magic: 0xF30A, eh_entries: entries, eh_max: 4, eh_depth: depth, eh_generation: 0 }
        .encode(&mut out);
    out
}

fn leaf(logical: u32, len: u16, phys: u32) -> Vec<u8> {
    let mut out = Vec::new();
    Ext4Extent { ee_block: logical, ee_len: len, ee_start_hi: 0, ee_start_lo: phys }.encode(&mut out);
    out
}

fn index(logical: u32, block: u32) -> Vec<u8> {
    let mut out = Vec::new();
    Ext4ExtentIdx { ei_block: logical, ei_leaf_lo: block, ei_leaf_hi: 0, ei_unused: 0 }.encode(&mut out);
    out
}

fn set_inode(image: &mut [u8], number: usize, mode: u16, size: u32, flags: u32, block: &[u8]) {
    let at = INODE_TABLE * BS + (number - 1) * INODE_SIZE;
    put(image, at, &mode.to_le_bytes());
    put(image, at + 4, &size.to_le_bytes());
    put(image, at + 32, &flags.to_le_bytes());
    put(image, at + 40, block);
    image[4 * BS + (number - 1) / 8] |= 1 << ((number - 1) % 8);
}

fn dir_block(entries: &[(u32, &[u8], u8)]) -> Vec<u8> {
    let mut block = Vec::new();
    for (i, (inode, name, kind)) in entries.iter().enumerate() {
        let aligned = (8 + name.len() + 3) / 4 * 4;
        let rec_len = if i + 1 == entries.len() { BS - block.len() } else { aligned };
        let mut bytes = [0u8; 255];
        bytes[..name.len()].copy_from_slice(name);
        Ext4DirEntry {
            inode: *inode,
            rec_len: rec_len as u16,
            name_len: name.len() as u8,
            file_type: *kind,
            name: bytes,
        }
        .encode(&mut block);
    }
    block
}

const EXTENTS: u32 = 0x0008_0000;

/// A volume of 64 blocks of 1 KiB with one group of 32 inodes.
fn image() -> Vec<u8> {
    let mut image = vec![0u8; BS * BLOCKS];
    let (_, mut sb) = Ext4SuperBlock::parse(&[0u8; 1024]).unwrap();
    sb.s_inodes_count = 32;
    sb.s_blocks_count_lo = BLOCKS as u32;
    sb.s_log_block_size = 1024;
    sb.s_blocks_per_group = 8192;
    sb.s_inodes_per_group = 32;
    sb.s_magic = 0xEF53;
    sb.s_inode_size = INODE_SIZE as u16;
    sb.s_desc_size = 64;
    sb.s_reserved_gdt_blocks = 1;
    put(&mut image, 1024, &sb.encode().unwrap());
    put(&mut image, 2048, &3u32.to_le_bytes());
    put(&mut image, 2052, &4u32.to_le_bytes());
    put(&mut image, 2056, &(INODE_TABLE as u32).to_le_bytes());

    let mut root = header(1, 0);
    root.extend(leaf(0, 1, 20));
    set_inode(&mut image, 2, 0x41ED, 1024, EXTENTS, &root);
    put(
        &mut image,
        20 * BS,
        &dir_block(&[
            (2, b".", 2),
            (2, b"..", 2),
            (0, b"gone", 1),
            (12, b"hello.txt", 1),
            (13, b"sub", 2),
            (14, b"link", 7),
        ]),
    );

    let mut file = header(1, 0);
    file.extend(leaf(0, 1, 21));
    set_inode(&mut image, 12, 0x81A4, 1024, EXTENTS, &file);
    for i in 0..BS {
        image[21 * BS + i] = (i % 251) as u8;
    }

    let mut sub = header(1, 0);
    sub.extend(leaf(0, 1, 22));
    set_inode(&mut image, 13, 0x41ED, 1024, EXTENTS, &sub);
    put(&mut image, 22 * BS, &dir_block(&[(13, b".", 2), (2, b"..", 2), (15, b"deep.txt", 1)]));

    set_inode(&mut image, 14, 0xA1FF, 11, 0, b"hello/world");

    set_inode(&mut image, 15, 0x81A4, 0, EXTENTS, &header(0, 0));

    let mut two_level = header(1, 1);
    two_level.extend(index(0, 30));
    set_inode(&mut image, 16, 0x81A4, 7 * 1024, EXTENTS, &two_level);
    let mut node = header(3, 0);
    node.extend(leaf(0, 2, 40));
    node.extend(leaf(2, 1, 45));
    node.extend(leaf(3, 4, 50));
    put(&mut image, 30 * BS, &node);
    for block in 40..54 {
        for i in 0..BS {
            image[block * BS + i] = block as u8;
        }
    }

    let mut corrupt = header(2, 1);
    corrupt.extend(index(0, 31));
    corrupt.extend(index(7, 30));
    set_inode(&mut image, 17, 0x81A4, 7 * 1024, EXTENTS, &corrupt);
    put(&mut image, 31 * BS, &[0xFF; 24]);

    set_inode(&mut image, 18, 0x1180, 0, 0, &[]);

    let mut three_level = header(1, 2);
    three_level.extend(index(0, 32));
    set_inode(&mut image, 19, 0x81A4, 7 * 1024, EXTENTS, &three_level);
    let mut middle = header(1, 1);
    middle.extend(index(0, 30));
    put(&mut image, 32 * BS, &middle);
    image
}

fn ranges_of(fs: &Ext4Fs, number: u64) -> Vec<Vec<u8>> {
    let inode = fs.get_inode(number).unwrap();
    let mut chain = inode.read_block::<u8>(fs.file, fs.block_size());
    let all = chain.read_all();
    assert_eq!(chain.drain(), all);
    let mut out = Vec::new();
    for extent_bytes in all.chunks(BS) {
        out.push(extent_bytes.to_vec());
    }
    out
}

#[test]
fn opens_a_volume() {
    let image = image();
    let fs = Ext4Fs::from_file(&image).unwrap();
    assert_eq!(fs.block_size(), 1024);
    assert_eq!(fs.inode_size(), 256);
    assert_eq!(fs.inodes_per_group(), 32);
    assert_eq!(fs.block_groups.len(), 1);
    assert_eq!(fs.group_desc(0).unwrap().bg_inode_table_lo, 5);
    assert_eq!(fs.group_desc(0).unwrap().bg_inode_bitmap_lo, 4);
    assert!(fs.group_desc(1).is_none());
    assert!(fs.size_matches());
    assert!(fs.inode_tables_in_image());
    assert!(!fs.is_sparse());
    assert_eq!(
        fs.block_groups[0].super_block_info,
        Some(SuperBlockInfo { group_descs_block_num: 1, reserved_gdt_block_num: 1 })
    );
}

#[test]
fn image_too_short_for_a_superblock() {
    let image = image();
    assert!(matches!(Ext4Fs::from_file(&image[..2047]), Err(ParseError::TooShort)));
    assert!(matches!(Ext4Fs::from_file(&[]), Err(ParseError::TooShort)));
}

#[test]
fn image_with_wrong_magic() {
    let mut image = image();
    image[1024 + 56] = 0x54;
    assert!(matches!(Ext4Fs::from_file(&image), Err(ParseError::BadMagic)));
}

#[test]
fn image_with_bad_geometry() {
    let mut no_blocks_per_group = image();
    put(&mut no_blocks_per_group, 1024 + 32, &0u32.to_le_bytes());
    assert!(matches!(Ext4Fs::from_file(&no_blocks_per_group), Err(ParseError::BadGeometry)));
    let mut huge_blocks = image();
    put(&mut huge_blocks, 1024 + 24, &60u32.to_le_bytes());
    assert!(matches!(Ext4Fs::from_file(&huge_blocks), Err(ParseError::BadGeometry)));
}

#[test]
fn image_too_short_for_its_descriptors() {
    let mut image = image();
    put(&mut image, 1024 + 32, &1u32.to_le_bytes());
    put(&mut image, 1024 + 4, &100_000u32.to_le_bytes());
    assert!(matches!(Ext4Fs::from_file(&image), Err(ParseError::TooShort)));
}

#[test]
fn descriptors_start_behind_the_block_of_the_superblock() {
    let mut image = vec![0u8; 4096 * 4];
    let (_, mut sb) = Ext4SuperBlock::parse(&[0u8; 1024]).unwrap();
    sb.s_blocks_count_lo = 4;
    sb.s_log_block_size = 4096;
    sb.s_blocks_per_group = 2;
    sb.s_inodes_per_group = 8;
    sb.s_magic = 0xEF53;
    sb.s_inode_size = 256;
    sb.s_desc_size = 128;
    put(&mut image, 1024, &sb.encode().unwrap());
    put(&mut image, 4096 + 8, &7u32.to_le_bytes());
    put(&mut image, 4096 + 128 + 8, &9u32.to_le_bytes());
    let (sb, descs) = open_volume(&image).unwrap();
    assert_eq!(group_count(&sb), Some(2));
    assert_eq!(descs.len(), 2);
    assert_eq!(descs[0].bg_inode_table_lo, 7);
    assert_eq!(descs[1].bg_inode_table_lo, 9);
    let fs = Ext4Fs::from_file(&image).unwrap();
    assert!(fs.size_matches());
    assert!(!fs.inode_tables_in_image());
    assert_eq!(fs.block_groups[0].super_block_info.unwrap().group_descs_block_num, 1);
    assert!(fs.block_groups[1].super_block_info.is_some());
}

#[test]
fn descriptors_are_at_least_64_bytes_apart() {
    let mut image = image();
    put(&mut image, 1024 + 254, &32u16.to_le_bytes());
    put(&mut image, 1024 + 32, &32u32.to_le_bytes());
    put(&mut image, 2048 + 64 + 8, &17u32.to_le_bytes());
    let fs = Ext4Fs::from_file(&image).unwrap();
    assert_eq!(fs.block_groups.len(), 2);
    assert_eq!(fs.group_desc(0).unwrap().bg_inode_table_lo, 5);
    assert_eq!(fs.group_desc(1).unwrap().bg_inode_table_lo, 17);
}

#[test]
fn group_count_rounds_up() {
    let (_, mut sb) = Ext4SuperBlock::parse(&[0u8; 1024]).unwrap();
    assert_eq!(group_count(&sb), None);
    sb.s_blocks_per_group = 8192;
    sb.s_blocks_count_lo = 0;
    assert_eq!(group_count(&sb), Some(0));
    sb.s_blocks_count_lo = 1;
    assert_eq!(group_count(&sb), Some(1));
    sb.s_blocks_count_lo = 8192;
    assert_eq!(group_count(&sb), Some(1));
    sb.s_blocks_count_lo = 8193;
    assert_eq!(group_count(&sb), Some(2));
    sb.s_blocks_count_lo = u32::MAX;
    sb.s_blocks_per_group = 1;
    assert_eq!(group_count(&sb), Some(u32::MAX));
}

#[test]
fn superblock_info_counts_descriptor_blocks() {
    let (_, mut sb) = Ext4SuperBlock::parse(&[0u8; 1024]).unwrap();
    sb.s_blocks_per_group = 10;
    sb.s_blocks_count_lo = 170;
    sb.s_desc_size = 64;
    sb.s_reserved_gdt_blocks = 5;
    let info = SuperBlockInfo::from_super_block(&sb);
    assert_eq!(info.group_descs_block_num, 2);
    assert_eq!(info.reserved_gdt_block_num, 5);
    sb.s_blocks_count_lo = 160;
    assert_eq!(SuperBlockInfo::from_super_block(&sb).group_descs_block_num, 1);
}

#[test]
fn finds_allocated_inodes_only() {
    let image = image();
    let fs = Ext4Fs::from_file(&image).unwrap();
    assert_eq!(fs.get_inode(2).unwrap().i_mode.ty, FileType::Dir);
    assert_eq!(fs.get_inode(12).unwrap().i_mode.ty, FileType::Regular);
    assert_eq!(fs.get_inode(14).unwrap().i_mode.ty, FileType::Symlink);
    assert_eq!(fs.get_inode(18).unwrap().i_mode.ty, FileType::Fifo);
    assert!(fs.get_inode(0).is_none());
    assert!(fs.get_inode(1).is_none());
    assert!(fs.get_inode(3).is_none());
    assert!(fs.get_inode(32).is_none());
    assert!(fs.get_inode(33).is_none());
    assert!(fs.get_inode(u64::MAX).is_none());
}

#[test]
fn every_allocated_inode_has_a_type() {
    let image = image();
    let fs = Ext4Fs::from_file(&image).unwrap();
    assert!(fs.inode_tables_in_image());
    for number in 1..=32u64 {
        let (_, slot) = locate_inode(32, number).unwrap();
        let bit = inode_bit(&image, 1024, fs.group_desc(0).unwrap(), slot).unwrap();
        assert_eq!(fs.get_inode(number).is_some(), bit);
        if let Some(inode) = fs.get_inode(number) {
            let mode = u16::from_le_bytes([
                image[5 * 1024 + slot as usize * 256],
                image[5 * 1024 + slot as usize * 256 + 1],
            ]);
            assert_eq!(inode.i_mode.ty, FileType::from_bits(mode));
        }
    }
}

#[test]
fn inode_bits_and_places() {
    let image = image();
    let fs = Ext4Fs::from_file(&image).unwrap();
    assert_eq!(locate_inode(32, 0), None);
    assert_eq!(locate_inode(0, 5), None);
    assert_eq!(locate_inode(32, 1), Some((0, 0)));
    assert_eq!(locate_inode(32, 32), Some((0, 31)));
    assert_eq!(locate_inode(32, 33), Some((1, 0)));
    assert_eq!(fs.get_inode_bit(1, &fs.block_groups[0]), Some(true));
    assert_eq!(fs.get_inode_bit(2, &fs.block_groups[0]), Some(false));
    assert_eq!(fs.get_inode_bit(11, &fs.block_groups[0]), Some(true));
    assert_eq!(fs.get_inode_bit(60 * 1024 * 8, &fs.block_groups[0]), None);
}

#[test]
fn inode_past_the_end_of_the_image_is_not_found() {
    let mut image = image();
    put(&mut image, 2056, &63u32.to_le_bytes());
    let fs = Ext4Fs::from_file(&image).unwrap();
    assert!(!fs.inode_tables_in_image());
    assert!(fs.get_inode(2).is_some());
    assert!(fs.get_inode(12).is_none());
}

#[test]
fn empty_regular_file() {
    let image = image();
    let fs = Ext4Fs::from_file(&image).unwrap();
    let inode = fs.get_inode(15).unwrap();
    assert_eq!(inode.size(), 0);
    match fs.get_inode_block_contents(&inode) {
        Some(BlockContents::Data(mut chain)) => {
            assert!(chain.read_all().is_empty());
            assert_eq!(chain.next(), None);
        }
        _ => panic!("bytes expected"),
    }
}

#[test]
fn single_extent_file() {
    let image = image();
    let fs = Ext4Fs::from_file(&image).unwrap();
    let inode = fs.get_inode(12).unwrap();
    match fs.get_inode_block_contents(&inode) {
        Some(BlockContents::Data(mut chain)) => {
            let bytes = chain.drain();
            assert_eq!(bytes.len(), 1024);
            assert_eq!(&bytes[..], &image[21 * 1024..22 * 1024]);
            assert_eq!(chain.read_all(), bytes);
        }
        _ => panic!("bytes expected"),
    }
}

#[test]
fn two_level_extent_tree() {
    let image = image();
    let fs = Ext4Fs::from_file(&image).unwrap();
    let inode = fs.get_inode(16).unwrap();
    assert!(inode.get_extents().is_none());
    assert_eq!(inode.get_extent_indicies().unwrap().len(), 1);
    let blocks = ranges_of(&fs, 16);
    assert_eq!(blocks.len(), 7);
    let firsts: Vec<u8> = blocks.iter().map(|b| b[0]).collect();
    assert_eq!(firsts, vec![40, 41, 45, 50, 51, 52, 53]);
    let chain = inode.read_block::<u8>(&image, 1024);
    assert_eq!(chain.read_all().len() as u64, 7 * 1024);
    assert!(chain.read_all().len() as u64 >= inode.size());
}

#[test]
fn three_level_extent_tree() {
    let image = image();
    let fs = Ext4Fs::from_file(&image).unwrap();
    let firsts: Vec<u8> = ranges_of(&fs, 19).iter().map(|b| b[0]).collect();
    assert_eq!(firsts, vec![40, 41, 45, 50, 51, 52, 53]);
    let inode = fs.get_inode(19).unwrap();
    let below = inode.get_extent_indicies().unwrap();
    assert_eq!(below[0].ei_leaf(), 32);
    let same = Ext4Inode::read_e_index(&image, &below, 1024, 2);
    assert_eq!(same.len(), 3);
    assert!(Ext4Inode::read_e_index(&image, &below, 1024, 1).is_empty());
}

#[test]
fn walker_emits_ranges_in_stored_order() {
    let node = [leaf(0, 2, 40), leaf(2, 1, 45), leaf(3, 4, 50)];
    let extents: Vec<Ext4Extent> =
        node.iter().map(|b| Ext4Extent::parse(b).unwrap().1).collect();
    let image = image();
    let ranges = Ext4Inode::read_extent(&image, &extents, 1024);
    let lens: Vec<usize> = ranges.iter().map(|r| r.len()).collect();
    assert_eq!(lens, vec![2048, 1024, 4096]);
    assert_eq!(ranges[1], &image[45 * 1024..46 * 1024]);
}

#[test]
fn leaf_outside_the_image_is_passed_over() {
    let image = image();
    let extents = [
        Ext4Extent { ee_block: 0, ee_len: 1, ee_start_hi: 0, ee_start_lo: 63 },
        Ext4Extent { ee_block: 1, ee_len: 2, ee_start_hi: 0, ee_start_lo: 63 },
        Ext4Extent { ee_block: 3, ee_len: 1, ee_start_hi: 1, ee_start_lo: 0 },
        Ext4Extent { ee_block: 4, ee_len: 0, ee_start_hi: 0, ee_start_lo: 64 },
        Ext4Extent { ee_block: 4, ee_len: 1, ee_start_hi: 0, ee_start_lo: 62 },
    ];
    let ranges = Ext4Inode::read_extent(&image, &extents, 1024);
    let lens: Vec<usize> = ranges.iter().map(|r| r.len()).collect();
    assert_eq!(lens, vec![1024, 0, 1024]);
    assert_eq!(ranges[2], &image[62 * 1024..63 * 1024]);
}

#[test]
fn corrupt_index_branch_is_skipped() {
    let image = image();
    let fs = Ext4Fs::from_file(&image).unwrap();
    let blocks = ranges_of(&fs, 17);
    let firsts: Vec<u8> = blocks.iter().map(|b| b[0]).collect();
    assert_eq!(firsts, vec![40, 41, 45, 50, 51, 52, 53]);
}

#[test]
fn child_that_is_not_less_deep_is_skipped() {
    let mut image = image();
    let mut node = header(1, 1);
    node.extend(index(0, 30));
    put(&mut image, 30 * 1024, &node);
    let fs = Ext4Fs::from_file(&image).unwrap();
    assert!(ranges_of(&fs, 16).is_empty());
    let deeper = Ext4Inode::read_e_index(
        &image,
        &[Ext4ExtentIdx { ei_block: 0, ei_leaf_lo: 30, ei_leaf_hi: 0, ei_unused: 0 }],
        1024,
        2,
    );
    assert!(deeper.is_empty());
}

#[test]
fn child_with_no_entries_is_skipped() {
    let mut image = image();
    put(&mut image, 31 * 1024, &header(0, 0));
    let fs = Ext4Fs::from_file(&image).unwrap();
    assert_eq!(ranges_of(&fs, 17).len(), 7);
}

#[test]
fn root_with_too_many_entries_gives_nothing() {
    let mut image = image();
    let at = 5 * 1024 + 11 * 256 + 40;
    put(&mut image, at + 2, &5u16.to_le_bytes());
    let fs = Ext4Fs::from_file(&image).unwrap();
    let inode = fs.get_inode(12).unwrap();
    assert!(inode.root_entries().is_none());
    assert!(inode.get_extents().is_none());
    assert!(ranges_of(&fs, 12).is_empty());
}

#[test]
fn inode_without_extents_gives_nothing() {
    let mut image = image();
    let at = 5 * 1024 + 11 * 256 + 32;
    put(&mut image, at, &0u32.to_le_bytes());
    let fs = Ext4Fs::from_file(&image).unwrap();
    assert!(ranges_of(&fs, 12).is_empty());
    assert_eq!(fs.get_inode(12).unwrap().get_extents().unwrap().len(), 1);
}

#[test]
fn short_symlink() {
    let image = image();
    let fs = Ext4Fs::from_file(&image).unwrap();
    let inode = fs.get_inode(14).unwrap();
    match fs.get_inode_block_contents(&inode) {
        Some(BlockContents::InliedData(bytes)) => assert_eq!(bytes, b"hello/world".to_vec()),
        _ => panic!("symlink expected"),
    }
}

#[test]
fn long_symlink_gives_the_whole_region() {
    let mut image = image();
    let at = 5 * 1024 + 13 * 256;
    put(&mut image, at + 4, &61u32.to_le_bytes());
    let fs = Ext4Fs::from_file(&image).unwrap();
    let inode = fs.get_inode(14).unwrap();
    match inode.get_i_block_contents(&image, 1024) {
        Some(BlockContents::InliedData(bytes)) => {
            assert_eq!(bytes.len(), 60);
            assert_eq!(&bytes[..11], b"hello/world");
        }
        _ => panic!("symlink expected"),
    }
}

#[test]
fn other_kinds_have_no_content() {
    let image = image();
    let fs = Ext4Fs::from_file(&image).unwrap();
    let fifo = fs.get_inode(18).unwrap();
    assert!(fs.get_inode_block_contents(&fifo).is_none());
}

#[test]
fn root_directory_entries() {
    let image = image();
    let fs = Ext4Fs::from_file(&image).unwrap();
    let root = fs.get_inode(2).unwrap();
    match fs.get_inode_block_contents(&root) {
        Some(BlockContents::Dentries(mut chain)) => {
            let entries = chain.drain();
            let seen: Vec<(u32, String)> =
                entries.iter().map(|e| (e.inode, e.get_name().unwrap())).collect();
            assert_eq!(
                seen,
                vec![
                    (2, ".".to_string()),
                    (2, "..".to_string()),
                    (0, "gone".to_string()),
                    (12, "hello.txt".to_string()),
                    (13, "sub".to_string()),
                    (14, "link".to_string()),
                ]
            );
            let total: usize = entries.iter().map(|e| e.rec_len as usize).sum();
            assert_eq!(total, 1024);
        }
        _ => panic!("entries expected"),
    }
}

#[test]
fn entries_that_lead_back_are_not_followed() {
    assert!(!should_visit(2, 2, 0));
    assert!(!should_visit(2, 2, 1));
    assert!(!should_visit(2, 2, 2));
    assert!(should_visit(2, 2, 12));
    assert!(!should_visit(2, 13, 13));
    assert!(!should_visit(2, 13, 2));
    assert!(should_visit(2, 13, 15));
}

#[test]
fn children_of_a_directory() {
    let mut name = [0u8; 255];
    name[..3].copy_from_slice(b"sub");
    let mut bad = [0u8; 255];
    bad[0] = 0xFF;
    let entries = vec![
        Ext4DirEntry { inode: 2, rec_len: 12, name_len: 1, file_type: 2, name: [b'.'; 255] },
        Ext4DirEntry { inode: 13, rec_len: 12, name_len: 3, file_type: 2, name },
        Ext4DirEntry { inode: 1, rec_len: 12, name_len: 3, file_type: 2, name },
        Ext4DirEntry { inode: 20, rec_len: 12, name_len: 1, file_type: 1, name: bad },
    ];
    let found = children(2, 2, &"/top".to_string(), &entries);
    let seen: Vec<(u64, u64, String)> =
        found.iter().map(|v| (v.parent, v.inode, v.path.clone())).collect();
    assert_eq!(
        seen,
        vec![(2, 13, "/top/sub".to_string()), (2, 20, "/top/<cannot parse>".to_string())]
    );
}

#[test]
fn walk_from_the_root_visits_each_inode_once() {
    let image = image();
    let fs = Ext4Fs::from_file(&image).unwrap();
    let mut walk = TreeWalk::new();
    let mut paths = Vec::new();
    let mut steps = 0;
    while let Some(visit) = walk.step(&fs) {
        paths.push(visit.path);
        steps += 1;
        assert!(steps < 100);
    }
    assert_eq!(paths, vec!["", "/hello.txt", "/sub", "/link", "/sub/deep.txt"]);
    assert!(walk.step(&fs).is_none());
}

#[test]
fn first_block_group() {
    let image = image();
    let (rest, group) = parse_block0(&image).unwrap();
    assert_eq!(group.super_block.s_magic, 0xEF53);
    assert_eq!(group.group_descs.len(), 1);
    assert_eq!(group.reserved_gdt_blocks.len(), 1024);
    assert_eq!(rest.len(), 64 * 1024 - 4096);
    assert!(matches!(parse_block0(&image[..4095]), Err(ParseError::TooShort)));
    assert!(matches!(parse_block0(&image[..100]), Err(ParseError::TooShort)));
}

#[test]
fn regions_of_a_block_group() {
    let image = image();
    let fs = Ext4Fs::from_file(&image).unwrap();
    let parser = BlockGroupParser::new(&fs.super_block);
    let (rest, group) = parser.parse(&image, fs.group_desc(0).unwrap()).unwrap();
    assert_eq!(group.data_block_bitmap, &image[3 * 1024..4 * 1024]);
    assert_eq!(group.inode_bitmap, &image[4 * 1024..4 * 1024 + 4]);
    assert_eq!(group.inode_table, &image[5 * 1024..13 * 1024]);
    assert_eq!(rest.len(), 51 * 1024);
    assert!(matches!(
        parser.parse(&image[..12 * 1024], fs.group_desc(0).unwrap()),
        Err(ParseError::TooShort)
    ));
}

#[test]
fn unsupported_features_are_reported_and_tolerated() {
    let mut image = image();
    assert_eq!(unsupported_incompat(&image), Some(0));
    put(&mut image, 1024 + 96, &0x8000_02C2u32.to_le_bytes());
    assert_eq!(unsupported_incompat(&image), Some(0x8000_0280));
    assert!(Ext4Fs::from_file(&image).is_ok());
    assert_eq!(unsupported_incompat(&image[..2047]), None);
}

#[test]
fn inode_size_must_fit_a_block() {
    let image = image();
    let fs = Ext4Fs::from_file(&image).unwrap();
    let mut sb = fs.super_block;
    assert!(inode_size_in_range(&sb));
    sb.s_inode_size = 127;
    assert!(!inode_size_in_range(&sb));
    sb.s_inode_size = 1024;
    assert!(inode_size_in_range(&sb));
    sb.s_inode_size = 1025;
    assert!(!inode_size_in_range(&sb));
}
