use rext4::chain::{BufferChainer, ChainItem, Decoded};
use rext4::defs::{
    log_from_size, size_from_log, CompatFeatures, Ext4DirEntry, Ext4Extent, Ext4ExtentHeader,
    Ext4ExtentIdx, Ext4ExtentTail, Ext4GroupDesc, Ext4Inode, Ext4SuperBlock, FileMode,
    FilePermissions, FileType, IncompatFeatures, InodeFlags, RoCompatFeatures,
};
use rext4::group::{has_super_block, is_power_of};
use rext4::parser::{consume_block, parse_bitmap, x_to_bools, InodeParser};
use rext4::wire::{
    put_bytes, put_u16, put_u32, put_u64, read_bytes, read_u16, read_u32, read_u64, read_u8,
    read_words, take, ParseError,
};

fn entry(inode: u32, rec_len: u16, name: &[u8], file_type: u8) -> Ext4DirEntry {
    let mut bytes = [0u8; 255];
    bytes[..name.len()].copy_from_slice(name);
    Ext4DirEntry { inode, rec_len, name_len: name.len() as u8, file_type, name: bytes }
}

#[test]
fn reads_little_endian_numbers() {
    let bytes = [0x01u8, 0x02, 0x03, 0x04, 0x05, 0x06, 0x07, 0x08, 0x09];
    assert_eq!(read_u8(&bytes, 8), 0x09);
    assert_eq!(read_u16(&bytes, 0), 0x0201);
    assert_eq!(read_u16(&bytes, 1), 0x0302);
    assert_eq!(read_u32(&bytes, 0), 0x0403_0201);
    assert_eq!(read_u32(&bytes, 5), 0x0908_0706);
    assert_eq!(read_u64(&bytes, 1), 0x0908_0706_0504_0302);
}

#[test]
fn reads_arrays() {
    let bytes = [9u8, 1, 0, 0, 0, 2, 0, 0, 0, 7];
    assert_eq!(read_bytes::<3>(&bytes, 7), [0, 0, 7]);
    assert_eq!(read_words::<2>(&bytes, 1), [1, 2]);
}

#[test]
fn writes_little_endian_numbers() {
    let mut out = vec![0xAAu8];
    put_u16(&mut out, 0x0201);
    put_u32(&mut out, 0x0605_0403);
    put_u64(&mut out, 0x0E0D_0C0B_0A09_0807);
    put_bytes(&mut out, &[0xFF, 0xEE]);
    assert_eq!(
        out,
        vec![0xAA, 1, 2, 3, 4, 5, 6, 7, 8, 9, 10, 11, 12, 13, 14, 0xFF, 0xEE]
    );
}

#[test]
fn written_numbers_read_back() {
    let mut out = Vec::new();
    put_u16(&mut out, 0xBEEF);
    put_u32(&mut out, 0xDEAD_BEEF);
    put_u64(&mut out, 0x0123_4567_89AB_CDEF);
    assert_eq!(read_u16(&out, 0), 0xBEEF);
    assert_eq!(read_u32(&out, 2), 0xDEAD_BEEF);
    assert_eq!(read_u64(&out, 6), 0x0123_4567_89AB_CDEF);
}

#[test]
fn take_splits_the_input() {
    let bytes = [1u8, 2, 3, 4, 5];
    let (rest, taken) = take(&bytes, 2).unwrap();
    assert_eq!(taken, &[1, 2]);
    assert_eq!(rest, &[3, 4, 5]);
    let (rest, taken) = take(&bytes, 5).unwrap();
    assert_eq!(taken, &bytes);
    assert!(rest.is_empty());
    assert!(matches!(take(&bytes, 6), Err(ParseError::TooShort)));
}

#[test]
fn extent_header_round_trip() {
    let header = Ext4ExtentHeader {
        eh_magic: 0xF30A,
        eh_entries: 3,
        eh_max: 4,
        eh_depth: 1,
        eh_generation: 0x0102_0304,
    };
    let mut bytes = Vec::new();
    header.encode(&mut bytes);
    assert_eq!(bytes, vec![0x0A, 0xF3, 3, 0, 4, 0, 1, 0, 4, 3, 2, 1]);
    bytes.push(0x77);
    let (rest, decoded) = Ext4ExtentHeader::parse(&bytes).unwrap();
    assert_eq!(decoded, header);
    assert_eq!(rest, &[0x77]);
    assert!(decoded.is_header());
}

#[test]
fn extent_header_without_magic_still_decodes() {
    let bytes = [0u8; 12];
    let (_, decoded) = Ext4ExtentHeader::parse(&bytes).unwrap();
    assert!(!decoded.is_header());
    assert_eq!(decoded.eh_entries, 0);
}

#[test]
fn extent_header_too_short() {
    assert!(matches!(Ext4ExtentHeader::parse(&[0u8; 11]), Err(ParseError::TooShort)));
    assert!(matches!(Ext4Extent::parse(&[0u8; 11]), Err(ParseError::TooShort)));
    assert!(matches!(Ext4ExtentIdx::parse(&[0u8; 11]), Err(ParseError::TooShort)));
    assert!(matches!(Ext4ExtentTail::parse(&[0u8; 3]), Err(ParseError::TooShort)));
}

#[test]
fn extent_round_trip_and_start() {
    let extent = Ext4Extent { ee_block: 7, ee_len: 3, ee_start_hi: 1, ee_start_lo: 2 };
    assert_eq!(extent.ee_start(), 0x1_0000_0002);
    let mut bytes = Vec::new();
    extent.encode(&mut bytes);
    assert_eq!(bytes, vec![7, 0, 0, 0, 3, 0, 1, 0, 2, 0, 0, 0]);
    let (_, decoded) = Ext4Extent::parse(&bytes).unwrap();
    assert_eq!(decoded, extent);
}

#[test]
fn extent_index_round_trip_and_leaf() {
    let index = Ext4ExtentIdx { ei_block: 9, ei_leaf_lo: 0xFFFF_FFFF, ei_leaf_hi: 0xFFFF, ei_unused: 5 };
    assert_eq!(index.ei_leaf(), 0xFFFF_FFFF_FFFF);
    let mut bytes = Vec::new();
    index.encode(&mut bytes);
    assert_eq!(bytes, vec![9, 0, 0, 0, 0xFF, 0xFF, 0xFF, 0xFF, 0xFF, 0xFF, 5, 0]);
    let (_, decoded) = Ext4ExtentIdx::parse(&bytes).unwrap();
    assert_eq!(decoded, index);
}

#[test]
fn extent_tail_decodes() {
    let (rest, tail) = Ext4ExtentTail::parse(&[1, 2, 3, 4, 5]).unwrap();
    assert_eq!(tail.et_checksum, 0x0403_0201);
    assert_eq!(rest, &[5]);
}

#[test]
fn file_type_of_each_code() {
    assert_eq!(FileType::from_bits(0x1000), FileType::Fifo);
    assert_eq!(FileType::from_bits(0x21A4), FileType::CharDev);
    assert_eq!(FileType::from_bits(0x41ED), FileType::Dir);
    assert_eq!(FileType::from_bits(0x6000), FileType::BlockDev);
    assert_eq!(FileType::from_bits(0x81A4), FileType::Regular);
    assert_eq!(FileType::from_bits(0xA1FF), FileType::Symlink);
    assert_eq!(FileType::from_bits(0xC000), FileType::Socket);
    assert_eq!(FileType::from_bits(0x0FFF), FileType::Unknown(0));
    assert_eq!(FileType::from_bits(0x3123), FileType::Unknown(0x3000));
    assert_eq!(FileType::from_bits(0xF000), FileType::Unknown(0xF000));
}

#[test]
fn file_type_predicates() {
    assert!(FileType::Regular.is_regular());
    assert!(!FileType::Dir.is_regular());
    assert!(FileType::Symlink.is_symlink());
    assert!(!FileType::Regular.is_symlink());
    assert!(FileType::Dir.is_dir());
    assert!(!FileType::Unknown(0x4000).is_dir());
}

#[test]
fn file_mode_splits_permissions_and_type() {
    let mode = FileMode::from_bits(0x81A4);
    assert_eq!(mode.ty, FileType::Regular);
    assert_eq!(mode.perms.bits(), 0x01A4);
    assert!(mode.perms.contains(FilePermissions::S_IRUSR | FilePermissions::S_IWUSR));
    assert!(!mode.perms.contains(FilePermissions::S_IXUSR));
    assert_eq!(FileMode::from_bits(0xFFFF).perms.bits(), 0x0FFF);
}

#[test]
fn flags_drop_unknown_bits() {
    let flags = InodeFlags::from_bits_truncate(0x0008_0000 | 0x4000_0000);
    assert_eq!(flags.bits(), 0x0008_0000);
    assert!(flags.contains(InodeFlags::EXTENTS));
    assert!(!flags.contains(InodeFlags::INLINE_DATA));
    assert_eq!(InodeFlags::empty().bits(), 0);
    let incompat = IncompatFeatures::from_bits_truncate(0x2C2 | 0x20);
    assert_eq!(incompat.bits(), 0x2C2);
    assert!(incompat.contains(IncompatFeatures::FILETYPE | IncompatFeatures::EXTENTS));
    assert_eq!(CompatFeatures::from_bits_truncate(0xFFFF_FFFF).bits(), CompatFeatures::ALL);
    assert!(RoCompatFeatures::from_bits_truncate(1).contains(RoCompatFeatures::SPARSE_SUPER));
    assert!(!RoCompatFeatures::from_bits_truncate(2).contains(RoCompatFeatures::SPARSE_SUPER));
}

#[test]
fn dir_entry_round_trip_at_aligned_size() {
    let e = entry(12, 20, b"hello.txt", 1);
    let mut bytes = Vec::new();
    e.encode(&mut bytes);
    assert_eq!(bytes.len(), 20);
    assert_eq!(&bytes[..8], &[12, 0, 0, 0, 20, 0, 9, 1]);
    assert_eq!(&bytes[8..17], b"hello.txt");
    assert_eq!(&bytes[17..], &[0, 0, 0]);
    bytes.extend_from_slice(&[0xAB; 5]);
    match Ext4DirEntry::from_bytes(&bytes) {
        Decoded::Item(stride, decoded) => {
            assert_eq!(stride, 20);
            assert_eq!(decoded.inode, 12);
            assert_eq!(decoded.rec_len, 20);
            assert_eq!(decoded.name_len, 9);
            assert_eq!(decoded.file_type, 1);
            assert_eq!(decoded.name, e.name);
        }
        _ => panic!("entry expected"),
    }
}

#[test]
fn dir_entry_that_runs_past_the_range_is_skipped() {
    let e = entry(12, 24, b"hello.txt", 1);
    let mut bytes = Vec::new();
    e.encode(&mut bytes);
    bytes.truncate(20);
    assert!(matches!(Ext4DirEntry::from_bytes(&bytes), Decoded::Skip));
    bytes.truncate(10);
    assert!(matches!(Ext4DirEntry::from_bytes(&bytes), Decoded::Skip));
}

#[test]
fn dir_entry_too_short_for_its_name_ends_the_stream() {
    let zero = [0u8; 16];
    assert!(matches!(Ext4DirEntry::from_bytes(&zero), Decoded::Stop));
    let mut bytes = vec![5, 0, 0, 0, 12, 0, 5, 1];
    bytes.extend_from_slice(b"abcde\0\0\0");
    assert!(matches!(Ext4DirEntry::from_bytes(&bytes), Decoded::Stop));
    bytes[4] = 13;
    assert!(matches!(Ext4DirEntry::from_bytes(&bytes), Decoded::Item(13, _)));
}

#[test]
fn dir_entry_name_as_text() {
    assert_eq!(entry(2, 12, b"..", 2).get_name(), Some("..".to_string()));
    assert_eq!(entry(2, 12, b"", 2).get_name(), Some(String::new()));
    assert_eq!(entry(5, 16, "füü".as_bytes(), 1).get_name(), Some("füü".to_string()));
    assert_eq!(entry(5, 12, &[0xFF, 0xFE], 1).get_name(), None);
    assert_eq!(Ext4DirEntry::header_len(), 8);
}

#[test]
fn superblock_needs_1024_bytes() {
    assert!(matches!(Ext4SuperBlock::parse(&[0u8; 1023]), Err(ParseError::TooShort)));
    assert!(Ext4SuperBlock::parse(&[0u8; 1024]).is_ok());
}

#[test]
fn superblock_rejects_sizes_that_do_not_fit() {
    let mut bytes = vec![0u8; 1024];
    bytes[24] = 54;
    assert!(matches!(Ext4SuperBlock::parse(&bytes), Err(ParseError::BadGeometry)));
    bytes[24] = 53;
    assert_eq!(Ext4SuperBlock::parse(&bytes).unwrap().1.s_log_block_size, 1u64 << 63);
    bytes[28] = 54;
    assert!(matches!(Ext4SuperBlock::parse(&bytes), Err(ParseError::BadGeometry)));
    bytes[28] = 0;
    bytes[372] = 200;
    assert!(matches!(Ext4SuperBlock::parse(&bytes), Err(ParseError::BadGeometry)));
}

#[test]
fn superblock_fields_come_from_their_offsets() {
    let mut bytes = vec![0u8; 1100];
    bytes[0..4].copy_from_slice(&32u32.to_le_bytes());
    bytes[4..8].copy_from_slice(&64u32.to_le_bytes());
    bytes[24] = 2;
    bytes[32..36].copy_from_slice(&8192u32.to_le_bytes());
    bytes[40..44].copy_from_slice(&32u32.to_le_bytes());
    bytes[56] = 0x53;
    bytes[57] = 0xEF;
    bytes[88..90].copy_from_slice(&256u16.to_le_bytes());
    bytes[92..96].copy_from_slice(&0xFFFF_FFFFu32.to_le_bytes());
    bytes[96..100].copy_from_slice(&0x2C2u32.to_le_bytes());
    bytes[100..104].copy_from_slice(&0x1u32.to_le_bytes());
    bytes[104] = 0xAA;
    bytes[119] = 0xBB;
    bytes[206..208].copy_from_slice(&3u16.to_le_bytes());
    bytes[236..240].copy_from_slice(&0x0101_0101u32.to_le_bytes());
    bytes[254..256].copy_from_slice(&64u16.to_le_bytes());
    bytes[372] = 4;
    bytes[1020..1024].copy_from_slice(&0xCAFE_F00Du32.to_le_bytes());
    let (rest, sb) = Ext4SuperBlock::parse(&bytes).unwrap();
    assert_eq!(rest.len(), 76);
    assert_eq!(sb.s_inodes_count, 32);
    assert_eq!(sb.s_blocks_count_lo, 64);
    assert_eq!(sb.s_log_block_size, 4096);
    assert_eq!(sb.s_log_cluster_size, 1024);
    assert_eq!(sb.s_blocks_per_group, 8192);
    assert_eq!(sb.s_inodes_per_group, 32);
    assert_eq!(sb.s_magic, 0xEF53);
    assert_eq!(sb.s_inode_size, 256);
    assert_eq!(sb.s_feature_compat.bits(), CompatFeatures::ALL);
    assert_eq!(sb.s_feature_incompat.bits(), 0x2C2);
    assert!(sb.s_feature_ro_compat.contains(RoCompatFeatures::SPARSE_SUPER));
    assert_eq!(sb.s_uuid[0], 0xAA);
    assert_eq!(sb.s_uuid[15], 0xBB);
    assert_eq!(sb.s_reserved_gdt_blocks, 3);
    assert_eq!(sb.s_hash_seed, [0x0101_0101, 0, 0, 0]);
    assert_eq!(sb.s_desc_size, 64);
    assert_eq!(sb.s_log_groups_per_flex, 16384);
    assert_eq!(sb.s_checksum, 0xCAFE_F00D);
}

#[test]
fn superblock_decoded_and_encoded_gives_the_same_bytes() {
    let mut bytes = vec![0u8; 1024];
    for (i, b) in bytes.iter_mut().enumerate() {
        *b = (i * 7 + 3) as u8;
    }
    bytes[24..28].copy_from_slice(&2u32.to_le_bytes());
    bytes[28..32].copy_from_slice(&5u32.to_le_bytes());
    bytes[372] = 4;
    bytes[92..96].copy_from_slice(&0x0000_0214u32.to_le_bytes());
    bytes[96..100].copy_from_slice(&0x0000_02C2u32.to_le_bytes());
    bytes[100..104].copy_from_slice(&0x0000_046Bu32.to_le_bytes());
    let (_, sb) = Ext4SuperBlock::parse(&bytes).unwrap();
    assert_eq!(sb.encode(), Some(bytes));
}

#[test]
fn superblock_with_unknown_feature_bits_loses_only_those() {
    let mut bytes = vec![0u8; 1024];
    bytes[96..100].copy_from_slice(&0x8000_0002u32.to_le_bytes());
    let (_, sb) = Ext4SuperBlock::parse(&bytes).unwrap();
    let encoded = sb.encode().unwrap();
    assert_eq!(&encoded[96..100], &[2, 0, 0, 0]);
    assert_eq!(&encoded[..96], &bytes[..96]);
    assert_eq!(&encoded[100..], &bytes[100..]);
}

#[test]
fn superblock_with_a_size_that_is_no_power_does_not_encode() {
    let (_, mut sb) = Ext4SuperBlock::parse(&[0u8; 1024]).unwrap();
    assert!(sb.encode().is_some());
    sb.s_log_block_size = 3000;
    assert_eq!(sb.encode(), None);
}

#[test]
fn sizes_and_their_exponents() {
    assert_eq!(size_from_log(0), Some(1024));
    assert_eq!(size_from_log(2), Some(4096));
    assert_eq!(size_from_log(53), Some(1u64 << 63));
    assert_eq!(size_from_log(54), None);
    assert_eq!(log_from_size(1024), Some(0));
    assert_eq!(log_from_size(65536), Some(6));
    assert_eq!(log_from_size(1u64 << 63), Some(53));
    assert_eq!(log_from_size(0), None);
    assert_eq!(log_from_size(512), None);
    assert_eq!(log_from_size(1025), None);
}

#[test]
fn group_descriptor_fields_come_from_their_offsets() {
    let mut bytes = vec![0u8; 70];
    bytes[0..4].copy_from_slice(&3u32.to_le_bytes());
    bytes[4..8].copy_from_slice(&4u32.to_le_bytes());
    bytes[8..12].copy_from_slice(&5u32.to_le_bytes());
    bytes[12..14].copy_from_slice(&100u16.to_le_bytes());
    bytes[18..20].copy_from_slice(&0xFFFFu16.to_le_bytes());
    bytes[30..32].copy_from_slice(&0xBEEFu16.to_le_bytes());
    bytes[40..44].copy_from_slice(&9u32.to_le_bytes());
    bytes[60..64].copy_from_slice(&1u32.to_le_bytes());
    let (rest, desc) = Ext4GroupDesc::parse(&bytes).unwrap();
    assert_eq!(rest.len(), 6);
    assert_eq!(desc.bg_block_bitmap_lo, 3);
    assert_eq!(desc.bg_inode_bitmap_lo, 4);
    assert_eq!(desc.bg_inode_table_lo, 5);
    assert_eq!(desc.bg_free_blocks_count_lo, 100);
    assert_eq!(desc.bg_flags.bits(), 7);
    assert_eq!(desc.bg_checksum, 0xBEEF);
    assert_eq!(desc.bg_inode_table_hi, 9);
    assert_eq!(desc.bg_reserved, 1);
    assert!(matches!(Ext4GroupDesc::parse(&bytes[..63]), Err(ParseError::TooShort)));
}

#[test]
fn inode_fields_come_from_their_offsets() {
    let mut bytes = vec![0u8; 161];
    bytes[0..2].copy_from_slice(&0x81A4u16.to_le_bytes());
    bytes[4..8].copy_from_slice(&0x10u32.to_le_bytes());
    bytes[32..36].copy_from_slice(&0x0008_0000u32.to_le_bytes());
    bytes[40] = 0x0A;
    bytes[41] = 0xF3;
    bytes[99] = 0x5A;
    bytes[108..112].copy_from_slice(&2u32.to_le_bytes());
    bytes[124..126].copy_from_slice(&0x1234u16.to_le_bytes());
    bytes[156..160].copy_from_slice(&77u32.to_le_bytes());
    let (rest, inode) = Ext4Inode::parse(&bytes).unwrap();
    assert_eq!(rest.len(), 1);
    assert_eq!(inode.i_mode.ty, FileType::Regular);
    assert_eq!(inode.i_mode.perms.bits(), 0x01A4);
    assert_eq!(inode.i_size_lo, 0x10);
    assert_eq!(inode.i_size_high, 2);
    assert_eq!(inode.size(), 0x2_0000_0010);
    assert!(inode.i_flags.contains(InodeFlags::EXTENTS));
    assert_eq!(inode.i_block[0], 0x0A);
    assert_eq!(inode.i_block[59], 0x5A);
    assert_eq!(inode.osd2.l_i_checksum_lo, 0x1234);
    assert_eq!(inode.i_projid, 77);
    assert!(inode.get_extend_header().is_header());
    assert!(matches!(Ext4Inode::parse(&bytes[..159]), Err(ParseError::TooShort)));
}

#[test]
fn powers() {
    assert!(is_power_of(0, 0));
    assert!(!is_power_of(1, 0));
    assert!(is_power_of(1, 1));
    assert!(!is_power_of(2, 1));
    assert!(!is_power_of(0, 3));
    assert!(is_power_of(1, 3));
    assert!(is_power_of(27, 3));
    assert!(!is_power_of(18, 3));
    assert!(is_power_of(125, 5));
    assert!(is_power_of(49, 7));
    assert!(!is_power_of(50, 7));
    assert!(is_power_of(1u64 << 63, 2));
}

#[test]
fn groups_with_a_superblock_copy() {
    assert!(has_super_block(true, 6));
    assert!(has_super_block(false, 0));
    assert!(has_super_block(false, 1));
    assert!(!has_super_block(false, 2));
    assert!(has_super_block(false, 3));
    assert!(has_super_block(false, 5));
    assert!(!has_super_block(false, 6));
    assert!(has_super_block(false, 7));
    assert!(has_super_block(false, 9));
    assert!(has_super_block(false, 25));
    assert!(!has_super_block(false, 15));
}

#[test]
fn bits_of_a_byte() {
    assert_eq!(x_to_bools(0), [false; 8]);
    assert_eq!(x_to_bools(0xFF), [true; 8]);
    assert_eq!(
        x_to_bools(0b1000_0101),
        [true, false, true, false, false, false, false, true]
    );
}

#[test]
fn bits_of_a_bitmap() {
    let bits = parse_bitmap(&[0x01, 0x80]);
    assert_eq!(bits.len(), 16);
    let set: Vec<usize> = (0..16).filter(|&i| bits[i]).collect();
    assert_eq!(set, vec![0, 15]);
    assert!(parse_bitmap(&[]).is_empty());
}

#[test]
fn consume_block_takes_the_rest_of_the_block() {
    let bytes = [7u8; 3000];
    let (rest, taken) = consume_block(&bytes, 1024, 2048).unwrap();
    assert_eq!(taken.len(), 0);
    assert_eq!(rest.len(), 3000);
    let (rest, taken) = consume_block(&bytes, 4096, 2048).unwrap();
    assert_eq!(taken.len(), 2048);
    assert_eq!(rest.len(), 952);
    let (_, taken) = consume_block(&bytes, 1024, 1).unwrap();
    assert_eq!(taken.len(), 1023);
    assert!(matches!(consume_block(&bytes[..100], 1024, 1), Err(ParseError::TooShort)));
}

#[test]
fn inode_parser_reads_a_slot() {
    let mut table = vec![0u8; 600];
    table[256] = 0xED;
    table[257] = 0x41;
    let parser = InodeParser::new(256);
    let (rest, inode) = parser.parse(&table, 1).unwrap();
    assert_eq!(inode.i_mode.ty, FileType::Dir);
    assert_eq!(rest.len(), 88);
    let (_, first) = parser.parse(&table, 0).unwrap();
    assert_eq!(first.i_mode.ty, FileType::Unknown(0));
    assert!(matches!(parser.parse(&table, 2), Err(ParseError::TooShort)));
}

#[test]
fn byte_stream_crosses_ranges() {
    let a = [1u8, 2, 3];
    let b: [u8; 0] = [];
    let c = [4u8, 5];
    let mut chain: BufferChainer<u8> = BufferChainer::new(vec![&a[..], &b[..], &c[..]]);
    assert_eq!(chain.read_all(), vec![1, 2, 3, 4, 5]);
    assert_eq!(chain.next(), Some(1));
    assert_eq!(chain.next(), Some(2));
    assert_eq!(chain.next(), Some(3));
    assert_eq!(chain.next(), Some(4));
    assert_eq!(chain.next(), Some(5));
    assert_eq!(chain.next(), None);
    assert_eq!(chain.next(), None);
    assert_eq!(chain.read_all(), vec![1, 2, 3, 4, 5]);
}

#[test]
fn drained_byte_stream_is_the_concatenation() {
    let a = [9u8, 8];
    let c = [7u8];
    let mut chain: BufferChainer<u8> = BufferChainer::new(vec![&a[..], &c[..]]);
    assert_eq!(chain.next(), Some(9));
    assert_eq!(chain.drain(), vec![8, 7]);
    assert_eq!(chain.drain(), Vec::<u8>::new());
    let mut whole: BufferChainer<u8> = BufferChainer::new(vec![&a[..], &c[..]]);
    let all = whole.read_all();
    assert_eq!(whole.drain(), all);
}

#[test]
fn empty_stream_yields_nothing() {
    let mut chain: BufferChainer<u8> = BufferChainer::new(Vec::new());
    assert_eq!(chain.next(), None);
    assert!(chain.read_all().is_empty());
    assert!(chain.drain().is_empty());
}

fn block_of_entries(size: usize, entries: &[(u32, &[u8])]) -> Vec<u8> {
    let mut block = Vec::new();
    for (i, (inode, name)) in entries.iter().enumerate() {
        let aligned = (8 + name.len() + 3) / 4 * 4;
        let rec_len = if i + 1 == entries.len() { size - block.len() } else { aligned };
        entry(*inode, rec_len as u16, name, 1).encode(&mut block);
    }
    block
}

#[test]
fn entry_stream_tiles_each_block() {
    let first = block_of_entries(64, &[(2, b"."), (2, b".."), (12, b"hello.txt")]);
    let second = block_of_entries(32, &[(13, b"sub")]);
    assert_eq!(first.len(), 64);
    assert_eq!(second.len(), 32);
    let mut chain: BufferChainer<Ext4DirEntry> = BufferChainer::new(vec![&first[..], &second[..]]);
    let entries = chain.drain();
    let seen: Vec<(u32, String)> =
        entries.iter().map(|e| (e.inode, e.get_name().unwrap())).collect();
    assert_eq!(
        seen,
        vec![
            (2, ".".to_string()),
            (2, "..".to_string()),
            (12, "hello.txt".to_string()),
            (13, "sub".to_string())
        ]
    );
    let in_first: usize = entries[..3].iter().map(|e| e.rec_len as usize).sum();
    assert_eq!(in_first, 64);
    assert_eq!(entries[3].rec_len, 32);
}

#[test]
fn entry_stream_skips_a_straddling_record_and_goes_on() {
    let mut first = block_of_entries(24, &[(2, b"."), (2, b"..")]);
    first[16] = 40;
    let second = block_of_entries(16, &[(7, b"x")]);
    let mut chain: BufferChainer<Ext4DirEntry> = BufferChainer::new(vec![&first[..], &second[..]]);
    let seen: Vec<u32> = chain.drain().iter().map(|e| e.inode).collect();
    assert_eq!(seen, vec![2, 7]);
}

#[test]
fn entry_stream_ends_at_a_record_of_length_zero() {
    let mut first = block_of_entries(24, &[(2, b"."), (2, b"..")]);
    first[16] = 0;
    first[17] = 0;
    let second = block_of_entries(16, &[(7, b"x")]);
    let mut chain: BufferChainer<Ext4DirEntry> = BufferChainer::new(vec![&first[..], &second[..]]);
    assert_eq!(chain.next().map(|e| e.inode), Some(2));
    assert!(chain.next().is_none());
    assert!(chain.next().is_none());
}

#[test]
fn entry_stream_passes_over_a_tail_shorter_than_a_header() {
    let mut first = block_of_entries(12, &[(2, b".")]);
    first.extend_from_slice(&[1, 2, 3, 4, 5]);
    let second = block_of_entries(16, &[(7, b"x")]);
    let mut chain: BufferChainer<Ext4DirEntry> = BufferChainer::new(vec![&first[..], &second[..]]);
    let seen: Vec<u32> = chain.drain().iter().map(|e| e.inode).collect();
    assert_eq!(seen, vec![2, 7]);
}
