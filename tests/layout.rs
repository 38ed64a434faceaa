use ghost_fat::{ByteView, Config, File, GhostFat, NameError};

fn read_sector(disk: &GhostFat, lba: u32) -> [u8; 512] {
    let mut block = [0u8; 512];
    disk.read_block(lba, &mut block).unwrap();
    block
}

fn one_file(name: &str, view: ByteView) -> GhostFat {
    GhostFat::new(vec![File::new(name, view).unwrap()], Config::default())
}

fn fat_entry(sector: &[u8; 512], i: usize) -> u16 {
    sector[2 * i] as u16 | (sector[2 * i + 1] as u16) << 8
}

#[test]
fn default_geometry() {
    let c = Config::default();
    assert_eq!(c.start_fat0(), 1);
    assert_eq!(c.start_fat1(), 21);
    assert_eq!(c.start_rootdir(), 41);
    assert_eq!(c.start_clusters(), 45);
    let disk = one_file("A.TXT", ByteView::ReadOnly(vec![1]));
    assert_eq!(disk.max_lba(), 7999);
}

#[test]
fn boot_sector_fields() {
    let disk = one_file("A.TXT", ByteView::ReadOnly(vec![1]));
    let b = read_sector(&disk, 0);
    assert_eq!(&b[0..3], &[0xEB, 0x3C, 0x90]);
    assert_eq!(&b[3..11], b"UF2 UF2 ");
    assert_eq!(&b[11..13], &[0x00, 0x02]);
    assert_eq!(b[13], 1);
    assert_eq!(&b[14..16], &[1, 0]);
    assert_eq!(b[16], 2);
    assert_eq!(&b[17..19], &[64, 0]);
    assert_eq!(&b[19..21], &[0x40, 0x1F]);
    assert_eq!(b[21], 0xF8);
    assert_eq!(&b[22..24], &[20, 0]);
    assert_eq!(&b[24..26], &[1, 0]);
    assert_eq!(&b[26..28], &[1, 0]);
    assert_eq!(&b[28..36], &[0; 8]);
    assert_eq!(b[36], 0x80);
    assert_eq!(b[38], 0x29);
    assert_eq!(&b[39..43], &[0x42, 0x00, 0x42, 0x00]);
    assert_eq!(&b[43..54], b"UF2BOOT    ");
    assert_eq!(&b[54..62], b"FAT16   ");
    assert!(b[62..510].iter().all(|&x| x == 0));
    assert_eq!(b[510], 0x55);
    assert_eq!(b[511], 0xAA);
}

#[test]
fn large_volume_uses_32_bit_count() {
    let mut c = Config::default();
    c.num_blocks = 0x12345;
    let disk = GhostFat::new(vec![File::new("A.TXT", ByteView::ReadOnly(vec![1])).unwrap()], c);
    let b = read_sector(&disk, 0);
    assert_eq!(&b[19..21], &[0, 0]);
    assert_eq!(&b[32..36], &[0x45, 0x23, 0x01, 0x00]);
}

#[test]
fn fat_chain_of_two_block_file() {
    let disk = one_file("TEST.BIN", ByteView::ReadOnly(vec![7u8; 1024]));
    let fat = read_sector(&disk, 1);
    assert_eq!(&fat[0..4], &[0xF0, 0xFF, 0xFF, 0xFF]);
    assert_eq!(fat_entry(&fat, 2), 3);
    assert_eq!(fat_entry(&fat, 3), 0xFFFF);
    // the UF2 window follows the file's clusters
    assert_eq!(fat_entry(&fat, 4), 5);
    assert_eq!(fat_entry(&fat, 130), 131);
    assert_eq!(fat_entry(&fat, 131), 0xFFFF);
    assert_eq!(fat_entry(&fat, 132), 0xFFFF);
    assert_eq!(fat_entry(&fat, 255), 0xFFFF);
    let later = read_sector(&disk, 2);
    assert!(later.iter().all(|&x| x == 0xFF));
}

#[test]
fn uf2_window_spans_fat_sectors() {
    let files: Vec<File> = (0..4)
        .map(|i| File::new(&format!("F{}.BIN", i), ByteView::ReadOnly(vec![0u8; 512 * 40])).unwrap())
        .collect();
    let disk = GhostFat::new(files, Config::default());
    let fat0 = read_sector(&disk, 1);
    let fat1 = read_sector(&disk, 2);
    // files take clusters 2..162, the window 162..290
    assert_eq!(fat_entry(&fat0, 41), 0xFFFF);
    assert_eq!(fat_entry(&fat0, 42), 43);
    assert_eq!(fat_entry(&fat0, 161), 0xFFFF);
    assert_eq!(fat_entry(&fat0, 255), 256);
    assert_eq!(fat_entry(&fat1, 0), 257);
    assert_eq!(fat_entry(&fat1, 288 - 256), 289);
    assert_eq!(fat_entry(&fat1, 289 - 256), 0xFFFF);
}

#[test]
fn fat_copies_agree() {
    let disk = one_file("TEST.BIN", ByteView::ReadOnly(vec![7u8; 1024]));
    for i in 0..20 {
        assert_eq!(read_sector(&disk, 1 + i), read_sector(&disk, 21 + i));
    }
}

#[test]
fn unused_sectors_read_zero() {
    let disk = one_file("TEST.BIN", ByteView::ReadOnly(vec![7u8; 1024]));
    for lba in 42..45 {
        assert!(read_sector(&disk, lba).iter().all(|&x| x == 0));
    }
    for lba in [47u32, 100, 7999] {
        assert!(read_sector(&disk, lba).iter().all(|&x| x == 0));
    }
}

#[test]
fn reads_repeat() {
    let disk = one_file("TEST.BIN", ByteView::ReadOnly((0..1024).map(|i| i as u8).collect()));
    for lba in [0u32, 1, 21, 41, 45, 46, 500] {
        assert_eq!(read_sector(&disk, lba), read_sector(&disk, lba));
    }
}

#[test]
fn root_directory_entries() {
    let files = vec![
        File::new("TEST1.TXT", ByteView::ReadOnly(b"abc123456".to_vec())).unwrap(),
        File::new("TEST2.TXT", ByteView::ReadOnly(b"abc123457".to_vec())).unwrap(),
    ];
    let disk = GhostFat::new(files, Config::default());
    let root = read_sector(&disk, 41);
    assert_eq!(&root[0..11], b"UF2BOOT    ");
    assert_eq!(root[11], 0x28);
    assert!(root[12..32].iter().all(|&x| x == 0));
    assert_eq!(&root[32..43], b"TEST1   TXT");
    assert_eq!(root[43], 0x01);
    assert_eq!(&root[58..60], &[2, 0]);
    assert_eq!(&root[60..64], &[9, 0, 0, 0]);
    assert_eq!(&root[64..75], b"TEST2   TXT");
    assert_eq!(&root[90..92], &[3, 0]);
    assert_eq!(&root[92..96], &[9, 0, 0, 0]);
    assert!(root[96..].iter().all(|&x| x == 0));
    assert_eq!(&read_sector(&disk, 45)[..9], b"abc123456");
    assert_eq!(&read_sector(&disk, 46)[..9], b"abc123457");
}

#[test]
fn data_sector_pads_with_zeros() {
    let data: Vec<u8> = (0..600).map(|i| (i % 251) as u8 + 1).collect();
    let disk = one_file("TEST.BIN", ByteView::ReadOnly(data.clone()));
    let first = read_sector(&disk, 45);
    assert_eq!(&first[..], &data[..512]);
    let second = read_sector(&disk, 46);
    assert_eq!(&second[..88], &data[512..]);
    assert!(second[88..].iter().all(|&x| x == 0));
}

#[test]
fn write_to_read_only_file_changes_nothing() {
    let data = b"ABCDEFGH".to_vec();
    let mut disk = one_file("TEST.TXT", ByteView::ReadOnly(data.clone()));
    let block = [0x5Au8; 512];
    disk.write_block(45, &block).unwrap();
    assert_eq!(disk.files()[0].data(), data.as_slice());
    assert_eq!(&read_sector(&disk, 45)[..8], data.as_slice());
}

#[test]
fn write_block_then_read_back() {
    let mut disk = one_file("TEST.BIN", ByteView::ReadWrite(vec![0u8; 600]));
    let block = [0xABu8; 512];
    disk.write_block(46, &block).unwrap();
    let data = disk.files()[0].data();
    assert_eq!(data.len(), 600);
    assert!(data[..512].iter().all(|&x| x == 0));
    assert!(data[512..].iter().all(|&x| x == 0xAB));
    let back = read_sector(&disk, 46);
    assert!(back[..88].iter().all(|&x| x == 0xAB));
    assert!(back[88..].iter().all(|&x| x == 0));
}

#[test]
fn writes_outside_files_are_dropped() {
    let mut disk = one_file("TEST.TXT", ByteView::ReadWrite(vec![0u8; 8]));
    let before: Vec<[u8; 512]> = [0u32, 1, 21, 41, 42, 45, 46].iter().map(|&l| read_sector(&disk, l)).collect();
    let block = [0x11u8; 512];
    for lba in [0u32, 1, 21, 41, 42, 46, 7999] {
        disk.write_block(lba, &block).unwrap();
    }
    let after: Vec<[u8; 512]> = [0u32, 1, 21, 41, 42, 45, 46].iter().map(|&l| read_sector(&disk, l)).collect();
    assert_eq!(before, after);
    assert_eq!(disk.files()[0].data(), &[0u8; 8]);
}

#[test]
fn byte_write_changes_nothing() {
    let mut disk = one_file("TEST.TXT", ByteView::ReadWrite(vec![0u8; 8]));
    assert!(disk.write(45 * 512, &[1, 2, 3]).is_ok());
    assert_eq!(disk.files()[0].data(), &[0u8; 8]);
}

#[test]
fn short_names() {
    assert_eq!(&File::new("info.txt", ByteView::ReadOnly(vec![])).unwrap().name(), b"INFO    TXT");
    assert_eq!(&File::new("README", ByteView::ReadOnly(vec![])).unwrap().name(), b"README     ");
    assert_eq!(&File::new("INFO_UF2.TXT", ByteView::ReadOnly(vec![])).unwrap().name(), b"INFO_UF2TXT");
    assert_eq!(&File::new("a~1.b", ByteView::ReadOnly(vec![])).unwrap().name(), b"A~1     B  ");
    let f = File::new("x.y", ByteView::ReadWrite(vec![1, 2])).unwrap();
    assert!(f.is_writable());
    assert_eq!(f.attrs(), 0x20);
    assert_eq!(f.len(), 2);
    let g = File::new("x.y", ByteView::ReadOnly(vec![1, 2])).unwrap();
    assert!(!g.is_writable());
    assert_eq!(g.attrs(), 0x01);
}

#[test]
fn short_name_errors() {
    assert_eq!(File::new("TOOLONGNAME.TXT", ByteView::ReadOnly(vec![])).err(), Some(NameError::TooLong));
    assert_eq!(File::new("A.TEXT", ByteView::ReadOnly(vec![])).err(), Some(NameError::TooLong));
    assert_eq!(File::new("NINECHARS", ByteView::ReadOnly(vec![])).err(), Some(NameError::TooLong));
    assert_eq!(File::new("BAD*.TXT", ByteView::ReadOnly(vec![])).err(), Some(NameError::InvalidChar));
    assert_eq!(File::new("A.B.C", ByteView::ReadOnly(vec![])).err(), Some(NameError::InvalidChar));
    assert_eq!(File::new("SP ACE.TXT", ByteView::ReadOnly(vec![])).err(), Some(NameError::InvalidChar));
    assert_eq!(File::new("CAFÉ.TXT", ByteView::ReadOnly(vec![])).err(), Some(NameError::InvalidChar));
}

#[test]
fn checked_construction() {
    assert!(GhostFat::try_new(vec![], Config::default()).is_some());

    let mut c = Config::default();
    c.sectors_per_cluster = 2;
    assert!(GhostFat::try_new(vec![], c).is_none());

    let mut c = Config::default();
    c.num_blocks = 44;
    assert!(GhostFat::try_new(vec![], c).is_none());

    let many: Vec<File> = (0..16)
        .map(|i| File::new(&format!("F{}.TXT", i), ByteView::ReadOnly(vec![1])).unwrap())
        .collect();
    assert!(GhostFat::try_new(many, Config::default()).is_none());

    // 8000 - 45 = 7955 data blocks: the files and the 128-block UF2 window must fit
    let fits = vec![File::new("BIG.BIN", ByteView::ReadOnly(vec![0u8; 512 * 7827])).unwrap()];
    assert!(GhostFat::try_new(fits, Config::default()).is_some());
    let over = vec![File::new("BIG.BIN", ByteView::ReadOnly(vec![0u8; 512 * 7827 + 1])).unwrap()];
    assert!(GhostFat::try_new(over, Config::default()).is_none());
}
