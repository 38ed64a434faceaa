use vstd::prelude::*;

use crate::config::Config;

verus! {

/// Byte `k` (0 for the lowest) of `v` written little-endian.
pub open spec fn le_byte(v: int, k: int) -> u8 {
    if k == 0 {
        (v % 256) as u8
    } else if k == 1 {
        ((v / 256) % 256) as u8
    } else if k == 2 {
        ((v / 65536) % 256) as u8
    } else {
        ((v / 16777216) % 256) as u8
    }
}

pub fn le_byte_of(v: u32, k: usize) -> (r: u8)
    requires
        k < 4,
    ensures
        r == le_byte(v as int, k as int),
{
    if k == 0 {
        (v % 256) as u8
    } else if k == 1 {
        (v / 256 % 256) as u8
    } else if k == 2 {
        (v / 65536 % 256) as u8
    } else {
        (v / 16777216 % 256) as u8
    }
}

/// The 16-bit total-sector count: the block count when it fits, else 0.
pub open spec fn total_sectors_16(c: Config) -> int {
    if c.num_blocks <= 0xFFFF {
        c.num_blocks as int
    } else {
        0
    }
}

/// The 32-bit total-sector count, used only when the 16-bit field cannot hold it.
pub open spec fn total_sectors_32(c: Config) -> int {
    if c.num_blocks <= 0xFFFF {
        0
    } else {
        c.num_blocks as int
    }
}

/// The file-system type string `"FAT16   "`.
pub open spec fn fs_type() -> Seq<u8> {
    seq![0x46u8, 0x41, 0x54, 0x31, 0x36, 0x20, 0x20, 0x20]
}

/// Byte `i` of the boot sector: the BIOS parameter block of a FAT16 volume
/// followed by zeros and the `55 AA` signature.
pub open spec fn boot_byte(c: Config, i: int) -> u8 {
    if i == 0 {
        0xEB
    } else if i == 1 {
        0x3C
    } else if i == 2 {
        0x90
    } else if 3 <= i < 11 {
        c.oem_name@[i - 3]
    } else if i == 11 || i == 12 {
        le_byte(512, i - 11)
    } else if i == 13 {
        c.sectors_per_cluster
    } else if i == 14 || i == 15 {
        le_byte(c.reserved_sectors as int, i - 14)
    } else if i == 16 {
        c.fat_copies
    } else if i == 17 || i == 18 {
        le_byte(c.root_dir_entries as int, i - 17)
    } else if i == 19 || i == 20 {
        le_byte(total_sectors_16(c), i - 19)
    } else if i == 21 {
        0xF8
    } else if i == 22 || i == 23 {
        le_byte(c.sectors_per_fat as int, i - 22)
    } else if i == 24 || i == 26 {
        1
    } else if 32 <= i < 36 {
        le_byte(total_sectors_32(c), i - 32)
    } else if i == 36 {
        0x80
    } else if i == 38 {
        0x29
    } else if 39 <= i < 43 {
        le_byte(c.serial as int, i - 39)
    } else if 43 <= i < 54 {
        c.volume_label@[i - 43]
    } else if 54 <= i < 62 {
        fs_type()[i - 54]
    } else if i == 510 {
        0x55
    } else if i == 511 {
        0xAA
    } else {
        0
    }
}

/// The whole boot sector.
pub open spec fn boot_sector(c: Config) -> Seq<u8> {
    Seq::new(512, |i: int| boot_byte(c, i))
}

/// Computes byte `i` of the boot sector.
pub fn boot_byte_of(c: &Config, i: usize) -> (r: u8)
    requires
        i < 512,
    ensures
        r == boot_byte(*c, i as int),
{
    let total16: u32 = if c.num_blocks <= 0xFFFF { c.num_blocks } else { 0 };
    let total32: u32 = if c.num_blocks <= 0xFFFF { 0 } else { c.num_blocks };
    if i == 0 {
        0xEB
    } else if i == 1 {
        0x3C
    } else if i == 2 {
        0x90
    } else if 3 <= i && i < 11 {
        c.oem_name[i - 3]
    } else if i == 11 || i == 12 {
        le_byte_of(512, i - 11)
    } else if i == 13 {
        c.sectors_per_cluster
    } else if i == 14 || i == 15 {
        le_byte_of(c.reserved_sectors as u32, i - 14)
    } else if i == 16 {
        c.fat_copies
    } else if i == 17 || i == 18 {
        le_byte_of(c.root_dir_entries as u32, i - 17)
    } else if i == 19 || i == 20 {
        le_byte_of(total16, i - 19)
    } else if i == 21 {
        0xF8
    } else if i == 22 || i == 23 {
        le_byte_of(c.sectors_per_fat as u32, i - 22)
    } else if i == 24 || i == 26 {
        1
    } else if 32 <= i && i < 36 {
        le_byte_of(total32, i - 32)
    } else if i == 36 {
        0x80
    } else if i == 38 {
        0x29
    } else if 39 <= i && i < 43 {
        le_byte_of(c.serial, i - 39)
    } else if 43 <= i && i < 54 {
        c.volume_label[i - 43]
    } else if 54 <= i && i < 62 {
        let fs: [u8; 8] = [0x46, 0x41, 0x54, 0x31, 0x36, 0x20, 0x20, 0x20];
        assert(fs@ == fs_type());
        fs[i - 54]
    } else if i == 510 {
        0x55
    } else if i == 511 {
        0xAA
    } else {
        0
    }
}

} // verus!
