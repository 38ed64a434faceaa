use vstd::prelude::*;

use crate::boot::{boot_sector, le_byte};
use crate::config::Config;
use crate::dir::{dir_entry_byte, ATTR_VOLUME_LABEL_ENTRY};
use crate::file::FileModel;

verus! {

/// Clusters reserved after the files for a UF2 image of 128 KiB.
pub const UF2_SECTORS: u32 = 128;

/// Blocks that `len` bytes take, rounded up.
pub open spec fn blocks_of(len: int) -> int {
    (len + 511) / 512
}

pub open spec fn file_blocks(f: FileModel) -> int {
    blocks_of(f.data.len() as int)
}

/// Data blocks taken by the files before file `k`.
pub open spec fn blocks_before(files: Seq<FileModel>, k: int) -> int
    decreases k,
{
    if k <= 0 {
        0
    } else {
        blocks_before(files, k - 1) + file_blocks(files[k - 1])
    }
}

pub open spec fn total_blocks(files: Seq<FileModel>) -> int {
    blocks_before(files, files.len() as int)
}

/// The first file from `k` on whose blocks reach past data block `d`;
/// `files.len()` when there is none.
pub open spec fn owner_from(files: Seq<FileModel>, d: int, k: int) -> int
    decreases files.len() - k,
{
    if k >= files.len() {
        files.len() as int
    } else if d < blocks_before(files, k + 1) {
        k
    } else {
        owner_from(files, d, k + 1)
    }
}

/// The file that holds data block `d`, or `files.len()` when none does.
pub open spec fn owner(files: Seq<FileModel>, d: int) -> int {
    owner_from(files, d, 0)
}

/// Byte `i` of data block `d`: the file's byte at that place, zero past its
/// end and in blocks that no file holds.
pub open spec fn data_byte(files: Seq<FileModel>, d: int, i: int) -> u8 {
    let k = owner(files, d);
    if k < files.len() {
        let p = (d - blocks_before(files, k)) * 512 + i;
        if p < files[k].data.len() {
            files[k].data[p]
        } else {
            0
        }
    } else {
        0
    }
}

/// FAT entry `v`: the two reserved entries, a chain through each file's
/// clusters, a chain of `UF2_SECTORS` clusters after them, and every other
/// entry marked end-of-chain.
pub open spec fn fat_entry(files: Seq<FileModel>, v: int) -> int {
    let t = total_blocks(files);
    if v == 0 {
        0xFFF0
    } else if v == 1 {
        0xFFFF
    } else if v < 2 + t {
        if v - 1 == blocks_before(files, owner(files, v - 2) + 1) {
            0xFFFF
        } else {
            v + 1
        }
    } else if v < 2 + t + UF2_SECTORS - 1 {
        v + 1
    } else {
        0xFFFF
    }
}

/// Byte `j` of sector `s` of a FAT copy: 256 entries of two bytes.
pub open spec fn fat_byte(files: Seq<FileModel>, s: int, j: int) -> u8 {
    le_byte(fat_entry(files, 256 * s + j / 2), j % 2)
}

/// First cluster of file `k`.
pub open spec fn start_cluster(files: Seq<FileModel>, k: int) -> int {
    2 + blocks_before(files, k)
}

/// Byte `j` of the first root-directory sector: the volume label in slot 0,
/// file `k` in slot `k + 1`, zeros after.
pub open spec fn root_byte(c: Config, files: Seq<FileModel>, j: int) -> u8 {
    let slot = j / 32;
    let off = j % 32;
    if slot == 0 {
        dir_entry_byte(c.volume_label@, ATTR_VOLUME_LABEL_ENTRY, 0, 0, off)
    } else if slot <= files.len() {
        let f = files[slot - 1];
        dir_entry_byte(f.name, f.attrs, start_cluster(files, slot - 1), f.data.len() as int, off)
    } else {
        0
    }
}

pub open spec fn zero_sector() -> Seq<u8> {
    Seq::new(512, |i: int| 0u8)
}

/// Which FAT sector `lba` shows, every copy showing the same table.
pub open spec fn fat_index(c: Config, lba: int) -> int {
    (lba - c.spec_start_fat0()) % (c.sectors_per_fat as int)
}

/// The 512 bytes that block `lba` of the volume holds.
pub open spec fn sector(c: Config, files: Seq<FileModel>, lba: int) -> Seq<u8> {
    if lba == 0 {
        boot_sector(c)
    } else if lba < c.spec_start_fat0() {
        zero_sector()
    } else if lba < c.spec_start_rootdir() {
        Seq::new(512, |j: int| fat_byte(files, fat_index(c, lba), j))
    } else if lba == c.spec_start_rootdir() {
        Seq::new(512, |j: int| root_byte(c, files, j))
    } else if lba < c.spec_start_clusters() {
        zero_sector()
    } else {
        Seq::new(512, |j: int| data_byte(files, lba - c.spec_start_clusters(), j))
    }
}

/// File `k`'s bytes after the host writes `buf` to block `lba`: only a
/// writable file's own block changes, in the part that lies inside the file.
pub open spec fn data_after_write(c: Config, files: Seq<FileModel>, k: int, lba: int, buf: Seq<u8>) -> Seq<u8> {
    let f = files[k];
    let d = lba - c.spec_start_clusters();
    if d >= 0 && f.writable && owner(files, d) == k {
        let base = (d - blocks_before(files, k)) * 512;
        Seq::new(f.data.len(), |p: int| if base <= p < base + 512 { buf[p - base] } else { f.data[p] })
    } else {
        f.data
    }
}

/// The files after the host writes `buf` to block `lba`.
pub open spec fn files_after_write(c: Config, files: Seq<FileModel>, lba: int, buf: Seq<u8>) -> Seq<FileModel> {
    Seq::new(
        files.len(),
        |k: int| FileModel { data: data_after_write(c, files, k, lba, buf), ..files[k] },
    )
}

/// The root directory's first sector lists the label and every file, and the
/// clusters hold the files and the UF2 window, all with 16-bit cluster numbers.
pub open spec fn files_fit(c: Config, files: Seq<FileModel>) -> bool {
    &&& files.len() + 1 <= 16
    &&& files.len() + 1 <= c.root_dir_entries
    &&& total_blocks(files) + UF2_SECTORS <= c.num_blocks - c.spec_start_clusters()
    &&& 2 + total_blocks(files) + UF2_SECTORS <= 0xFFFF
}

pub proof fn lemma_blocks_of(len: int)
    requires
        len >= 0,
    ensures
        blocks_of(len) >= 0,
        blocks_of(len) * 512 >= len,
        forall|b: int| 0 <= b < blocks_of(len) ==> #[trigger] (b * 512) < len,
{
    assert forall|b: int| 0 <= b < blocks_of(len) implies #[trigger] (b * 512) < len by {
        assert(b * 512 < len) by (nonlinear_arith)
            requires
                0 <= b,
                b < (len + 511) / 512,
        ;
    }
    assert(blocks_of(len) * 512 >= len) by (nonlinear_arith)
        requires
            len >= 0,
    ;
}

pub proof fn lemma_blocks_before_mono(files: Seq<FileModel>, j: int, k: int)
    requires
        0 <= j <= k <= files.len(),
    ensures
        0 <= blocks_before(files, j) <= blocks_before(files, k),
    decreases k,
{
    if j < k {
        lemma_blocks_before_mono(files, j, k - 1);
        lemma_blocks_of(files[k - 1].data.len() as int);
    } else if k > 0 {
        lemma_blocks_before_mono(files, 0, k - 1);
        lemma_blocks_of(files[k - 1].data.len() as int);
    }
}

/// A block inside file `k`'s span belongs to file `k`.
pub proof fn lemma_owner_in_span(files: Seq<FileModel>, k: int, d: int)
    requires
        0 <= k < files.len(),
        blocks_before(files, k) <= d < blocks_before(files, k + 1),
    ensures
        owner(files, d) == k,
{
    lemma_owner_from(files, k, d, 0);
}

proof fn lemma_owner_from(files: Seq<FileModel>, k: int, d: int, j: int)
    requires
        0 <= j <= k < files.len(),
        blocks_before(files, k) <= d < blocks_before(files, k + 1),
    ensures
        owner_from(files, d, j) == k,
    decreases k - j,
{
    if j < k {
        lemma_blocks_before_mono(files, j + 1, k);
        lemma_owner_from(files, k, d, j + 1);
    }
}

/// A block past all files belongs to none.
pub proof fn lemma_owner_past_end(files: Seq<FileModel>, d: int, j: int)
    requires
        0 <= j <= files.len(),
        d >= total_blocks(files),
    ensures
        owner_from(files, d, j) == files.len(),
    decreases files.len() - j,
{
    if j < files.len() {
        lemma_blocks_before_mono(files, j + 1, files.len() as int);
        lemma_owner_past_end(files, d, j + 1);
    }
}

/// Files with the same lengths take the same blocks.
pub proof fn lemma_same_lengths(a: Seq<FileModel>, b: Seq<FileModel>, k: int)
    requires
        a.len() == b.len(),
        0 <= k <= a.len(),
        forall|i: int| 0 <= i < a.len() ==> #[trigger] a[i].data.len() == b[i].data.len(),
    ensures
        blocks_before(a, k) == blocks_before(b, k),
    decreases k,
{
    if k > 0 {
        lemma_same_lengths(a, b, k - 1);
    }
}

pub proof fn lemma_same_owner(a: Seq<FileModel>, b: Seq<FileModel>, d: int, j: int)
    requires
        a.len() == b.len(),
        0 <= j <= a.len(),
        forall|i: int| 0 <= i < a.len() ==> #[trigger] a[i].data.len() == b[i].data.len(),
    ensures
        owner_from(a, d, j) == owner_from(b, d, j),
    decreases a.len() - j,
{
    if j < a.len() {
        lemma_same_lengths(a, b, j + 1);
        lemma_same_owner(a, b, d, j + 1);
    }
}

} // verus!
