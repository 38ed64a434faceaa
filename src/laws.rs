use vstd::prelude::*;

use crate::boot::{fs_type, le_byte};
use crate::config::Config;
use crate::file::FileModel;
use crate::image::{
    blocks_before, fat_entry, file_blocks, files_after_write, files_fit, lemma_blocks_before_mono,
    lemma_blocks_of, lemma_owner_in_span, lemma_owner_past_end, lemma_same_lengths,
    lemma_same_owner, owner, sector, start_cluster, total_blocks, zero_sector, UF2_SECTORS,
};

verus! {

/// Every FAT copy reads the same: sector `i` of the second copy equals sector
/// `i` of the first.
pub proof fn lemma_fat_copies_agree(c: Config, files: Seq<FileModel>, i: int)
    requires
        c.wf(),
        files_fit(c, files),
        c.fat_copies >= 2,
        0 <= i < c.sectors_per_fat,
    ensures
        sector(c, files, c.spec_start_fat0() + i) == sector(c, files, c.spec_start_fat1() + i),
{
    let spf = c.sectors_per_fat as int;
    assert(c.fat_copies as int * spf >= 2 * spf) by (nonlinear_arith)
        requires
            c.fat_copies >= 2,
            spf >= 1,
    ;
    assert((i + spf) % spf == i % spf) by (nonlinear_arith)
        requires
            spf >= 1,
            0 <= i < spf,
    ;
    assert(sector(c, files, c.spec_start_fat0() + i) =~= sector(c, files, c.spec_start_fat1() + i));
}

/// The FAT chains each file's clusters in order and ends the chain at its
/// last cluster; after the files it chains the `UF2_SECTORS` clusters of the
/// UF2 window the same way.
pub proof fn lemma_fat_chains(c: Config, files: Seq<FileModel>)
    requires
        c.wf(),
        files_fit(c, files),
    ensures
        forall|k: int, b: int|
            0 <= k < files.len() && 0 <= b < file_blocks(files[k]) ==> #[trigger] fat_entry(
                files,
                start_cluster(files, k) + b,
            ) == if b + 1 < file_blocks(files[k]) {
                start_cluster(files, k) + b + 1
            } else {
                0xFFFF
            },
        forall|i: int|
            0 <= i < UF2_SECTORS ==> #[trigger] fat_entry(files, 2 + total_blocks(files) + i) == if i
                + 1 < UF2_SECTORS {
                2 + total_blocks(files) + i + 1
            } else {
                0xFFFF
            },
{
    lemma_blocks_before_mono(files, 0, files.len() as int);
    assert forall|k: int, b: int|
        0 <= k < files.len() && 0 <= b < file_blocks(files[k]) implies #[trigger] fat_entry(
            files,
            start_cluster(files, k) + b,
        ) == if b + 1 < file_blocks(files[k]) {
            start_cluster(files, k) + b + 1
        } else {
            0xFFFF
        } by {
        lemma_blocks_before_mono(files, k, k + 1);
        lemma_blocks_before_mono(files, k + 1, files.len() as int);
        lemma_owner_in_span(files, k, blocks_before(files, k) + b);
    }
}

/// FAT entry `v` lies little-endian in bytes `2 * (v % 256)` and the next of
/// the table's sector `v / 256`.
pub proof fn lemma_fat_entry_bytes(c: Config, files: Seq<FileModel>, v: int)
    requires
        c.wf(),
        files_fit(c, files),
        0 <= v < 256 * c.sectors_per_fat,
    ensures
        sector(c, files, c.spec_start_fat0() + v / 256)[2 * (v % 256)] == le_byte(fat_entry(files, v), 0),
        sector(c, files, c.spec_start_fat0() + v / 256)[2 * (v % 256) + 1] == le_byte(fat_entry(files, v), 1),
{
    let spf = c.sectors_per_fat as int;
    assert(0 <= v / 256 < spf && v / 256 % spf == v / 256) by (nonlinear_arith)
        requires
            0 <= v < 256 * spf,
            spf >= 1,
    ;
    assert(c.fat_copies as int * spf >= spf) by (nonlinear_arith)
        requires
            c.fat_copies >= 1,
            spf >= 1,
    ;
    assert(256 * (v / 256) + (2 * (v % 256)) / 2 == v) by (nonlinear_arith);
    assert(256 * (v / 256) + (2 * (v % 256) + 1) / 2 == v) by (nonlinear_arith);
    assert((2 * (v % 256)) % 2 == 0 && (2 * (v % 256) + 1) % 2 == 1) by (nonlinear_arith);
}

/// Root-directory sectors after the first, and data sectors past the last
/// file's blocks, read as zeros.
pub proof fn lemma_unused_sectors_zero(c: Config, files: Seq<FileModel>, lba: int)
    requires
        c.wf(),
        files_fit(c, files),
        (c.spec_start_rootdir() < lba < c.spec_start_clusters()) || (c.spec_start_clusters()
            + total_blocks(files) <= lba),
    ensures
        sector(c, files, lba) == zero_sector(),
{
    assert(c.spec_root_dir_sectors() >= 1);
    lemma_blocks_before_mono(files, 0, files.len() as int);
    if lba >= c.spec_start_clusters() {
        lemma_owner_past_end(files, lba - c.spec_start_clusters(), 0);
        assert(owner(files, lba - c.spec_start_clusters()) == files.len());
    }
    assert forall|i: int| 0 <= i < 512 implies #[trigger] sector(c, files, lba)[i] == 0u8 by {}
    assert(sector(c, files, lba) =~= zero_sector());
}

/// Byte `p` of file `k` is byte `p % 512` of the file's `p / 512`-th block,
/// which lies on the volume.
pub proof fn lemma_file_bytes_readable(c: Config, files: Seq<FileModel>, k: int, p: int)
    requires
        c.wf(),
        files_fit(c, files),
        0 <= k < files.len(),
        0 <= p < files[k].data.len(),
    ensures
        c.spec_start_clusters() + blocks_before(files, k) + p / 512 < c.num_blocks,
        sector(c, files, c.spec_start_clusters() + blocks_before(files, k) + p / 512)[p % 512]
            == files[k].data[p],
{
    let len = files[k].data.len() as int;
    assert(p / 512 < (len + 511) / 512) by (nonlinear_arith)
        requires
            0 <= p < len,
    ;
    let d = blocks_before(files, k) + p / 512;
    lemma_blocks_before_mono(files, k, k + 1);
    lemma_blocks_before_mono(files, k + 1, files.len() as int);
    assert(d < blocks_before(files, k + 1));
    lemma_owner_in_span(files, k, d);
    assert((p / 512) * 512 + p % 512 == p) by (nonlinear_arith);
    assert(0 <= p % 512 < 512);
    assert(c.spec_root_dir_sectors() >= 1);
    let lba = c.spec_start_clusters() + d;
    assert(lba >= c.spec_start_clusters() && lba > c.spec_start_rootdir());
    assert((d - blocks_before(files, k)) * 512 + p % 512 == p);
}

/// After the host writes `buf` to block `b` of a writable file, that block
/// reads back as `buf` up to the file's end and zeros after; the file's other
/// bytes and every other file stay as they were.
pub proof fn lemma_write_then_read(c: Config, files: Seq<FileModel>, k: int, b: int, buf: Seq<u8>)
    requires
        c.wf(),
        files_fit(c, files),
        0 <= k < files.len(),
        files[k].writable,
        0 <= b < file_blocks(files[k]),
        buf.len() == 512,
    ensures
        ({
            let lba = c.spec_start_clusters() + blocks_before(files, k) + b;
            let after = files_after_write(c, files, lba, buf);
            &&& lba < c.num_blocks
            &&& forall|i: int|
                0 <= i < 512 ==> #[trigger] sector(c, after, lba)[i] == if b * 512 + i
                    < files[k].data.len() {
                    buf[i]
                } else {
                    0
                }
            &&& forall|j: int| 0 <= j < files.len() && j != k ==> #[trigger] after[j] == files[j]
            &&& after[k].data.len() == files[k].data.len()
            &&& forall|p: int|
                0 <= p < files[k].data.len() && !(b * 512 <= p < b * 512 + 512)
                    ==> #[trigger] after[k].data[p] == files[k].data[p]
        }),
{
    let lba = c.spec_start_clusters() + blocks_before(files, k) + b;
    let d = blocks_before(files, k) + b;
    let after = files_after_write(c, files, lba, buf);
    lemma_blocks_before_mono(files, k, k + 1);
    lemma_blocks_before_mono(files, k + 1, files.len() as int);
    lemma_owner_in_span(files, k, d);
    assert forall|i: int| 0 <= i < files.len() implies #[trigger] after[i].data.len()
        == files[i].data.len() by {}
    lemma_same_owner(files, after, d, 0);
    lemma_same_lengths(files, after, k);
    lemma_same_lengths(files, after, k + 1);
    lemma_blocks_of(files[k].data.len() as int);
    assert(c.spec_root_dir_sectors() >= 1);
    assert(d < blocks_before(files, k + 1));
    assert(owner(after, d) == k);
    assert forall|i: int| 0 <= i < 512 implies #[trigger] sector(c, after, lba)[i] == if b * 512 + i
        < files[k].data.len() {
        buf[i]
    } else {
        0
    } by {
        assert((d - blocks_before(after, k)) * 512 + i == b * 512 + i);
    }
    assert forall|j: int| 0 <= j < files.len() && j != k implies #[trigger] after[j] == files[j] by {}
}

/// Writes outside the clusters, to blocks no file holds, or to read-only files
/// leave every file as it was.
pub proof fn lemma_ignored_writes(c: Config, files: Seq<FileModel>, lba: int, buf: Seq<u8>)
    requires
        c.wf(),
        files_fit(c, files),
        lba < c.spec_start_clusters() || owner(files, lba - c.spec_start_clusters()) >= files.len()
            || !files[owner(files, lba - c.spec_start_clusters())].writable,
    ensures
        files_after_write(c, files, lba, buf) == files,
{
    assert(files_after_write(c, files, lba, buf) =~= files);
}

/// Root-directory slot `k + 1` holds file `k`: its short name, attributes,
/// first cluster and size.
pub proof fn lemma_root_entry(c: Config, files: Seq<FileModel>, k: int)
    requires
        c.wf(),
        files_fit(c, files),
        0 <= k < files.len(),
        files[k].name.len() == 11,
    ensures
        ({
            let root = sector(c, files, c.spec_start_rootdir());
            let at = 32 * (k + 1);
            &&& root.subrange(at, at + 11) == files[k].name
            &&& root[at + 11] == files[k].attrs
            &&& root[at + 26] == le_byte(start_cluster(files, k), 0)
            &&& root[at + 27] == le_byte(start_cluster(files, k), 1)
            &&& forall|q: int| 0 <= q < 4 ==> #[trigger] root[at + 28 + q] == le_byte(files[k].data.len() as int, q)
        }),
{
    let root = sector(c, files, c.spec_start_rootdir());
    let at = 32 * (k + 1);
    assert forall|j: int| 0 <= j < 11 implies #[trigger] root.subrange(at, at + 11)[j] == files[k].name[j] by {
        assert((at + j) / 32 == k + 1 && (at + j) % 32 == j) by (nonlinear_arith)
            requires
                at == 32 * (k + 1),
                0 <= j < 11,
        ;
    }
    assert(root.subrange(at, at + 11) =~= files[k].name);
    assert forall|q: int| 0 <= q < 4 implies #[trigger] root[at + 28 + q] == le_byte(files[k].data.len() as int, q) by {
        assert((at + 28 + q) / 32 == k + 1 && (at + 28 + q) % 32 == 28 + q) by (nonlinear_arith)
            requires
                at == 32 * (k + 1),
                0 <= q < 4,
        ;
    }
    assert((at + 11) / 32 == k + 1 && (at + 11) % 32 == 11) by (nonlinear_arith)
        requires
            at == 32 * (k + 1),
    ;
    assert((at + 26) / 32 == k + 1 && (at + 26) % 32 == 26) by (nonlinear_arith)
        requires
            at == 32 * (k + 1),
    ;
    assert((at + 27) / 32 == k + 1 && (at + 27) % 32 == 27) by (nonlinear_arith)
        requires
            at == 32 * (k + 1),
    ;
}

/// With printable names, the root directory holds exactly one live entry
/// for the label and one for each file, then the end-of-directory mark.
pub proof fn lemma_root_enumeration(c: Config, files: Seq<FileModel>)
    requires
        c.wf(),
        files_fit(c, files),
        forall|k: int|
            0 <= k < files.len() ==> #[trigger] files[k].name.len() == 11 && 0x20 <= files[k].name[0]
                < 0x7f,
        c.volume_label@[0] != 0 && c.volume_label@[0] != 0xE5,
    ensures
        ({
            let root = sector(c, files, c.spec_start_rootdir());
            &&& forall|s: int|
                0 <= s <= files.len() ==> #[trigger] root[32 * s] != 0 && root[32 * s] != 0xE5
            &&& files.len() + 1 < 16 ==> root[32 * (files.len() + 1) as int] == 0
        }),
{
    let root = sector(c, files, c.spec_start_rootdir());
    lemma_volume_layout(c, files);
    assert(root.subrange(0, 11)[0] == root[0]);
    assert forall|s: int| 0 <= s <= files.len() implies #[trigger] root[32 * s] != 0 && root[32 * s]
        != 0xE5 by {
        if s > 0 {
            assert(files[s - 1].name.len() == 11);
            lemma_root_entry(c, files, s - 1);
            assert(32 * ((s - 1) + 1) == 32 * s);
            assert(root.subrange(32 * s, 32 * s + 11)[0] == root[32 * s]);
            assert(root[32 * s] == files[s - 1].name[0]);
        } else {
            assert(root[0] == c.volume_label@[0]);
        }
    }
}

/// The volume announces itself as FAT16 with a valid boot signature, the root
/// directory opens with the volume label, and after the label and the files
/// comes the end-of-directory mark.
pub proof fn lemma_volume_layout(c: Config, files: Seq<FileModel>)
    requires
        c.wf(),
        files_fit(c, files),
    ensures
        sector(c, files, 0)[510] == 0x55,
        sector(c, files, 0)[511] == 0xAA,
        sector(c, files, 0).subrange(54, 62) == fs_type(),
        sector(c, files, c.spec_start_rootdir()).subrange(0, 11) == c.volume_label@,
        sector(c, files, c.spec_start_rootdir())[11] == 0x28,
        files.len() + 1 < 16 ==> sector(c, files, c.spec_start_rootdir())[32 * (files.len() + 1) as int]
            == 0,
{
    assert(sector(c, files, 0).subrange(54, 62) =~= fs_type());
    assert(sector(c, files, c.spec_start_rootdir()).subrange(0, 11) =~= c.volume_label@);
    let n = files.len() as int;
    if n + 1 < 16 {
        assert((32 * (n + 1)) / 32 == n + 1 && (32 * (n + 1)) % 32 == 0) by (nonlinear_arith)
            requires
                n >= 0,
        ;
    }
}

} // verus!
