use vstd::prelude::*;

pub mod boot;
pub mod config;
pub mod dir;
pub mod file;
pub mod image;
pub mod laws;

pub use config::Config;
pub use file::{ByteView, File, NameError};

use boot::boot_byte_of;
use dir::{dir_entry_byte_of, ATTR_VOLUME_LABEL_ENTRY};
use file::FileModel;
use image::{
    blocks_before, fat_entry, file_blocks, files_after_write, files_fit,
    lemma_blocks_before_mono, lemma_blocks_of, lemma_same_lengths, owner, owner_from, root_byte, sector, total_blocks,
    UF2_SECTORS,
};
use usbd_scsi::BlockDeviceError;

verus! {

/// Bytes in one block of the volume.
pub const BLOCK_BYTES: usize = 512;

/// The block-device error of the SCSI layer; no operation here returns it.
#[verifier::external_type_specification]
#[verifier::external_body]
pub struct ExBlockDeviceError(BlockDeviceError);

/// A FAT16 volume synthesised on demand from a fixed list of files.
pub struct GhostFat {
    pub config: Config,
    pub files: Vec<File>,
}

impl GhostFat {
    /// The files as the volume shows them.
    pub open spec fn files_view(&self) -> Seq<FileModel> {
        self.files@.map_values(|f: File| f@)
    }

    pub open spec fn wf(&self) -> bool {
        &&& self.config.wf()
        &&& files_fit(self.config, self.files_view())
    }

    /// The bytes of block `lba`.
    pub open spec fn spec_sector(&self, lba: int) -> Seq<u8> {
        sector(self.config, self.files_view(), lba)
    }

    /// A volume over `files`, in order, with the geometry of `config`.
    pub fn new(files: Vec<File>, config: Config) -> (r: GhostFat)
        requires
            config.wf(),
            files_fit(config, files@.map_values(|f: File| f@)),
        ensures
            r.wf(),
            r.config == config,
            r.files_view() == files@.map_values(|f: File| f@),
    {
        GhostFat { config, files }
    }

    /// A volume over `files` with the geometry of `config`, or `None` when the
    /// geometry is inconsistent or the files do not fit.
    pub fn try_new(files: Vec<File>, config: Config) -> (r: Option<GhostFat>)
        ensures
            r.is_some() <==> config.wf() && files_fit(config, files@.map_values(|f: File| f@)),
            r matches Some(g) ==> g.config == config && g.files_view() == files@.map_values(
                |f: File| f@,
            ),
    {
        let ghost view = files@.map_values(|f: File| f@);
        let c = &config;
        if c.sectors_per_cluster != 1 || c.reserved_sectors < 1 || c.fat_copies < 1
            || c.sectors_per_fat < 1 || c.root_dir_entries < 1 || c.start_clusters() > c.num_blocks {
            return None;
        }
        let n = files.len();
        if n >= 16 || n >= c.root_dir_entries as usize {
            return None;
        }
        let room = c.num_blocks - c.start_clusters();
        let mut t: u64 = 0;
        let mut k: usize = 0;
        while k < n
            invariant
                n == files@.len(),
                view == files@.map_values(|f: File| f@),
                k <= n,
                t == blocks_before(view, k as int),
                t <= 0xFFFF,
            decreases n - k,
        {
            let b = Self::file_blocks_of(&files[k]);
            if b > 0xFFFF || t + b as u64 > 0xFFFF {
                proof {
                    lemma_blocks_before_mono(view, k + 1, n as int);
                }
                return None;
            }
            t = t + b as u64;
            k = k + 1;
        }
        if t + UF2_SECTORS as u64 > room as u64 || 2 + t + UF2_SECTORS as u64 > 0xFFFF {
            return None;
        }
        Some(GhostFat { config, files })
    }

    /// Byte-addressed write; it changes nothing.
    pub fn write(&mut self, addr: u32, data: &[u8]) -> (r: Result<(), BlockDeviceError>)
        ensures
            r.is_ok(),
            final(self).config == old(self).config,
            final(self).files@ == old(self).files@,
    {
        Ok(())
    }

    pub fn config(&self) -> (r: &Config)
        ensures
            *r == self.config,
    {
        &self.config
    }

    pub fn files(&self) -> (r: &[File])
        ensures
            r@ == self.files@,
    {
        self.files.as_slice()
    }

    /// The last block the host may address.
    pub fn max_lba(&self) -> (r: u32)
        requires
            self.wf(),
        ensures
            r == self.config.num_blocks - 1,
    {
        self.config.max_lba()
    }

    fn file_blocks_of(f: &File) -> (r: usize)
        ensures
            r == file_blocks(f@),
    {
        let n = f.data.len();
        if n % 512 != 0 {
            n / 512 + 1
        } else {
            n / 512
        }
    }

    /// Blocks that all files take.
    fn total_blocks_of(&self) -> (r: u32)
        requires
            self.wf(),
        ensures
            r == total_blocks(self.files_view()),
    {
        let ghost files = self.files_view();
        let mut t: u32 = 0;
        let mut k: usize = 0;
        while k < self.files.len()
            invariant
                self.wf(),
                files == self.files_view(),
                k <= files.len(),
                t == blocks_before(files, k as int),
            decreases files.len() - k,
        {
            proof {
                lemma_blocks_before_mono(files, k + 1, files.len() as int);
            }
            t = t + Self::file_blocks_of(&self.files[k]) as u32;
            k = k + 1;
        }
        t
    }

    /// The file that holds data block `d` and the blocks before it; the file
    /// count and all blocks when no file holds it.
    fn locate(&self, d: u32) -> (r: (usize, u32))
        requires
            self.wf(),
        ensures
            r.0 == owner(self.files_view(), d as int),
            r.1 == blocks_before(self.files_view(), r.0 as int),
            r.0 <= self.files@.len(),
            r.0 < self.files@.len() ==> r.1 <= d < blocks_before(self.files_view(), r.0 + 1),
            r.0 == self.files@.len() ==> d >= total_blocks(self.files_view()),
    {
        let ghost files = self.files_view();
        let mut before: u32 = 0;
        let mut k: usize = 0;
        while k < self.files.len()
            invariant
                self.wf(),
                files == self.files_view(),
                k <= files.len(),
                before == blocks_before(files, k as int),
                d >= before,
                owner_from(files, d as int, k as int) == owner(files, d as int),
            decreases files.len() - k,
        {
            proof {
                lemma_blocks_before_mono(files, k + 1, files.len() as int);
            }
            let next = before + Self::file_blocks_of(&self.files[k]) as u32;
            if d < next {
                return (k, before);
            }
            before = next;
            k = k + 1;
        }
        (k, before)
    }

    /// FAT entry `v`.
    fn fat_entry_of(&self, v: u32) -> (r: u16)
        requires
            self.wf(),
        ensures
            r == fat_entry(self.files_view(), v as int),
    {
        let t = self.total_blocks_of();
        if v == 0 {
            0xFFF0
        } else if v == 1 {
            0xFFFF
        } else if v < 2 + t {
            let (k, before) = self.locate(v - 2);
            proof {
                lemma_blocks_before_mono(self.files_view(), k + 1, self.files@.len() as int);
            }
            let end = before + Self::file_blocks_of(&self.files[k]) as u32;
            if v - 1 == end {
                0xFFFF
            } else {
                (v + 1) as u16
            }
        } else if v < 2 + t + UF2_SECTORS - 1 {
            (v + 1) as u16
        } else {
            0xFFFF
        }
    }

    /// Byte `j` of the first root-directory sector.
    fn root_byte_of(&self, j: usize) -> (r: u8)
        requires
            self.wf(),
            j < 512,
        ensures
            r == root_byte(self.config, self.files_view(), j as int),
    {
        let slot = j / 32;
        let off = j % 32;
        if slot == 0 {
            dir_entry_byte_of(&self.config.volume_label, ATTR_VOLUME_LABEL_ENTRY, 0, 0, off)
        } else if slot <= self.files.len() {
            let ghost files = self.files_view();
            let f = &self.files[slot - 1];
            let mut before: u32 = 0;
            let mut k: usize = 0;
            while k < slot - 1
                invariant
                    self.wf(),
                    files == self.files_view(),
                    1 <= slot <= files.len(),
                    k <= slot - 1,
                    before == blocks_before(files, k as int),
                decreases slot - 1 - k,
            {
                proof {
                    lemma_blocks_before_mono(files, k + 1, files.len() as int);
                }
                before = before + Self::file_blocks_of(&self.files[k]) as u32;
                k = k + 1;
            }
            proof {
                lemma_blocks_before_mono(files, slot as int, files.len() as int);
                lemma_blocks_of(f.data@.len() as int);
            }
            dir_entry_byte_of(&f.name, f.attrs, 2 + before, f.data.len() as u32, off)
        } else {
            0
        }
    }

    /// Byte `i` of block `lba`.
    fn sector_byte(&self, lba: u32, i: usize) -> (r: u8)
        requires
            self.wf(),
            i < 512,
        ensures
            r == self.spec_sector(lba as int)[i as int],
    {
        let c = &self.config;
        if lba == 0 {
            boot_byte_of(c, i)
        } else if lba < c.start_fat0() {
            0
        } else if lba < c.start_rootdir() {
            let s = (lba - c.start_fat0()) % c.sectors_per_fat as u32;
            let v = 256 * s + (i / 2) as u32;
            let e = self.fat_entry_of(v);
            if i % 2 == 0 {
                (e % 256) as u8
            } else {
                (e / 256) as u8
            }
        } else if lba == c.start_rootdir() {
            self.root_byte_of(i)
        } else if lba < c.start_clusters() {
            0
        } else {
            let d = lba - c.start_clusters();
            let (k, before) = self.locate(d);
            if k < self.files.len() {
                let f = &self.files[k];
                let n = f.data.len();
                proof {
                    lemma_blocks_of(f.data@.len() as int);
                    assert((d - before) as int * 512 < f.data@.len());
                }
                let off = (d - before) as usize * 512;
                if i < n - off {
                    f.data[off + i]
                } else {
                    0
                }
            } else {
                0
            }
        }
    }

    /// Fills `block` with the bytes of block `lba`.
    pub fn read_block(&self, lba: u32, block: &mut [u8]) -> (r: Result<(), BlockDeviceError>)
        requires
            self.wf(),
            lba < self.config.num_blocks,
            old(block)@.len() == BLOCK_BYTES,
        ensures
            r.is_ok(),
            final(block)@ == self.spec_sector(lba as int),
    {
        let mut i: usize = 0;
        while i < BLOCK_BYTES
            invariant
                self.wf(),
                i <= BLOCK_BYTES,
                block@.len() == BLOCK_BYTES,
                forall|j: int| 0 <= j < i ==> block@[j] == self.spec_sector(lba as int)[j],
            decreases BLOCK_BYTES - i,
        {
            let b = self.sector_byte(lba, i);
            block[i] = b;
            i = i + 1;
        }
        assert(block@ =~= self.spec_sector(lba as int));
        Ok(())
    }
    /// Takes block `lba` from the host. Only a block of a writable file changes
    /// anything: that file's bytes in the block, as far as the file reaches.
    /// Every other write is accepted and dropped.
    pub fn write_block(&mut self, lba: u32, block: &[u8]) -> (r: Result<(), BlockDeviceError>)
        requires
            old(self).wf(),
            lba < old(self).config.num_blocks,
            block@.len() == BLOCK_BYTES,
        ensures
            r.is_ok(),
            final(self).wf(),
            final(self).config == old(self).config,
            final(self).files_view() == files_after_write(
                old(self).config,
                old(self).files_view(),
                lba as int,
                block@,
            ),
    {
        let ghost files0 = self.files_view();
        let ghost c = self.config;
        let sc = self.config.start_clusters();
        if lba >= sc {
            let d = lba - sc;
            let (k, before) = self.locate(d);
            if k < self.files.len() && self.files[k].writable {
                let n = self.files[k].data.len();
                proof {
                    lemma_blocks_of(n as int);
                    assert((d - before) as int * 512 < n);
                }
                let off = (d - before) as usize * 512;
                let m = if n - off < BLOCK_BYTES { n - off } else { BLOCK_BYTES };
                let mut j: usize = 0;
                while j < m
                    invariant
                        self.config == c,
                        k < files0.len(),
                        self.files@.len() == files0.len(),
                        off + m <= n,
                        m <= BLOCK_BYTES,
                        j <= m,
                        block@.len() == BLOCK_BYTES,
                        forall|i: int| 0 <= i < files0.len() && i != k ==> #[trigger] self.files@[i]@ == files0[i],
                        self.files@[k as int].name@ == files0[k as int].name,
                        self.files@[k as int].attrs == files0[k as int].attrs,
                        self.files@[k as int].writable == files0[k as int].writable,
                        self.files@[k as int].data@.len() == n,
                        forall|p: int| 0 <= p < n ==> #[trigger] self.files@[k as int].data@[p] == if off <= p < off + j {
                            block@[p - off]
                        } else {
                            files0[k as int].data[p]
                        },
                    decreases m - j,
                {
                    self.files[k].data[off + j] = block[j];
                    j = j + 1;
                }
            }
        }
        proof {
            let files1 = self.files_view();
            let want = files_after_write(c, files0, lba as int, block@);
            assert forall|i: int| 0 <= i < files0.len() implies #[trigger] files1[i] == want[i] by {
                assert(files1[i].data =~= want[i].data);
            }
            assert(files1 =~= want);
            lemma_same_lengths(files0, files1, files0.len() as int);
        }
        Ok(())
    }
}

} // verus!
