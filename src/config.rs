use vstd::prelude::*;

verus! {

/// Geometry and identity of the synthetic volume, fixed at construction.
#[derive(Clone, Copy)]
pub struct Config {
    pub num_blocks: u32,
    pub reserved_sectors: u16,
    pub fat_copies: u8,
    pub sectors_per_fat: u16,
    pub root_dir_entries: u16,
    pub sectors_per_cluster: u8,
    pub volume_label: [u8; 11],
    pub oem_name: [u8; 8],
    pub serial: u32,
}

impl Config {
    pub open spec fn spec_start_fat0(self) -> int {
        self.reserved_sectors as int
    }

    pub open spec fn spec_start_fat1(self) -> int {
        self.spec_start_fat0() + self.sectors_per_fat as int
    }

    pub open spec fn spec_start_rootdir(self) -> int {
        self.spec_start_fat0() + self.fat_copies as int * self.sectors_per_fat as int
    }

    /// Sectors taken by the root directory: 16 entries of 32 bytes per sector, rounded up.
    pub open spec fn spec_root_dir_sectors(self) -> int {
        (self.root_dir_entries as int + 15) / 16
    }

    pub open spec fn spec_start_clusters(self) -> int {
        self.spec_start_rootdir() + self.spec_root_dir_sectors()
    }

    /// The region boundaries are ordered and the volume holds them all.
    pub open spec fn wf(self) -> bool {
        &&& self.sectors_per_cluster == 1
        &&& self.reserved_sectors >= 1
        &&& self.fat_copies >= 1
        &&& self.sectors_per_fat >= 1
        &&& self.root_dir_entries >= 1
        &&& self.spec_start_clusters() <= self.num_blocks
    }

    pub fn start_fat0(&self) -> (r: u32)
        ensures
            r == self.spec_start_fat0(),
    {
        self.reserved_sectors as u32
    }

    pub fn start_fat1(&self) -> (r: u32)
        ensures
            r == self.spec_start_fat1(),
    {
        self.reserved_sectors as u32 + self.sectors_per_fat as u32
    }

    pub fn start_rootdir(&self) -> (r: u32)
        ensures
            r == self.spec_start_rootdir(),
            r <= 65535 * 256,
    {
        assert(self.fat_copies as int * self.sectors_per_fat as int <= 255 * 65535) by (nonlinear_arith);
        self.reserved_sectors as u32 + self.fat_copies as u32 * self.sectors_per_fat as u32
    }

    pub fn root_dir_sectors(&self) -> (r: u32)
        ensures
            r == self.spec_root_dir_sectors(),
            r <= 4096,
    {
        (self.root_dir_entries as u32 + 15) / 16
    }

    pub fn start_clusters(&self) -> (r: u32)
        ensures
            r == self.spec_start_clusters(),
    {
        self.start_rootdir() + self.root_dir_sectors()
    }

    /// The last addressable block.
    pub fn max_lba(&self) -> (r: u32)
        requires
            self.num_blocks >= 1,
        ensures
            r == self.num_blocks - 1,
    {
        self.num_blocks - 1
    }
}

impl Default for Config {
    /// A volume of 8000 blocks, large enough that hosts pick FAT16.
    fn default() -> (r: Config)
        ensures
            r.wf(),
            r.num_blocks == 8000,
            r.reserved_sectors == 1,
            r.fat_copies == 2,
            r.sectors_per_fat == 20,
            r.root_dir_entries == 64,
            r.sectors_per_cluster == 1,
            r.volume_label@ == seq![0x55u8, 0x46, 0x32, 0x42, 0x4f, 0x4f, 0x54, 0x20, 0x20, 0x20, 0x20],
            r.oem_name@ == seq![0x55u8, 0x46, 0x32, 0x20, 0x55, 0x46, 0x32, 0x20],
            r.serial == 0x00420042,
    {
        // "UF2BOOT    " and "UF2 UF2 "
        let volume_label: [u8; 11] = [0x55, 0x46, 0x32, 0x42, 0x4f, 0x4f, 0x54, 0x20, 0x20, 0x20, 0x20];
        let oem_name: [u8; 8] = [0x55, 0x46, 0x32, 0x20, 0x55, 0x46, 0x32, 0x20];
        let r = Config {
            num_blocks: 8000,
            reserved_sectors: 1,
            fat_copies: 2,
            sectors_per_fat: 20,
            root_dir_entries: 64,
            sectors_per_cluster: 1,
            volume_label,
            oem_name,
            serial: 0x00420042,
        };
        assert(r.volume_label@ == seq![0x55u8, 0x46, 0x32, 0x42, 0x4f, 0x4f, 0x54, 0x20, 0x20, 0x20, 0x20]);
        assert(r.oem_name@ == seq![0x55u8, 0x46, 0x32, 0x20, 0x55, 0x46, 0x32, 0x20]);
        r
    }
}

} // verus!
