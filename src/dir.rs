use vstd::prelude::*;

use crate::boot::{le_byte, le_byte_of};

verus! {

/// Attributes of the volume-label entry: volume label and archive.
pub const ATTR_VOLUME_LABEL_ENTRY: u8 = 0x28;

/// Byte `off` of a 32-byte directory entry: name, attributes, ten reserved
/// bytes, time and date (zero), first cluster and size.
pub open spec fn dir_entry_byte(name: Seq<u8>, attrs: u8, cluster: int, size: int, off: int) -> u8 {
    if off < 11 {
        name[off]
    } else if off == 11 {
        attrs
    } else if off == 26 || off == 27 {
        le_byte(cluster, off - 26)
    } else if 28 <= off < 32 {
        le_byte(size, off - 28)
    } else {
        0
    }
}

pub fn dir_entry_byte_of(name: &[u8; 11], attrs: u8, cluster: u32, size: u32, off: usize) -> (r: u8)
    requires
        off < 32,
    ensures
        r == dir_entry_byte(name@, attrs, cluster as int, size as int, off as int),
{
    if off < 11 {
        name[off]
    } else if off == 11 {
        attrs
    } else if off == 26 || off == 27 {
        le_byte_of(cluster, off - 26)
    } else if 28 <= off {
        le_byte_of(size, off - 28)
    } else {
        0
    }
}

} // verus!
