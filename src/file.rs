use vstd::prelude::*;
use vstd::string::StringSliceAdditionalSpecFns;

verus! {

/// Why a name cannot be turned into an 8.3 short name.
#[derive(Clone, Copy, Debug, PartialEq, Eq, Structural)]
pub enum NameError {
    /// The stem is over 8 bytes or the extension over 3.
    TooLong,
    /// A byte lies outside the short-name character set.
    InvalidChar,
}

/// The bytes of a file and whether the host may change them.
pub enum ByteView {
    ReadOnly(Vec<u8>),
    ReadWrite(Vec<u8>),
}

/// Directory attribute bits.
pub const ATTR_READ_ONLY: u8 = 0x01;
pub const ATTR_ARCHIVE: u8 = 0x20;

/// A file presented on the volume.
pub struct File {
    pub name: [u8; 11],
    pub attrs: u8,
    pub data: Vec<u8>,
    pub writable: bool,
}

/// What a file is to the volume: its short name, attributes, bytes and
/// whether host writes reach it.
pub struct FileModel {
    pub name: Seq<u8>,
    pub attrs: u8,
    pub data: Seq<u8>,
    pub writable: bool,
}

impl View for File {
    type V = FileModel;

    open spec fn view(&self) -> FileModel {
        FileModel { name: self.name@, attrs: self.attrs, data: self.data@, writable: self.writable }
    }
}

/// Letters, digits and `$ % ' - _ @ ~ ` ! ( ) { } ^ # &`.
pub open spec fn is_short_name_byte(c: u8) -> bool {
    ||| (0x30 <= c <= 0x39)
    ||| (0x41 <= c <= 0x5a)
    ||| (0x61 <= c <= 0x7a)
    ||| c == 0x24 || c == 0x25 || c == 0x27 || c == 0x2d || c == 0x5f || c == 0x40
    ||| c == 0x7e || c == 0x60 || c == 0x21 || c == 0x28 || c == 0x29 || c == 0x7b
    ||| c == 0x7d || c == 0x5e || c == 0x23 || c == 0x26
}

pub open spec fn upper(c: u8) -> u8 {
    if 0x61 <= c <= 0x7a {
        (c - 32) as u8
    } else {
        c
    }
}

/// Index of the last `.` in `b`, or -1 when there is none.
pub open spec fn last_dot(b: Seq<u8>) -> int
    decreases b.len(),
{
    if b.len() == 0 {
        -1
    } else if b.last() == 0x2e {
        b.len() - 1
    } else {
        last_dot(b.drop_last())
    }
}

pub open spec fn stem_of(b: Seq<u8>) -> Seq<u8> {
    if last_dot(b) < 0 {
        b
    } else {
        b.subrange(0, last_dot(b))
    }
}

pub open spec fn ext_of(b: Seq<u8>) -> Seq<u8> {
    if last_dot(b) < 0 {
        seq![]
    } else {
        b.subrange(last_dot(b) + 1, b.len() as int)
    }
}

/// `part` upper-cased and padded with spaces to `width` bytes.
pub open spec fn padded(part: Seq<u8>, width: nat) -> Seq<u8> {
    Seq::new(width, |i: int| if i < part.len() { upper(part[i]) } else { 0x20u8 })
}

/// The 8.3 short name of an ASCII name, split on its last `.`.
pub open spec fn fat_short_name(b: Seq<u8>) -> Result<Seq<u8>, NameError> {
    let stem = stem_of(b);
    let ext = ext_of(b);
    if stem.len() > 8 || ext.len() > 3 {
        Err(NameError::TooLong)
    } else if exists|i: int| 0 <= i < b.len() && i != last_dot(b) && !is_short_name_byte(b[i]) {
        Err(NameError::InvalidChar)
    } else {
        Ok(padded(stem, 8) + padded(ext, 3))
    }
}

proof fn lemma_last_dot(b: Seq<u8>)
    ensures
        -1 <= last_dot(b) < b.len(),
        last_dot(b) >= 0 ==> b[last_dot(b)] == 0x2e,
        forall|i: int| last_dot(b) < i < b.len() ==> b[i] != 0x2e,
    decreases b.len(),
{
    if b.len() > 0 && b.last() != 0x2e {
        lemma_last_dot(b.drop_last());
        assert(forall|i: int| 0 <= i < b.len() - 1 ==> b.drop_last()[i] == b[i]);
    }
}

/// Every byte of a short name is a printable ASCII byte: never 0x00, which
/// ends a directory, nor 0xE5, which marks a deleted entry.
pub proof fn lemma_short_name_printable(b: Seq<u8>)
    ensures
        fat_short_name(b) matches Ok(n) ==> n.len() == 11 && forall|i: int|
            0 <= i < 11 ==> 0x20 <= #[trigger] n[i] < 0x7f,
{
    if let Ok(n) = fat_short_name(b) {
        lemma_last_dot(b);
        let stem = stem_of(b);
        let ext = ext_of(b);
        assert forall|i: int| 0 <= i < 11 implies 0x20 <= #[trigger] n[i] < 0x7f by {
            if i < 8 && i < stem.len() {
                assert(b[i] == stem[i] && i != last_dot(b));
                assert(is_short_name_byte(b[i]));
            } else if 8 <= i && i - 8 < ext.len() {
                let q = last_dot(b) + 1 + (i - 8);
                assert(b[q] == ext[i - 8] && q != last_dot(b));
                assert(is_short_name_byte(b[q]));
            }
        }
    }
}

fn find_last_dot(b: &[u8]) -> (r: Option<usize>)
    ensures
        last_dot(b@) < 0 ==> r.is_none(),
        last_dot(b@) >= 0 ==> r == Some(last_dot(b@) as usize),
{
    let mut i: usize = b.len();
    assert(b@.subrange(0, i as int) == b@);
    while i > 0
        invariant
            i <= b@.len(),
            last_dot(b@) == last_dot(b@.subrange(0, i as int)),
        decreases i,
    {
        let c = b[i - 1];
        if c == 0x2e {
            assert(b@.subrange(0, i as int).drop_last() == b@.subrange(0, i - 1));
            return Some(i - 1);
        }
        assert(b@.subrange(0, i as int).drop_last() == b@.subrange(0, i - 1));
        i = i - 1;
    }
    None
}

fn is_short_name_char(c: u8) -> (r: bool)
    ensures
        r == is_short_name_byte(c),
{
    (0x30 <= c && c <= 0x39) || (0x41 <= c && c <= 0x5a) || (0x61 <= c && c <= 0x7a) || c == 0x24
        || c == 0x25 || c == 0x27 || c == 0x2d || c == 0x5f || c == 0x40 || c == 0x7e || c == 0x60
        || c == 0x21 || c == 0x28 || c == 0x29 || c == 0x7b || c == 0x7d || c == 0x5e || c == 0x23
        || c == 0x26
}

fn to_upper(c: u8) -> (r: u8)
    ensures
        r == upper(c),
{
    if 0x61 <= c && c <= 0x7a {
        c - 32
    } else {
        c
    }
}

/// The 8.3 short name of `name`: the stem and extension upper-cased and space-padded.
pub fn short_name_of(name: &str) -> (r: Result<[u8; 11], NameError>)
    ensures
        match (r, fat_short_name(name.spec_bytes())) {
            (Ok(n), Ok(m)) => n@ == m,
            (Err(e), Err(f)) => e == f,
            _ => false,
        },
{
    let b = name.as_bytes();
    let dot = find_last_dot(b);
    proof {
        lemma_last_dot(b@);
    }
    let (stem_len, ext_start): (usize, usize) = match dot {
        Some(d) => {
            assert(d < b.len());
            (d, d + 1)
        },
        None => (b.len(), b.len()),
    };
    assert(stem_of(b@) == b@.subrange(0, stem_len as int));
    assert(ext_of(b@) == b@.subrange(ext_start as int, b@.len() as int));
    if stem_len > 8 || b.len() - ext_start > 3 {
        return Err(NameError::TooLong);
    }
    let mut i: usize = 0;
    while i < b.len()
        invariant
            i <= b@.len(),
            b@ == name.spec_bytes(),
            -1 <= last_dot(b@) < b@.len(),
            stem_of(b@).len() <= 8,
            ext_of(b@).len() <= 3,
            last_dot(b@) < 0 ==> dot.is_none(),
            last_dot(b@) >= 0 ==> dot == Some(last_dot(b@) as usize),
            forall|j: int| 0 <= j < i && j != last_dot(b@) ==> is_short_name_byte(b@[j]),
        decreases b@.len() - i,
    {
        let at_dot = match dot {
            Some(d) => d == i,
            None => false,
        };
        if !at_dot && !is_short_name_char(b[i]) {
            return Err(NameError::InvalidChar);
        }
        i = i + 1;
    }
    let mut out: [u8; 11] = [0x20; 11];
    let mut k: usize = 0;
    while k < 11
        invariant
            k <= 11,
            stem_len <= 8,
            ext_start <= b@.len(),
            b@.len() - ext_start <= 3,
            stem_len <= b@.len(),
            b@.len() <= usize::MAX,
            out@.len() == 11,
            forall|j: int|
                0 <= j < k ==> out@[j] == (padded(b@.subrange(0, stem_len as int), 8)
                    + padded(b@.subrange(ext_start as int, b@.len() as int), 3))[j],
        decreases 11 - k,
    {
        let c: u8 = if k < 8 {
            if k < stem_len {
                to_upper(b[k])
            } else {
                0x20
            }
        } else if k - 8 < b.len() - ext_start {
            to_upper(b[ext_start + (k - 8)])
        } else {
            0x20
        };
        out[k] = c;
        k = k + 1;
    }
    assert(out@ =~= padded(stem_of(b@), 8) + padded(ext_of(b@), 3));
    Ok(out)
}

impl File {
    /// A file named `short_name` holding `data`; a read-only view gives a read-only file.
    pub fn new(short_name: &str, data: ByteView) -> (r: Result<File, NameError>)
        ensures
            match (r, fat_short_name(short_name.spec_bytes())) {
                (Ok(f), Ok(n)) => {
                    &&& f.name@ == n
                    &&& forall|i: int| 0 <= i < 11 ==> 0x20 <= #[trigger] f.name@[i] < 0x7f
                    &&& match data {
                        ByteView::ReadOnly(d) => f.data@ == d@ && !f.writable && f.attrs == ATTR_READ_ONLY,
                        ByteView::ReadWrite(d) => f.data@ == d@ && f.writable && f.attrs == ATTR_ARCHIVE,
                    }
                },
                (Err(e), Err(g)) => e == g,
                _ => false,
            },
    {
        proof {
            lemma_short_name_printable(short_name.spec_bytes());
        }
        let name = match short_name_of(short_name) {
            Ok(n) => n,
            Err(e) => return Err(e),
        };
        match data {
            ByteView::ReadOnly(d) => Ok(File { name, attrs: ATTR_READ_ONLY, data: d, writable: false }),
            ByteView::ReadWrite(d) => Ok(File { name, attrs: ATTR_ARCHIVE, data: d, writable: true }),
        }
    }

    /// The 8.3 name as stored in the directory.
    pub fn name(&self) -> (r: [u8; 11])
        ensures
            r@ == self.name@,
    {
        self.name
    }

    pub fn attrs(&self) -> (r: u8)
        ensures
            r == self.attrs,
    {
        self.attrs
    }

    pub fn len(&self) -> (r: usize)
        ensures
            r == self.data@.len(),
    {
        self.data.len()
    }

    pub fn data(&self) -> (r: &[u8])
        ensures
            r@ == self.data@,
    {
        self.data.as_slice()
    }

    pub fn is_writable(&self) -> (r: bool)
        ensures
            r == self.writable,
    {
        self.writable
    }
}

} // verus!
