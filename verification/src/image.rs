//! What C++ type recovery reads of a loaded binary: its architecture, its
//! image base and its sections with their flags, ranges and bytes.

use vstd::prelude::*;

verus! {

/// A section of a loaded binary.
#[derive(Debug, Clone)]
pub struct ImageSection {
    pub name: String,
    /// First virtual address of the section.
    pub start: u64,
    /// Virtual address one past the section.
    pub end: u64,
    pub data: Vec<u8>,
    pub executable: bool,
    pub writable: bool,
}

/// A loaded binary.
#[derive(Debug, Clone)]
pub struct LoadedImage {
    pub arch_name: String,
    pub image_base: u64,
    pub sections: Vec<ImageSection>,
}

/// The virtual range of the section holds `addr`.
pub open spec fn section_holds(s: ImageSection, addr: u64) -> bool {
    s.start <= addr < s.end
}

/// The width of a pointer, in bytes: four on 32-bit x86, eight elsewhere.
pub open spec fn pointer_size(img: LoadedImage) -> int {
    if img.arch_name@ == "x86"@ {
        4
    } else {
        8
    }
}

/// The little-endian 32-bit value at offset `i` of `d`.
pub open spec fn le_u32(d: Seq<u8>, i: int) -> int {
    d[i] + d[i + 1] * 0x100 + d[i + 2] * 0x10000 + d[i + 3] * 0x1000000
}

/// The little-endian pointer of `size` bytes (four or eight) at offset `i`.
pub open spec fn le_pointer(d: Seq<u8>, i: int, size: int) -> int {
    if size == 4 {
        le_u32(d, i)
    } else {
        le_u32(d, i) + le_u32(d, i + 4) * 0x1_0000_0000
    }
}

/// The first section from `i` on whose virtual range holds `addr`.
pub open spec fn section_holding(secs: Seq<ImageSection>, addr: u64, i: int) -> Option<int>
    decreases secs.len() - i,
{
    if i < 0 || i >= secs.len() {
        None
    } else if section_holds(secs[i], addr) {
        Some(i)
    } else {
        section_holding(secs, addr, i + 1)
    }
}

/// The `len` bytes at virtual address `addr`: read from the first section
/// whose range holds `addr`, when that section's data holds them all.
pub open spec fn bytes_at(img: LoadedImage, addr: u64, len: int) -> Option<Seq<u8>> {
    match section_holding(img.sections@, addr, 0) {
        Some(k) => {
            let s = img.sections@[k];
            let off = addr - s.start;
            if off + len <= s.data@.len() {
                Some(s.data@.subrange(off, off + len))
            } else {
                None
            }
        },
        None => None,
    }
}

/// The little-endian value of `size` bytes (four or eight) at virtual
/// address `addr`, when they can be read.
pub open spec fn value_at(img: LoadedImage, addr: u64, size: int) -> Option<int> {
    match bytes_at(img, addr, size) {
        Some(b) => Some(le_pointer(b, 0, size)),
        None => None,
    }
}

pub proof fn lemma_section_holding_pub(secs: Seq<ImageSection>, addr: u64, i: int)
    requires
        0 <= i,
    ensures
        section_holding(secs, addr, i) matches Some(k) ==> i <= k < secs.len() && section_holds(secs[k], addr),
    decreases secs.len() - i,
{
    if i < secs.len() && !section_holds(secs[i], addr) {
        lemma_section_holding_pub(secs, addr, i + 1);
    }
}

/// Where the `len` bytes at `addr` lie: the section and the offset in its
/// data.
pub fn locate(img: &LoadedImage, addr: u64, len: usize) -> (r: Option<(usize, usize)>)
    ensures
        match r {
            Some((k, off)) => {
                &&& k < img.sections@.len()
                &&& off + len <= img.sections@[k as int].data@.len()
                &&& off == addr - img.sections@[k as int].start
                &&& bytes_at(*img, addr, len as int) == Some(
                    img.sections@[k as int].data@.subrange(off as int, off + len),
                )
            },
            None => bytes_at(*img, addr, len as int) is None,
        },
{
    let secs = &img.sections;
    let mut i: usize = 0;
    while i < secs.len()
        invariant
            secs@ == img.sections@,
            i <= secs@.len(),
            section_holding(secs@, addr, 0) == section_holding(secs@, addr, i as int),
        decreases secs@.len() - i,
    {
        let s = &secs[i];
        if s.start <= addr && addr < s.end {
            let off = addr - s.start;
            let n = s.data.len();
            assert(section_holding(secs@, addr, i as int) == Some(i as int));
            assert(section_holding(img.sections@, addr, 0) == Some(i as int));
            if (off as u128) + (len as u128) <= n as u128 {
                proof {
                    lemma_section_holding_pub(secs@, addr, 0);
                }
                return Some((i, off as usize));
            }
            proof {
                lemma_section_holding_pub(secs@, addr, 0);
            }
            return None;
        }
        i += 1;
    }
    None
}

/// The little-endian value of `size` bytes (four or eight) at `addr`.
pub fn read_value_at(img: &LoadedImage, addr: u64, size: usize) -> (r: Option<u64>)
    requires
        size == 4 || size == 8,
    ensures
        match r {
            Some(v) => value_at(*img, addr, size as int) == Some(v as int),
            None => value_at(*img, addr, size as int) is None,
        },
{
    match locate(img, addr, size) {
        Some((k, off)) => {
            let d = &img.sections[k].data;
            let v = read_pointer(d, off, size);
            proof {
                let b = d@.subrange(off as int, off + size);
                assert(le_pointer(b, 0, size as int) == le_pointer(d@, off as int, size as int));
            }
            Some(v)
        },
        None => None,
    }
}

/// Whether the architecture is 32-bit x86.
pub fn is_x86(img: &LoadedImage) -> (r: bool)
    ensures
        r == (img.arch_name@ == "x86"@),
{
    crate::text::str_eq(img.arch_name.as_str(), "x86")
}

/// The little-endian pointer of `size` bytes at offset `i` of `d`.
pub fn read_pointer(d: &Vec<u8>, i: usize, size: usize) -> (r: u64)
    requires
        size == 4 || size == 8,
        i + size <= d@.len(),
    ensures
        r == le_pointer(d@, i as int, size as int),
{
    let n = d.len();
    assert(i + size <= n);
    let lo = le_u32_at(d, i);
    if size == 4 {
        lo
    } else {
        let hi = le_u32_at(d, i + 4);
        lo + hi * 0x1_0000_0000
    }
}

/// The little-endian 32-bit value at offset `i` of `d`.
fn le_u32_at(d: &Vec<u8>, i: usize) -> (r: u64)
    requires
        i + 4 <= d@.len(),
    ensures
        r == le_u32(d@, i as int),
        r < 0x1_0000_0000,
{
    let n = d.len();
    assert(i + 4 <= n);
    let b0 = d[i] as u64;
    let b1 = d[i + 1] as u64;
    let b2 = d[i + 2] as u64;
    let b3 = d[i + 3] as u64;
    assert(b3 * 0x1000000 <= 255 * 0x1000000) by (nonlinear_arith)
        requires
            b3 <= 255,
    ;
    assert(b2 * 0x10000 <= 255 * 0x10000) by (nonlinear_arith)
        requires
            b2 <= 255,
    ;
    assert(b1 * 0x100 <= 255 * 0x100) by (nonlinear_arith)
        requires
            b1 <= 255,
    ;
    b0 + b1 * 0x100 + b2 * 0x10000 + b3 * 0x1000000
}

} // verus!
