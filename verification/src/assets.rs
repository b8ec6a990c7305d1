//! Asset carving: PNG and JPEG images, WAV audio and compiled Lua scripts
//! embedded in a binary's sections, found by their signatures and cut out
//! with the extent their format marks.

use vstd::prelude::*;
use crate::linear_sweep::SectionData;
use crate::text::{hex_lower, push_hex_lower};

verus! {

/// The kind of an embedded asset.
#[derive(Debug, Clone, Copy, PartialEq, Eq, Structural)]
pub enum AssetType {
    Png,
    Jpeg,
    Wav,
    Lua,
}

/// An asset cut out of a binary.
#[derive(Debug)]
pub struct CarvedAsset {
    /// Virtual address of the first byte.
    pub address: u64,
    pub size: usize,
    pub detected_type: AssetType,
    /// Where the asset is written in the reconstructed project.
    pub path: String,
    pub bytes: Vec<u8>,
}

/// A terminator searched for after a signature.
#[derive(Debug, Clone, Copy, PartialEq, Eq, Structural)]
pub enum Marker {
    /// The PNG `IEND` chunk type.
    PngEnd,
    /// The JPEG end-of-image marker `FF D9`.
    JpegEnd,
    /// Sixteen zero bytes, taken as the end of a Lua chunk.
    ZeroRun,
}

/// The number of bytes a marker spans.
pub open spec fn marker_len(m: Marker) -> int {
    match m {
        Marker::PngEnd => 4,
        Marker::JpegEnd => 2,
        Marker::ZeroRun => 16,
    }
}

/// The marker `m` starts at offset `j` of `d`.
pub open spec fn marker_at(d: Seq<u8>, j: int, m: Marker) -> bool {
    match m {
        Marker::PngEnd => d[j] == 0x49 && d[j + 1] == 0x45 && d[j + 2] == 0x4E && d[j + 3] == 0x44,
        Marker::JpegEnd => d[j] == 0xFF && d[j + 1] == 0xD9,
        Marker::ZeroRun => forall|k: int| 0 <= k < 16 ==> #[trigger] d[j + k] == 0,
    }
}

/// The first offset in `[lo, hi)` where `m` starts.
pub open spec fn find_marker(d: Seq<u8>, lo: int, hi: int, m: Marker) -> Option<int>
    decreases hi - lo,
{
    if lo >= hi {
        None
    } else if marker_at(d, lo, m) {
        Some(lo)
    } else {
        find_marker(d, lo + 1, hi, m)
    }
}

/// The eight-byte PNG signature starts at `i`.
pub open spec fn png_signature(d: Seq<u8>, i: int) -> bool {
    d[i] == 0x89 && d[i + 1] == 0x50 && d[i + 2] == 0x4E && d[i + 3] == 0x47 && d[i + 4] == 0x0D
        && d[i + 5] == 0x0A && d[i + 6] == 0x1A && d[i + 7] == 0x0A
}

/// The JPEG start-of-image signature `FF D8 FF` starts at `i`.
pub open spec fn jpeg_signature(d: Seq<u8>, i: int) -> bool {
    d[i] == 0xFF && d[i + 1] == 0xD8 && d[i + 2] == 0xFF
}

/// A RIFF header of form `WAVE` starts at `i`.
pub open spec fn wav_signature(d: Seq<u8>, i: int) -> bool {
    i + 12 <= d.len() && d[i] == 0x52 && d[i + 1] == 0x49 && d[i + 2] == 0x46 && d[i + 3] == 0x46
        && d[i + 8] == 0x57 && d[i + 9] == 0x41 && d[i + 10] == 0x56 && d[i + 11] == 0x45
}

/// The Lua bytecode signature `ESC "Lua"` starts at `i`.
pub open spec fn lua_signature(d: Seq<u8>, i: int) -> bool {
    d[i] == 0x1B && d[i + 1] == 0x4C && d[i + 2] == 0x75 && d[i + 3] == 0x61
}

/// The little-endian 32-bit value at offset `i`.
pub open spec fn le32(d: Seq<u8>, i: int) -> int {
    d[i] + d[i + 1] * 0x100 + d[i + 2] * 0x10000 + d[i + 3] * 0x1000000
}

/// A found asset: its offset, its size and its kind.
pub type Found = (int, int, AssetType);

/// `rest` with `x` in front, if the rest of the sweep completes.
pub open spec fn cons_found(x: Found, rest: Option<Seq<Found>>) -> Option<Seq<Found>> {
    match rest {
        Some(r) => Some(seq![x] + r),
        None => None,
    }
}

/// The assets a sweep of `d` finds from offset `i` on, or `None` when the
/// sweep cannot complete (a slice or a length computation would leave the
/// bounds of the buffer or of `usize`). Only PNG images are looked for
/// when `png_only` holds.
pub open spec fn carve(d: Seq<u8>, i: int, png_only: bool) -> Option<Seq<Found>>
    decreases d.len() - i,
{
    if i < 0 || i + 8 > d.len() {
        Some(Seq::empty())
    } else {
        let png_end = if png_signature(d, i) {
            find_marker(d, i + 8, d.len() - 4, Marker::PngEnd)
        } else {
            None
        };
        if png_end is Some {
            let size = png_end->0 - i + 8;
            if size < 1 || i + size > d.len() {
                None
            } else {
                cons_found((i, size, AssetType::Png), carve(d, i + size, png_only))
            }
        } else if png_only {
            carve(d, i + 1, png_only)
        } else {
            let jpeg_end = if jpeg_signature(d, i) {
                find_marker(d, i + 3, d.len() - 2, Marker::JpegEnd)
            } else {
                None
            };
            if jpeg_end is Some {
                let size = jpeg_end->0 - i + 2;
                if size < 1 || i + size > d.len() {
                    None
                } else {
                    cons_found((i, size, AssetType::Jpeg), carve(d, i + size, png_only))
                }
            } else if wav_signature(d, i) && (le32(d, i + 4) + 8 > usize::MAX || i + le32(d, i + 4)
                + 8 > usize::MAX) {
                None
            } else if wav_signature(d, i) && i + le32(d, i + 4) + 8 <= d.len() {
                cons_found((i, le32(d, i + 4) + 8, AssetType::Wav), carve(d, i + le32(d, i + 4) + 8, png_only))
            } else if lua_signature(d, i) {
                if d.len() < 16 {
                    None
                } else {
                    let size = match find_marker(d, i + 4, d.len() - 16, Marker::ZeroRun) {
                        Some(j) => j - i,
                        None => 1024,
                    };
                    if size < 1 || i + size > usize::MAX {
                        None
                    } else if i + size <= d.len() {
                        cons_found((i, size, AssetType::Lua), carve(d, i + size, png_only))
                    } else {
                        carve(d, i + 1, png_only)
                    }
                }
            } else {
                carve(d, i + 1, png_only)
            }
        }
    }
}

/// The path an asset found at `address` is written to.
pub open spec fn asset_path(kind: AssetType, address: u64) -> Seq<char> {
    match kind {
        AssetType::Png => "assets/img_"@ + hex_lower(address as nat) + ".png"@,
        AssetType::Jpeg => "assets/img_"@ + hex_lower(address as nat) + ".jpg"@,
        AssetType::Wav => "assets/audio_"@ + hex_lower(address as nat) + ".wav"@,
        AssetType::Lua => "assets/script_"@ + hex_lower(address as nat) + ".luac"@,
    }
}

/// `a` is the asset `f` of the buffer `d` whose first byte is at `base`.
pub open spec fn carved_as(a: CarvedAsset, f: Found, d: Seq<u8>, base: u64) -> bool {
    &&& a.address == base + f.0
    &&& a.size == f.1
    &&& a.detected_type == f.2
    &&& a.path@ == asset_path(f.2, a.address)
    &&& a.bytes@ == d.subrange(f.0, f.0 + f.1)
}

/// `out` holds the assets `fs` of the buffer `d` at `base`, in order.
pub open spec fn carved_list(out: Seq<CarvedAsset>, fs: Seq<Found>, d: Seq<u8>, base: u64) -> bool {
    &&& out.len() == fs.len()
    &&& forall|k: int| 0 <= k < fs.len() ==> carved_as(#[trigger] out[k], fs[k], d, base)
}

/// `fs` in front of the rest of a sweep, if that completes.
pub open spec fn prefixed(fs: Seq<Found>, rest: Option<Seq<Found>>) -> Option<Seq<Found>> {
    match rest {
        Some(r) => Some(fs + r),
        None => None,
    }
}

/// A marker found in `[lo, hi)` lies there.
proof fn lemma_find_marker_bounds(d: Seq<u8>, lo: int, hi: int, m: Marker)
    ensures
        find_marker(d, lo, hi, m) matches Some(j) ==> lo <= j < hi && marker_at(d, j, m),
    decreases hi - lo,
{
    if lo < hi && !marker_at(d, lo, m) {
        lemma_find_marker_bounds(d, lo + 1, hi, m);
    }
}

/// Whether the marker `m` starts at offset `j`.
fn marker_at_exec(d: &Vec<u8>, j: usize, m: Marker) -> (r: bool)
    requires
        j + marker_len(m) <= d@.len(),
    ensures
        r == marker_at(d@, j as int, m),
{
    let n = d.len();
    match m {
        Marker::PngEnd => d[j] == 0x49 && d[j + 1] == 0x45 && d[j + 2] == 0x4E && d[j + 3] == 0x44,
        Marker::JpegEnd => d[j] == 0xFF && d[j + 1] == 0xD9,
        Marker::ZeroRun => {
            let mut k: usize = 0;
            while k < 16
                invariant
                    m == Marker::ZeroRun,
                    n == d@.len(),
                    j + 16 <= d@.len(),
                    k <= 16,
                    forall|q: int| 0 <= q < k ==> #[trigger] d@[j + q] == 0,
                decreases 16 - k,
            {
                if d[j + k] != 0 {
                    proof {
                        assert(!(d@[j + k as int] == 0));
                        assert(!marker_at(d@, j as int, m));
                    }
                    return false;
                }
                k += 1;
            }
            true
        },
    }
}

/// The first offset in `[lo, hi)` where `m` starts.
fn find_marker_exec(d: &Vec<u8>, lo: usize, hi: usize, m: Marker) -> (r: Option<usize>)
    requires
        hi + marker_len(m) <= d@.len(),
    ensures
        match r {
            Some(j) => find_marker(d@, lo as int, hi as int, m) == Some(j as int),
            None => find_marker(d@, lo as int, hi as int, m) is None,
        },
{
    let mut j = lo;
    while j < hi
        invariant
            hi + marker_len(m) <= d@.len(),
            lo <= j || hi <= j,
            find_marker(d@, lo as int, hi as int, m) == find_marker(d@, j as int, hi as int, m),
        decreases hi - j,
    {
        if marker_at_exec(d, j, m) {
            return Some(j);
        }
        j += 1;
    }
    None
}

/// The bytes of `d` in `[lo, hi)`.
fn copy_bytes(d: &Vec<u8>, lo: usize, hi: usize) -> (r: Vec<u8>)
    requires
        lo <= hi <= d@.len(),
    ensures
        r@ == d@.subrange(lo as int, hi as int),
{
    let mut r: Vec<u8> = Vec::new();
    let mut k = lo;
    while k < hi
        invariant
            lo <= k <= hi <= d@.len(),
            r@ == d@.subrange(lo as int, k as int),
        decreases hi - k,
    {
        r.push(d[k]);
        assert(d@.subrange(lo as int, k + 1) == d@.subrange(lo as int, k as int).push(d@[k as int]));
        k += 1;
    }
    r
}

/// The asset of kind `kind` at offset `off` of `d`, whose first byte is at
/// `base`.
fn make_asset(d: &Vec<u8>, base: u64, off: usize, size: usize, kind: AssetType) -> (a: CarvedAsset)
    requires
        off + size <= d@.len(),
        base + d@.len() <= u64::MAX,
    ensures
        carved_as(a, (off as int, size as int, kind), d@, base),
{
    let address = base + off as u64;
    let mut path = String::new();
    match kind {
        AssetType::Png => path.append("assets/img_"),
        AssetType::Jpeg => path.append("assets/img_"),
        AssetType::Wav => path.append("assets/audio_"),
        AssetType::Lua => path.append("assets/script_"),
    }
    push_hex_lower(&mut path, address);
    match kind {
        AssetType::Png => path.append(".png"),
        AssetType::Jpeg => path.append(".jpg"),
        AssetType::Wav => path.append(".wav"),
        AssetType::Lua => path.append(".luac"),
    }
    let n = d.len();
    let bytes = copy_bytes(d, off, off + size);
    CarvedAsset { address, size, detected_type: kind, path, bytes }
}

/// Sweeps `d`, whose first byte is at `base`, and appends the assets found
/// to `out`.
fn carve_buffer(d: &Vec<u8>, base: u64, png_only: bool, out: &mut Vec<CarvedAsset>) -> (fs: Ghost<
    Seq<Found>,
>)
    requires
        carve(d@, 0, png_only) is Some,
        base + d@.len() <= u64::MAX,
    ensures
        carve(d@, 0, png_only) == Some(fs@),
        final(out)@.len() == old(out)@.len() + fs@.len(),
        final(out)@.subrange(0, old(out)@.len() as int) == old(out)@,
        carved_list(
            final(out)@.subrange(old(out)@.len() as int, final(out)@.len() as int),
            fs@,
            d@,
            base,
        ),
{
    let ghost d0 = d@;
    let ghost start = out@;
    let ghost mut fs: Seq<Found> = Seq::empty();
    let n = d.len();
    let mut i: usize = 0;
    proof {
        assert(prefixed(fs, carve(d0, 0, png_only)) == carve(d0, 0, png_only)) by {
            let r = carve(d0, 0, png_only)->0;
            assert(fs + r == r);
        };
    }
    while n >= 8 && i <= n - 8
        invariant
            d0 == d@,
            n == d0.len(),
            base + n <= u64::MAX,
            carve(d0, 0, png_only) == prefixed(fs, carve(d0, i as int, png_only)),
            carve(d0, 0, png_only) is Some,
            out@.len() == start.len() + fs.len(),
            out@.subrange(0, start.len() as int) == start,
            carved_list(out@.subrange(start.len() as int, out@.len() as int), fs, d0, base),
        decreases n - i,
    {
        proof {
            assert(carve(d0, i as int, png_only) is Some);
        }
        let ghost rest_before = carve(d0, i as int, png_only);
        let mut png_end: Option<usize> = None;
        if d[i] == 0x89 && d[i + 1] == 0x50 && d[i + 2] == 0x4E && d[i + 3] == 0x47 && d[i + 4]
            == 0x0D && d[i + 5] == 0x0A && d[i + 6] == 0x1A && d[i + 7] == 0x0A {
            png_end = find_marker_exec(d, i + 8, n - 4, Marker::PngEnd);
        }
        let mut step: usize = 1;
        let mut found: Option<(usize, AssetType)> = None;
        if let Some(j) = png_end {
            proof {
                lemma_find_marker_bounds(d0, i + 8, n - 4, Marker::PngEnd);
            }
            if j - i <= n - i - 8 {
                found = Some(((j - i) + 8, AssetType::Png));
            } else {
                proof {
                    assert(carve(d0, i as int, png_only) is None);
                }
            }
        } else if !png_only {
            let mut jpeg_end: Option<usize> = None;
            if d[i] == 0xFF && d[i + 1] == 0xD8 && d[i + 2] == 0xFF {
                jpeg_end = find_marker_exec(d, i + 3, n - 2, Marker::JpegEnd);
            }
            if let Some(j) = jpeg_end {
                proof {
                    lemma_find_marker_bounds(d0, i + 3, n - 2, Marker::JpegEnd);
                }
                found = Some(((j - i) + 2, AssetType::Jpeg));
            } else {
                let is_wav = n >= 12 && i <= n - 12 && d[i] == 0x52 && d[i + 1] == 0x49 && d[i + 2]
                    == 0x46 && d[i + 3] == 0x46 && d[i + 8] == 0x57 && d[i + 9] == 0x41 && d[i + 10]
                    == 0x56 && d[i + 11] == 0x45;
                let chunk: u64 = if is_wav {
                    d[i + 4] as u64 + d[i + 5] as u64 * 0x100 + d[i + 6] as u64 * 0x10000 + d[i + 7] as u64
                        * 0x1000000
                } else {
                    0
                };
                if is_wav && (chunk + 8) as u128 + i as u128 <= n as u128 {
                    found = Some(((chunk + 8) as usize, AssetType::Wav));
                } else if d[i] == 0x1B && d[i + 1] == 0x4C && d[i + 2] == 0x75 && d[i + 3] == 0x61 {
                    let mut size: usize = 1024;
                    if n < 16 {
                        proof {
                            assert(carve(d0, i as int, png_only) is None);
                        }
                    } else if let Some(j) = find_marker_exec(d, i + 4, n - 16, Marker::ZeroRun) {
                        proof {
                            lemma_find_marker_bounds(d0, i + 4, n - 16, Marker::ZeroRun);
                        }
                        size = j - i;
                    }
                    if size <= n - i {
                        found = Some((size, AssetType::Lua));
                    }
                }
            }
        }
        match found {
            Some((size, kind)) => {
                let a = make_asset(d, base, i, size, kind);
                let ghost before = out@;
                out.push(a);
                proof {
                    let x: Found = (i as int, size as int, kind);
                    let r = carve(d0, i + size, png_only);
                    assert(rest_before == cons_found(x, r));
                    assert(fs.push(x) + r->0 == fs + (seq![x] + r->0));
                    let tail = out@.subrange(start.len() as int, out@.len() as int);
                    assert(tail == before.subrange(start.len() as int, before.len() as int).push(a));
                    assert(out@.subrange(0, start.len() as int) == before.subrange(0, start.len() as int));
                    fs = fs.push(x);
                }
                i = i + size;
            },
            None => {
                i = i + 1;
            },
        }
    }
    proof {
        assert(carve(d0, i as int, png_only) == Some(Seq::<Found>::empty()));
        assert(fs + Seq::<Found>::empty() == fs);
    }
    Ghost(fs)
}

/// The sweep of every section completes.
pub open spec fn sections_sweepable(sections: Seq<SectionData>) -> bool {
    forall|k: int|
        0 <= k < sections.len() ==> carve(#[trigger] sections[k].data@, 0, false) is Some
            && sections[k].start + sections[k].data@.len() <= u64::MAX
}

/// `out` holds, section by section and in order, the assets found in each
/// of `sections`.
pub open spec fn section_assets(out: Seq<CarvedAsset>, sections: Seq<SectionData>) -> bool
    decreases sections.len(),
{
    if sections.len() == 0 {
        out.len() == 0
    } else {
        let last = sections.last();
        let fs = carve(last.data@, 0, false)->0;
        &&& out.len() >= fs.len()
        &&& carved_list(out.subrange(out.len() - fs.len(), out.len() as int), fs, last.data@, last.start)
        &&& section_assets(out.subrange(0, out.len() - fs.len()), sections.drop_last())
    }
}

/// A marker inside `[lo, hi)` is found there.
proof fn lemma_find_marker_some(d: Seq<u8>, lo: int, hi: int, m: Marker, at: int)
    requires
        lo <= at < hi,
        marker_at(d, at, m),
    ensures
        find_marker(d, lo, hi, m) matches Some(f) && lo <= f <= at,
    decreases hi - lo,
{
    if !marker_at(d, lo, m) {
        lemma_find_marker_some(d, lo + 1, hi, m, at);
    }
}

/// `j` lies strictly inside one of the assets `fs`.
pub open spec fn strictly_inside(fs: Seq<Found>, j: int) -> bool {
    exists|k: int| 0 <= k < fs.len() && (#[trigger] fs[k]).0 < j && j < fs[k].0 + fs[k].1
}

/// The sweep goes on after every asset it carves: in a completed sweep
/// from offset `i`, each later offset `j` that holds a PNG signature with
/// an `IEND` chunk type after it, and that no carved asset strictly
/// contains, starts a carved PNG asset.
pub proof fn law_sweep_finds_every_later_png(d: Seq<u8>, i: int, png_only: bool, j: int, iend: int)
    requires
        carve(d, i, png_only) is Some,
        0 <= i <= j,
        j + 8 <= d.len(),
        png_signature(d, j),
        j + 8 <= iend && iend + 4 < d.len(),
        marker_at(d, iend, Marker::PngEnd),
        !strictly_inside(carve(d, i, png_only)->0, j),
    ensures
        exists|k: int|
            0 <= k < carve(d, i, png_only)->0.len() && (#[trigger] carve(d, i, png_only)->0[k]).0 == j
                && carve(d, i, png_only)->0[k].2 == AssetType::Png,
    decreases d.len() - i,
{
    let fs = carve(d, i, png_only)->0;
    let png_end = if png_signature(d, i) {
        find_marker(d, i + 8, d.len() - 4, Marker::PngEnd)
    } else {
        None
    };
    if i == j {
        lemma_find_marker_some(d, j + 8, d.len() - 4, Marker::PngEnd, iend);
        assert(fs[0].0 == j && fs[0].2 == AssetType::Png);
        return;
    }
    if png_end is Some {
        let size = png_end->0 - i + 8;
        let r = carve(d, i + size, png_only)->0;
        assert(fs == seq![(i, size, AssetType::Png)] + r);
        assert(fs[0] == (i, size, AssetType::Png));
        if j < i + size {
            assert(strictly_inside(fs, j));
        }
        lemma_sweep_rest(d, i, size, png_only, j, iend, AssetType::Png);
        return;
    }
    if png_only {
        law_sweep_finds_every_later_png(d, i + 1, png_only, j, iend);
        return;
    }
    let jpeg_end = if jpeg_signature(d, i) {
        find_marker(d, i + 3, d.len() - 2, Marker::JpegEnd)
    } else {
        None
    };
    if jpeg_end is Some {
        let size = jpeg_end->0 - i + 2;
        assert(fs[0] == (i, size, AssetType::Jpeg));
        if j < i + size {
            assert(strictly_inside(fs, j));
        }
        lemma_sweep_rest(d, i, size, png_only, j, iend, AssetType::Jpeg);
    } else if wav_signature(d, i) && (le32(d, i + 4) + 8 > usize::MAX || i + le32(d, i + 4) + 8 > usize::MAX) {
    } else if wav_signature(d, i) && i + le32(d, i + 4) + 8 <= d.len() {
        let size = le32(d, i + 4) + 8;
        assert(fs[0] == (i, size, AssetType::Wav));
        if j < i + size {
            assert(strictly_inside(fs, j));
        }
        lemma_sweep_rest(d, i, size, png_only, j, iend, AssetType::Wav);
    } else if lua_signature(d, i) {
        let size = match find_marker(d, i + 4, d.len() - 16, Marker::ZeroRun) {
            Some(x) => x - i,
            None => 1024,
        };
        if i + size <= d.len() {
            assert(fs[0] == (i, size, AssetType::Lua));
            if j < i + size {
                assert(strictly_inside(fs, j));
            }
            lemma_sweep_rest(d, i, size, png_only, j, iend, AssetType::Lua);
        } else {
            law_sweep_finds_every_later_png(d, i + 1, png_only, j, iend);
        }
    } else {
        law_sweep_finds_every_later_png(d, i + 1, png_only, j, iend);
    }
}

/// The step of `law_sweep_finds_every_later_png` past an asset carved at
/// `i`, of `size` bytes, that ends at or before `j`.
proof fn lemma_sweep_rest(
    d: Seq<u8>,
    i: int,
    size: int,
    png_only: bool,
    j: int,
    iend: int,
    kind: AssetType,
)
    requires
        carve(d, i, png_only) is Some,
        size >= 1,
        i + size <= j,
        carve(d, i, png_only) == cons_found((i, size, kind), carve(d, i + size, png_only)),
        j + 8 <= d.len(),
        png_signature(d, j),
        j + 8 <= iend && iend + 4 < d.len(),
        marker_at(d, iend, Marker::PngEnd),
        !strictly_inside(carve(d, i, png_only)->0, j),
    ensures
        exists|k: int|
            0 <= k < carve(d, i, png_only)->0.len() && (#[trigger] carve(d, i, png_only)->0[k]).0 == j
                && carve(d, i, png_only)->0[k].2 == AssetType::Png,
    decreases d.len() - i, 0int,
{
    let fs = carve(d, i, png_only)->0;
    let r = carve(d, i + size, png_only)->0;
    assert(fs == seq![(i, size, kind)] + r);
    if strictly_inside(r, j) {
        let k = choose|k: int| 0 <= k < r.len() && (#[trigger] r[k]).0 < j && j < r[k].0 + r[k].1;
        assert(fs[k + 1] == r[k]);
        assert(strictly_inside(fs, j));
    }
    law_sweep_finds_every_later_png(d, i + size, png_only, j, iend);
    let k = choose|k: int| 0 <= k < r.len() && (#[trigger] r[k]).0 == j && r[k].2 == AssetType::Png;
    assert(fs[k + 1] == r[k]);
}

/// Buffer `d` holds, at offset `off`, the signature of an asset of `kind`.
pub open spec fn kind_signature(d: Seq<u8>, off: int, kind: AssetType) -> bool {
    match kind {
        AssetType::Png => png_signature(d, off),
        AssetType::Jpeg => jpeg_signature(d, off),
        AssetType::Wav => wav_signature(d, off),
        AssetType::Lua => lua_signature(d, off),
    }
}

/// Every asset that a completed sweep of a buffer finds from offset `i` on
/// starts at or after `i` with the signature of its kind, is not empty,
/// lies inside the buffer, and ends before the next one starts.
pub proof fn law_carved_assets_are_signed_and_disjoint(d: Seq<u8>, i: int, png_only: bool)
    requires
        carve(d, i, png_only) is Some,
    ensures
        ({
            let fs = carve(d, i, png_only)->0;
            &&& forall|k: int|
                0 <= k < fs.len() ==> {
                    &&& i <= (#[trigger] fs[k]).0
                    &&& fs[k].1 >= 1
                    &&& fs[k].0 + fs[k].1 <= d.len()
                    &&& kind_signature(d, fs[k].0, fs[k].2)
                }
            &&& forall|a: int, b: int| 0 <= a < b < fs.len() ==> #[trigger] fs[a].0 + fs[a].1 <= #[trigger] fs[b].0
        }),
    decreases d.len() - i,
{
    if i < 0 || i + 8 > d.len() {
        return;
    }
    let png_end = if png_signature(d, i) {
        find_marker(d, i + 8, d.len() - 4, Marker::PngEnd)
    } else {
        None
    };
    if png_end is Some {
        let size = png_end->0 - i + 8;
        law_carved_assets_are_signed_and_disjoint(d, i + size, png_only);
        return;
    }
    if png_only {
        law_carved_assets_are_signed_and_disjoint(d, i + 1, png_only);
        return;
    }
    let jpeg_end = if jpeg_signature(d, i) {
        find_marker(d, i + 3, d.len() - 2, Marker::JpegEnd)
    } else {
        None
    };
    if jpeg_end is Some {
        let size = jpeg_end->0 - i + 2;
        law_carved_assets_are_signed_and_disjoint(d, i + size, png_only);
    } else if wav_signature(d, i) && (le32(d, i + 4) + 8 > usize::MAX || i + le32(d, i + 4) + 8 > usize::MAX) {
    } else if wav_signature(d, i) && i + le32(d, i + 4) + 8 <= d.len() {
        law_carved_assets_are_signed_and_disjoint(d, i + le32(d, i + 4) + 8, png_only);
    } else if lua_signature(d, i) {
        if d.len() >= 16 {
            let size = match find_marker(d, i + 4, d.len() - 16, Marker::ZeroRun) {
                Some(j) => j - i,
                None => 1024,
            };
            if size >= 1 && i + size <= usize::MAX {
                if i + size <= d.len() {
                    law_carved_assets_are_signed_and_disjoint(d, i + size, png_only);
                } else {
                    law_carved_assets_are_signed_and_disjoint(d, i + 1, png_only);
                }
            }
        }
    } else {
        law_carved_assets_are_signed_and_disjoint(d, i + 1, png_only);
    }
}

/// Carves the assets embedded in a binary. When the binary was loaded,
/// every section is swept for PNG and JPEG images, WAV audio and Lua
/// bytecode, at the sections' addresses; otherwise the raw bytes are
/// swept for PNG images, at their file offsets.
pub fn extract_assets(loaded: Option<&[SectionData]>, binary_bytes: &Vec<u8>) -> (out: Vec<CarvedAsset>)
    requires
        loaded matches Some(sections) ==> sections_sweepable(sections@),
        loaded is None ==> carve(binary_bytes@, 0, true) is Some,
    ensures
        loaded matches Some(sections) ==> section_assets(out@, sections@),
        loaded is None ==> carved_list(out@, carve(binary_bytes@, 0, true)->0, binary_bytes@, 0),
{
    let mut out: Vec<CarvedAsset> = Vec::new();
    match loaded {
        Some(sections) => {
            let mut k: usize = 0;
            while k < sections.len()
                invariant
                    k <= sections@.len(),
                    sections_sweepable(sections@),
                    section_assets(out@, sections@.take(k as int)),
                decreases sections@.len() - k,
            {
                let ghost before = out@;
                let fs = carve_buffer(&sections[k].data, sections[k].start, false, &mut out);
                proof {
                    let t = sections@.take(k + 1);
                    assert(t.drop_last() == sections@.take(k as int));
                    assert(t.last() == sections@[k as int]);
                    assert(out@.subrange(0, out@.len() - fs@.len()) == before);
                }
                k += 1;
            }
            proof {
                assert(sections@.take(sections@.len() as int) == sections@);
            }
        },
        None => {
            let n = binary_bytes.len();
            assert(0 + binary_bytes@.len() <= u64::MAX) by {
                assert(n as int == binary_bytes@.len());
            };
            let fs = carve_buffer(binary_bytes, 0, true, &mut out);
            proof {
                assert(out@.subrange(0, out@.len() as int) == out@);
            }
        },
    }
    out
}

} // verus!
