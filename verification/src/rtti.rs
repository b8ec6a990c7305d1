//! Run-time type information: a vtable's complete-object locator leads to
//! its type descriptor, whose decorated name (`.?AVName@@`) names the
//! class.

use vstd::prelude::*;
use crate::image::{
    bytes_at, is_x86, locate, pointer_size, read_value_at, section_holds, value_at, ImageSection, LoadedImage,
};
use crate::recovered_types::{vtable_view, vtables_view, SdbVtable, TypeTables, VtableView};
use crate::text::{push_char, to_chars};

verus! {

/// `p` lies in a section that is not executable.
pub open spec fn in_data_section(secs: Seq<ImageSection>, p: u64) -> bool {
    exists|k: int| 0 <= k < secs.len() && !(#[trigger] secs[k]).executable && section_holds(secs[k], p)
}

/// Where the pointer to the complete-object locator sits: at the vtable's
/// own address when its first entry points into data (that entry is the
/// pointer), else one pointer before the vtable.
pub open spec fn locator_slot(img: LoadedImage, addr: u64, entries: Seq<u64>) -> u64 {
    let ps = pointer_size(img);
    let before = if addr >= ps { (addr - ps) as u64 } else { 0 };
    if entries.len() > 0 && in_data_section(img.sections@, entries[0]) {
        addr
    } else {
        before
    }
}

/// The character a byte of a decorated name stands for.
pub open spec fn byte_char(b: u8) -> char {
    b as char
}

/// The width of that character in UTF-8.
pub open spec fn utf8_width(b: u8) -> int {
    if b < 0x80 {
        1
    } else {
        2
    }
}

/// The zero-terminated name read from `addr` on, appended to `name` whose
/// UTF-8 length is `blen`; reading stops at a zero byte, at a byte that
/// cannot be read, or once the name is longer than 255 bytes.
pub open spec fn name_from(img: LoadedImage, addr: u64, name: Seq<char>, blen: int) -> Seq<char>
    decreases 257 - blen,
{
    if blen > 255 {
        name
    } else {
        match bytes_at(img, addr, 1) {
            Some(b) => if b[0] == 0 {
                name
            } else {
                name_from(img, (addr + 1) as u64, name.push(byte_char(b[0])), blen + utf8_width(b[0]))
            },
            None => name,
        }
    }
}

/// `s` with every leading repetition of `p` removed.
pub open spec fn strip_prefix_all(s: Seq<char>, p: Seq<char>) -> Seq<char>
    decreases s.len(),
{
    if p.len() > 0 && p.len() <= s.len() && s.take(p.len() as int) == p {
        strip_prefix_all(s.skip(p.len() as int), p)
    } else {
        s
    }
}

/// `s` with every trailing repetition of `p` removed.
pub open spec fn strip_suffix_all(s: Seq<char>, p: Seq<char>) -> Seq<char>
    decreases s.len(),
{
    if p.len() > 0 && p.len() <= s.len() && s.skip(s.len() - p.len()) == p {
        strip_suffix_all(s.take(s.len() - p.len()), p)
    } else {
        s
    }
}

/// The class name in a decorated type name: the `.?AV` (class) and `.?AU`
/// (struct) prefixes and the `@@` suffix removed.
pub open spec fn undecorate(name: Seq<char>) -> Seq<char> {
    strip_suffix_all(strip_prefix_all(strip_prefix_all(name, ".?AV"@), ".?AU"@), "@@"@)
}

/// The class name that run-time type information gives vtable `v`, if any:
/// the locator pointer leads to a locator with the signature of the
/// architecture (zero on x86, one elsewhere), whose type descriptor (an
/// address on x86, an offset from the image base elsewhere) holds, two
/// pointers in, a decorated name starting with `.?A`.
pub open spec fn rtti_class_name(img: LoadedImage, addr: u64, entries: Seq<u64>) -> Option<Seq<char>> {
    let x86 = img.arch_name@ == "x86"@;
    let ps = pointer_size(img);
    match value_at(img, locator_slot(img, addr, entries), ps) {
        Some(col) => match value_at(img, col as u64, 4) {
            Some(sig) => if (x86 && sig == 0) || (!x86 && sig == 1) {
                match value_at(img, (col + 12) as u64, 4) {
                    Some(rva) => {
                        let td = if x86 { rva } else { img.image_base + rva };
                        let name = name_from(img, (td + 2 * ps) as u64, Seq::empty(), 0);
                        if name.len() > 0 && name.len() >= 3 && name.take(3) == ".?A"@ {
                            Some(undecorate(name))
                        } else {
                            None
                        }
                    },
                    None => None,
                }
            } else {
                None
            },
            None => None,
        },
        None => None,
    }
}

/// The image leaves room above its sections and its image base for the
/// addresses the type information is read at.
pub open spec fn rtti_fits(img: LoadedImage) -> bool {
    &&& forall|k: int|
        0 <= k < img.sections@.len() ==> #[trigger] img.sections@[k].start + img.sections@[k].data@.len() + 8
            <= u64::MAX
    &&& img.arch_name@ != "x86"@ ==> img.image_base + 0xFFFF_FFFF + 16 <= u64::MAX
}

/// The vtable after type information named it, when it did.
pub open spec fn rtti_named(img: LoadedImage, v: VtableView) -> VtableView {
    match rtti_class_name(img, v.0, v.1) {
        Some(n) => (v.0, v.1, Some(n), v.3),
        None => v,
    }
}

/// What can be read lies inside its section's data.
proof fn lemma_value_bounds(img: LoadedImage, addr: u64, size: int)
    requires
        rtti_fits(img),
        value_at(img, addr, size) is Some,
        size >= 1,
    ensures
        addr + size + 8 <= u64::MAX,
{
    let secs = img.sections@;
    crate::image::lemma_section_holding_pub(secs, addr, 0);
    let k = crate::image::section_holding(secs, addr, 0)->0;
    assert(secs[k].start + secs[k].data@.len() + 8 <= u64::MAX);
}

/// A four-byte value is below 2^32.
proof fn lemma_value_u32(img: LoadedImage, addr: u64)
    requires
        value_at(img, addr, 4) is Some,
    ensures
        0 <= value_at(img, addr, 4)->0 < 0x1_0000_0000,
{
    let secs = img.sections@;
    crate::image::lemma_section_holding_pub(secs, addr, 0);
    let k = crate::image::section_holding(secs, addr, 0)->0;
    let off = addr - secs[k].start;
    let b = secs[k].data@.subrange(off, off + 4);
    assert(b.len() == 4);
    assert(b[0] < 256 && b[1] < 256 && b[2] < 256 && b[3] < 256);
}

/// Whether `p` lies in a section that is not executable.
fn points_into_data(secs: &Vec<ImageSection>, p: u64) -> (r: bool)
    ensures
        r == in_data_section(secs@, p),
{
    let mut k: usize = 0;
    while k < secs.len()
        invariant
            k <= secs@.len(),
            forall|q: int| 0 <= q < k ==> !(!(#[trigger] secs@[q]).executable && section_holds(secs@[q], p)),
        decreases secs@.len() - k,
    {
        if !secs[k].executable && secs[k].start <= p && p < secs[k].end {
            return true;
        }
        k += 1;
    }
    false
}

/// Whether `p` occurs in `v` at `i`.
fn occurs_at(v: &Vec<char>, i: usize, p: &Vec<char>) -> (r: bool)
    requires
        i <= v@.len(),
    ensures
        r == (i + p@.len() <= v@.len() && v@.subrange(i as int, i + p@.len()) == p@),
{
    if p.len() > v.len() - i {
        return false;
    }
    let n = v.len();
    let mut j: usize = 0;
    while j < p.len()
        invariant
            n == v@.len(),
            i + p@.len() <= v@.len(),
            j <= p@.len(),
            forall|q: int| 0 <= q < j ==> v@[i + q] == p@[q],
        decreases p@.len() - j,
    {
        if v[i + j] != p[j] {
            assert(v@.subrange(i as int, i + p@.len())[j as int] != p@[j as int]);
            return false;
        }
        j += 1;
    }
    assert(v@.subrange(i as int, i + p@.len()) =~= p@);
    true
}

/// The bounds of the undecorated name within `v`.
fn undecorated_bounds(v: &Vec<char>) -> (r: (usize, usize))
    ensures
        r.0 <= r.1 <= v@.len(),
        v@.subrange(r.0 as int, r.1 as int) == undecorate(v@),
{
    let class_prefix = to_chars(".?AV");
    let struct_prefix = to_chars(".?AU");
    let suffix = to_chars("@@");
    proof {
        reveal_strlit(".?AV");
        reveal_strlit(".?AU");
        reveal_strlit("@@");
    }
    let n = v.len();
    let mut lo: usize = 0;
    assert(v@.subrange(0, n as int) =~= v@);
    while occurs_at(v, lo, &class_prefix)
        invariant
            class_prefix@ == ".?AV"@,
            class_prefix@.len() == 4,
            n == v@.len(),
            lo <= n,
            strip_prefix_all(v@, ".?AV"@) == strip_prefix_all(v@.subrange(lo as int, n as int), ".?AV"@),
        decreases n - lo,
    {
        proof {
            let s = v@.subrange(lo as int, n as int);
            assert(s.take(4) =~= v@.subrange(lo as int, lo + 4));
            assert(s.skip(4) =~= v@.subrange(lo + 4, n as int));
        }
        lo = lo + 4;
    }
    proof {
        let s = v@.subrange(lo as int, n as int);
        if 4 <= s.len() {
            assert(s.take(4) =~= v@.subrange(lo as int, lo + 4));
        }
    }
    let ghost after_v = v@.subrange(lo as int, n as int);
    while occurs_at(v, lo, &struct_prefix)
        invariant
            struct_prefix@ == ".?AU"@,
            struct_prefix@.len() == 4,
            n == v@.len(),
            lo <= n,
            strip_prefix_all(after_v, ".?AU"@) == strip_prefix_all(v@.subrange(lo as int, n as int), ".?AU"@),
        decreases n - lo,
    {
        proof {
            let s = v@.subrange(lo as int, n as int);
            assert(s.take(4) =~= v@.subrange(lo as int, lo + 4));
            assert(s.skip(4) =~= v@.subrange(lo + 4, n as int));
        }
        lo = lo + 4;
    }
    proof {
        let s = v@.subrange(lo as int, n as int);
        if 4 <= s.len() {
            assert(s.take(4) =~= v@.subrange(lo as int, lo + 4));
        }
    }
    let ghost after_u = v@.subrange(lo as int, n as int);
    let mut hi: usize = n;
    while hi - lo >= 2 && occurs_at(v, hi - 2, &suffix)
        invariant
            suffix@ == "@@"@,
            suffix@.len() == 2,
            n == v@.len(),
            lo <= hi <= n,
            strip_suffix_all(after_u, "@@"@) == strip_suffix_all(v@.subrange(lo as int, hi as int), "@@"@),
        decreases hi,
    {
        proof {
            let s = v@.subrange(lo as int, hi as int);
            assert(s.skip(s.len() - 2) =~= v@.subrange(hi - 2, hi as int));
            assert(s.take(s.len() - 2) =~= v@.subrange(lo as int, hi - 2));
        }
        hi = hi - 2;
    }
    proof {
        let s = v@.subrange(lo as int, hi as int);
        if 2 <= s.len() {
            assert(s.skip(s.len() - 2) =~= v@.subrange(hi - 2, hi as int));
        }
    }
    (lo, hi)
}

/// The zero-terminated name at `addr`, as far as it can be read and no
/// longer than just past 255 bytes.
fn read_name(img: &LoadedImage, addr: u64) -> (r: Vec<char>)
    requires
        rtti_fits(*img),
    ensures
        r@ == name_from(*img, addr, Seq::empty(), 0),
{
    let mut name: Vec<char> = Vec::new();
    let mut blen: usize = 0;
    let mut curr = addr;
    let mut done = false;
    while !done && blen <= 255
        invariant
            rtti_fits(*img),
            blen <= 256 + 1,
            !done ==> name_from(*img, addr, Seq::empty(), 0) == name_from(*img, curr, name@, blen as int),
            done ==> name_from(*img, addr, Seq::empty(), 0) == name@,
        decreases 257 - blen + if done { 0int } else { 1int },
    {
        match locate(img, curr, 1) {
            Some((k, off)) => {
                let b = img.sections[k].data[off];
                proof {
                    assert(bytes_at(*img, curr, 1).unwrap()[0] == b);
                }
                if b == 0 {
                    done = true;
                } else {
                    proof {
                        let secs = img.sections@;
                        assert(secs[k as int].start + secs[k as int].data@.len() + 8 <= u64::MAX);
                    }
                    name.push(b as char);
                    blen = blen + if b < 0x80 { 1 } else { 2 };
                    curr = curr + 1;
                }
            },
            None => {
                done = true;
            },
        }
    }
    name
}

/// The class name type information gives `v`, if any.
fn rtti_name_of(img: &LoadedImage, v: &SdbVtable) -> (r: Option<String>)
    requires
        rtti_fits(*img),
    ensures
        match r {
            Some(s) => rtti_class_name(*img, v.addr, v.entries@) == Some(s@),
            None => rtti_class_name(*img, v.addr, v.entries@) is None,
        },
{
    let x86 = is_x86(img);
    let ps: u64 = if x86 { 4 } else { 8 };
    let slot = if v.entries.len() > 0 && points_into_data(&img.sections, v.entries[0]) {
        v.addr
    } else {
        v.addr.saturating_sub(ps)
    };
    let col = match read_value_at(img, slot, ps as usize) {
        Some(c) => c,
        None => return None,
    };
    let sig = match read_value_at(img, col, 4) {
        Some(s) => s,
        None => return None,
    };
    if !((x86 && sig == 0) || (!x86 && sig == 1)) {
        return None;
    }
    proof {
        lemma_value_bounds(*img, col, 4);
    }
    let rva = match read_value_at(img, col + 12, 4) {
        Some(r) => r,
        None => return None,
    };
    proof {
        lemma_value_u32(*img, (col + 12) as u64);
    }
    let td = if x86 { rva } else { img.image_base + rva };
    let chars = read_name(img, td + 2 * ps);
    let prefix = to_chars(".?A");
    proof {
        reveal_strlit(".?A");
    }
    if chars.len() > 0 && occurs_at(&chars, 0, &prefix) {
        proof {
            assert(chars@.subrange(0, 3) =~= chars@.take(3));
        }
        let (lo, hi) = undecorated_bounds(&chars);
        let mut s = String::new();
        let mut i = lo;
        while i < hi
            invariant
                lo <= i <= hi <= chars@.len(),
                s@ == chars@.subrange(lo as int, i as int),
            decreases hi - i,
        {
            push_char(&mut s, chars[i]);
            proof {
                assert(s@ =~= chars@.subrange(lo as int, i + 1));
            }
            i += 1;
        }
        Some(s)
    } else {
        proof {
            if chars@.len() >= 3 {
                assert(chars@.subrange(0, 3) =~= chars@.take(3));
            }
        }
        None
    }
}

/// Names each vtable after the class its run-time type information
/// records, where that information is present.
pub fn recover_rtti(types: &mut TypeTables, img: &LoadedImage)
    requires
        rtti_fits(*img),
    ensures
        vtables_view(final(types).vtables@) == vtables_view(old(types).vtables@).map_values(
            |v: VtableView| rtti_named(*img, v),
        ),
        final(types).methods == old(types).methods,
        final(types).inheritance == old(types).inheritance,
        final(types).classes == old(types).classes,
{
    let ghost vts = types.vtables@;
    let n = types.vtables.len();
    for i in 0..n
        invariant
            rtti_fits(*img),
            n == vts.len(),
            types.vtables@.len() == n,
            forall|q: int| 0 <= q < i ==> vtable_view(#[trigger] types.vtables@[q]) == rtti_named(*img, vtable_view(vts[q])),
            forall|q: int| i <= q < n ==> #[trigger] types.vtables@[q] == vts[q],
            types.methods == old(types).methods,
            types.inheritance == old(types).inheritance,
            types.classes == old(types).classes,
    {
        match rtti_name_of(img, &types.vtables[i]) {
            Some(name) => {
                types.vtables[i].class_name = Some(name);
            },
            None => {},
        }
    }
    assert(vtables_view(types.vtables@) =~= vtables_view(vts).map_values(|v: VtableView| rtti_named(*img, v)));
}

} // verus!
