//! The file set of a reconstructed whole-program project: one `.cpp` file
//! per module, `program.h` with every signature, `imports.h` with the
//! imported symbols grouped by library, and `CMakeLists.txt`.

use vstd::prelude::*;
use crate::program_emit::{
    cmake_text, extract_signature, generate_cmake, last_component, plain_file_name, sanitize_char,
    sanitize_name, signature_text, stem_of, strs, DEFAULT_BINARY_NAME,
};
use crate::text::{hex_lower, push_hex_lower, str_eq, to_chars};

verus! {

/// One emitted function: the module it belongs to, its name, its entry
/// address and its C code.
pub struct EmittedFunction {
    pub module_name: String,
    pub func_name: String,
    pub entry_addr: u64,
    pub code: String,
}

/// An imported symbol and the library that provides it.
pub struct ImportDecl {
    pub symbol_name: String,
    pub lib_name: String,
}

/// A file of the project: its path below the output directory and its text.
pub struct ProjectFile {
    pub path: String,
    pub content: String,
}

/// A function by module, name, address and code.
pub type FnView = (Seq<char>, Seq<char>, u64, Seq<char>);

pub open spec fn fn_view(f: EmittedFunction) -> FnView {
    (f.module_name@, f.func_name@, f.entry_addr, f.code@)
}

pub open spec fn fn_views(s: Seq<EmittedFunction>) -> Seq<FnView> {
    s.map_values(|f: EmittedFunction| fn_view(f))
}

/// An import by symbol and library.
pub open spec fn import_view(i: ImportDecl) -> (Seq<char>, Seq<char>) {
    (i.symbol_name@, i.lib_name@)
}

pub open spec fn import_views(s: Seq<ImportDecl>) -> Seq<(Seq<char>, Seq<char>)> {
    s.map_values(|i: ImportDecl| import_view(i))
}

pub open spec fn file_views(s: Seq<ProjectFile>) -> Seq<(Seq<char>, Seq<char>)> {
    s.map_values(|f: ProjectFile| (f.path@, f.content@))
}

// ---------------------------------------------------------------------------
// Orders
// ---------------------------------------------------------------------------

/// `a` comes before `b` in the order of `str`: character by character,
/// a proper prefix first.
pub open spec fn text_lt(a: Seq<char>, b: Seq<char>) -> bool
    decreases a.len(),
{
    if a.len() == 0 {
        b.len() > 0
    } else if b.len() == 0 {
        false
    } else if a[0] != b[0] {
        (a[0] as u32) < (b[0] as u32)
    } else {
        text_lt(a.drop_first(), b.drop_first())
    }
}

fn chars_lt(a: &Vec<char>, b: &Vec<char>) -> (r: bool)
    ensures
        r == text_lt(a@, b@),
{
    let mut i: usize = 0;
    assert(a@.subrange(0, a@.len() as int) =~= a@);
    assert(b@.subrange(0, b@.len() as int) =~= b@);
    while i < a.len() && i < b.len()
        invariant
            i <= a@.len(),
            i <= b@.len(),
            a@.subrange(0, i as int) == b@.subrange(0, i as int),
            text_lt(a@, b@) == text_lt(a@.subrange(i as int, a@.len() as int), b@.subrange(i as int, b@.len() as int)),
        decreases a@.len() - i,
    {
        let x = a[i];
        let y = b[i];
        if x != y {
            return (x as u32) < (y as u32);
        }
        assert(a@.subrange(i as int, a@.len() as int).drop_first() =~= a@.subrange(i + 1, a@.len() as int));
        assert(b@.subrange(i as int, b@.len() as int).drop_first() =~= b@.subrange(i + 1, b@.len() as int));
        assert(a@.subrange(0, i + 1) =~= a@.subrange(0, i as int).push(x));
        assert(b@.subrange(0, i + 1) =~= b@.subrange(0, i as int).push(y));
        i = i + 1;
    }
    i < b.len()
}

/// The position of the first least address among the first `k` functions.
pub open spec fn first_min_addr(s: Seq<FnView>, k: int) -> int
    decreases k,
{
    if k <= 1 {
        0
    } else {
        let j = first_min_addr(s, k - 1);
        if s[k - 1].2 < s[j].2 {
            k - 1
        } else {
            j
        }
    }
}

pub proof fn lemma_first_min_addr_range(s: Seq<FnView>, k: int)
    requires
        1 <= k,
    ensures
        0 <= first_min_addr(s, k) < k,
    decreases k,
{
    if k > 1 {
        lemma_first_min_addr_range(s, k - 1);
    }
}

/// The functions ordered by entry address, a stable sort: each step takes
/// the first function with the least address.
pub open spec fn by_addr(s: Seq<FnView>) -> Seq<FnView>
    decreases s.len(),
{
    if s.len() == 0 {
        seq![]
    } else {
        let j = first_min_addr(s, s.len() as int);
        proof {
            lemma_first_min_addr_range(s, s.len() as int);
        }
        seq![s[j]] + by_addr(s.remove(j))
    }
}

/// The position of the first module name, among the first `k` functions,
/// that no other comes before.
pub open spec fn first_min_module(s: Seq<FnView>, k: int) -> int
    decreases k,
{
    if k <= 1 {
        0
    } else {
        let j = first_min_module(s, k - 1);
        if text_lt(s[k - 1].0, s[j].0) {
            k - 1
        } else {
            j
        }
    }
}

pub proof fn lemma_first_min_module_range(s: Seq<FnView>, k: int)
    requires
        1 <= k,
    ensures
        0 <= first_min_module(s, k) < k,
    decreases k,
{
    if k > 1 {
        lemma_first_min_module_range(s, k - 1);
    }
}

/// The functions of module `m`, and the others, each in their order.
pub open spec fn split_module(s: Seq<FnView>, m: Seq<char>) -> (Seq<FnView>, Seq<FnView>)
    decreases s.len(),
{
    if s.len() == 0 {
        (seq![], seq![])
    } else {
        let (a, b) = split_module(s.drop_first(), m);
        if s[0].0 == m {
            (seq![s[0]] + a, b)
        } else {
            (a, seq![s[0]] + b)
        }
    }
}

pub proof fn lemma_split_module_len(s: Seq<FnView>, m: Seq<char>)
    ensures
        split_module(s, m).0.len() + split_module(s, m).1.len() == s.len(),
        (exists|i: int| 0 <= i < s.len() && #[trigger] s[i].0 == m) ==> split_module(s, m).1.len() < s.len(),
    decreases s.len(),
{
    if s.len() > 0 {
        lemma_split_module_len(s.drop_first(), m);
        if s[0].0 != m && exists|i: int| 0 <= i < s.len() && #[trigger] s[i].0 == m {
            let i = choose|i: int| 0 <= i < s.len() && #[trigger] s[i].0 == m;
            assert(s.drop_first()[i - 1].0 == m);
        }
    }
}

/// The functions grouped by module: modules in the order of `str`, each
/// with its functions in their order.
pub open spec fn modules_of(s: Seq<FnView>) -> Seq<(Seq<char>, Seq<FnView>)>
    decreases s.len(),
{
    if s.len() == 0 {
        seq![]
    } else {
        let j = first_min_module(s, s.len() as int);
        proof {
            lemma_first_min_module_range(s, s.len() as int);
        }
        let m = s[j].0;
        proof {
            lemma_split_module_len(s, m);
        }
        seq![(m, split_module(s, m).0)] + modules_of(split_module(s, m).1)
    }
}

fn first_min_addr_exec(s: &Vec<EmittedFunction>) -> (j: usize)
    requires
        s@.len() > 0,
    ensures
        j == first_min_addr(fn_views(s@), s@.len() as int),
        j < s@.len(),
{
    let ghost v = fn_views(s@);
    let mut j: usize = 0;
    let mut k: usize = 1;
    while k < s.len()
        invariant
            v == fn_views(s@),
            1 <= k <= s@.len(),
            j == first_min_addr(v, k as int),
            j < k,
        decreases s@.len() - k,
    {
        if s[k].entry_addr < s[j].entry_addr {
            j = k;
        }
        k = k + 1;
    }
    j
}

/// Orders the functions by entry address, keeping the given order among
/// equal addresses.
pub fn sort_by_addr(fs: Vec<EmittedFunction>) -> (r: Vec<EmittedFunction>)
    ensures
        fn_views(r@) == by_addr(fn_views(fs@)),
{
    let mut rem = fs;
    let mut out: Vec<EmittedFunction> = Vec::new();
    while rem.len() > 0
        invariant
            fn_views(out@) + by_addr(fn_views(rem@)) == by_addr(fn_views(fs@)),
        decreases rem@.len(),
    {
        let ghost before = rem@;
        let j = first_min_addr_exec(&rem);
        let f = rem.remove(j);
        proof {
            assert(fn_views(rem@) =~= fn_views(before).remove(j as int));
            assert(by_addr(fn_views(before)) == seq![fn_view(f)] + by_addr(fn_views(rem@)));
        }
        out.push(f);
        assert(fn_views(out@) =~= fn_views(out@.drop_last()).push(fn_view(f)));
    }
    assert(by_addr(fn_views(rem@)) =~= Seq::<FnView>::empty());
    assert(fn_views(out@) + Seq::<FnView>::empty() =~= fn_views(out@));
    out
}

fn first_min_module_exec(s: &Vec<EmittedFunction>) -> (j: usize)
    requires
        s@.len() > 0,
    ensures
        j == first_min_module(fn_views(s@), s@.len() as int),
        j < s@.len(),
{
    let ghost v = fn_views(s@);
    let mut j: usize = 0;
    let mut best = to_chars(s[0].module_name.as_str());
    let mut k: usize = 1;
    while k < s.len()
        invariant
            v == fn_views(s@),
            1 <= k <= s@.len(),
            j == first_min_module(v, k as int),
            j < k,
            best@ == v[j as int].0,
        decreases s@.len() - k,
    {
        let cur = to_chars(s[k].module_name.as_str());
        if chars_lt(&cur, &best) {
            j = k;
            best = cur;
        }
        k = k + 1;
    }
    j
}

/// Moves the functions of module `m` out of `fs`, keeping the order.
fn split_module_exec(fs: Vec<EmittedFunction>, m: &str) -> (r: (Vec<EmittedFunction>, Vec<EmittedFunction>))
    ensures
        (fn_views(r.0@), fn_views(r.1@)) == split_module(fn_views(fs@), m@),
{
    let mut rem = fs;
    let mut same: Vec<EmittedFunction> = Vec::new();
    let mut rest: Vec<EmittedFunction> = Vec::new();
    while rem.len() > 0
        invariant
            (fn_views(same@) + split_module(fn_views(rem@), m@).0, fn_views(rest@) + split_module(
                fn_views(rem@),
                m@,
            ).1) == split_module(fn_views(fs@), m@),
        decreases rem@.len(),
    {
        let ghost before = rem@;
        let f = rem.remove(0);
        proof {
            assert(fn_views(rem@) =~= fn_views(before).drop_first());
        }
        if str_eq(f.module_name.as_str(), m) {
            same.push(f);
            assert(fn_views(same@) =~= fn_views(same@.drop_last()).push(fn_view(f)));
            assert(fn_views(same@) + split_module(fn_views(rem@), m@).0 =~= fn_views(same@.drop_last())
                + split_module(fn_views(before), m@).0);
        } else {
            rest.push(f);
            assert(fn_views(rest@) =~= fn_views(rest@.drop_last()).push(fn_view(f)));
            assert(fn_views(rest@) + split_module(fn_views(rem@), m@).1 =~= fn_views(rest@.drop_last())
                + split_module(fn_views(before), m@).1);
        }
    }
    assert(fn_views(same@) + Seq::<FnView>::empty() =~= fn_views(same@));
    assert(fn_views(rest@) + Seq::<FnView>::empty() =~= fn_views(rest@));
    (same, rest)
}

/// A module name and its functions, as views.
pub open spec fn module_views(s: Seq<(String, Vec<EmittedFunction>)>) -> Seq<(Seq<char>, Seq<FnView>)> {
    s.map_values(|g: (String, Vec<EmittedFunction>)| (g.0@, fn_views(g.1@)))
}

/// Groups the functions by module: modules in the order of `str`, each
/// with its functions in the given order.
pub fn group_modules(fs: Vec<EmittedFunction>) -> (r: Vec<(String, Vec<EmittedFunction>)>)
    ensures
        module_views(r@) == modules_of(fn_views(fs@)),
{
    let mut rem = fs;
    let mut out: Vec<(String, Vec<EmittedFunction>)> = Vec::new();
    while rem.len() > 0
        invariant
            module_views(out@) + modules_of(fn_views(rem@)) == modules_of(fn_views(fs@)),
        decreases rem@.len(),
    {
        let ghost before = fn_views(rem@);
        let j = first_min_module_exec(&rem);
        let m = rem[j].module_name.clone();
        proof {
            lemma_first_min_module_range(before, before.len() as int);
            lemma_split_module_len(before, m@);
            assert(before[j as int].0 == m@);
        }
        let (same, rest) = split_module_exec(rem, m.as_str());
        rem = rest;
        out.push((m, same));
        assert(module_views(out@) =~= module_views(out@.drop_last()).push((m@, fn_views(same@))));
        assert(module_views(out@) + modules_of(fn_views(rem@)) =~= module_views(out@.drop_last())
            + modules_of(before));
    }
    assert(module_views(out@) + Seq::<(Seq<char>, Seq<FnView>)>::empty() =~= module_views(out@));
    out
}

// ---------------------------------------------------------------------------
// Imports
// ---------------------------------------------------------------------------

/// An import by symbol and library.
pub type ImpView = (Seq<char>, Seq<char>);

/// The imports whose symbol does not occur earlier, in order.
pub open spec fn first_imports(s: Seq<ImpView>) -> Seq<ImpView>
    decreases s.len(),
{
    if s.len() == 0 {
        seq![]
    } else {
        let p = first_imports(s.drop_last());
        if exists|j: int| 0 <= j < s.len() - 1 && #[trigger] s[j].0 == s.last().0 {
            p
        } else {
            p.push(s.last())
        }
    }
}

/// The position of the first library name, among the first `k` imports,
/// that no other comes before.
pub open spec fn first_min_lib(s: Seq<ImpView>, k: int) -> int
    decreases k,
{
    if k <= 1 {
        0
    } else {
        let j = first_min_lib(s, k - 1);
        if text_lt(s[k - 1].1, s[j].1) {
            k - 1
        } else {
            j
        }
    }
}

pub proof fn lemma_first_min_lib_range(s: Seq<ImpView>, k: int)
    requires
        1 <= k,
    ensures
        0 <= first_min_lib(s, k) < k,
    decreases k,
{
    if k > 1 {
        lemma_first_min_lib_range(s, k - 1);
    }
}

/// The imports from library `l`, and the others, each in their order.
pub open spec fn split_lib(s: Seq<ImpView>, l: Seq<char>) -> (Seq<ImpView>, Seq<ImpView>)
    decreases s.len(),
{
    if s.len() == 0 {
        (seq![], seq![])
    } else {
        let (a, b) = split_lib(s.drop_first(), l);
        if s[0].1 == l {
            (seq![s[0]] + a, b)
        } else {
            (a, seq![s[0]] + b)
        }
    }
}

pub proof fn lemma_split_lib_len(s: Seq<ImpView>, l: Seq<char>)
    ensures
        split_lib(s, l).0.len() + split_lib(s, l).1.len() == s.len(),
        (exists|i: int| 0 <= i < s.len() && #[trigger] s[i].1 == l) ==> split_lib(s, l).1.len() < s.len(),
    decreases s.len(),
{
    if s.len() > 0 {
        lemma_split_lib_len(s.drop_first(), l);
        if s[0].1 != l && exists|i: int| 0 <= i < s.len() && #[trigger] s[i].1 == l {
            let i = choose|i: int| 0 <= i < s.len() && #[trigger] s[i].1 == l;
            assert(s.drop_first()[i - 1].1 == l);
        }
    }
}

/// The imports grouped by library: libraries in the order of `str`, each
/// with its imports in their order.
pub open spec fn libs_of(s: Seq<ImpView>) -> Seq<(Seq<char>, Seq<ImpView>)>
    decreases s.len(),
{
    if s.len() == 0 {
        seq![]
    } else {
        let j = first_min_lib(s, s.len() as int);
        proof {
            lemma_first_min_lib_range(s, s.len() as int);
        }
        let l = s[j].1;
        proof {
            lemma_split_lib_len(s, l);
        }
        seq![(l, split_lib(s, l).0)] + libs_of(split_lib(s, l).1)
    }
}

/// Keeps the first import of each symbol, in order.
pub fn dedup_imports(imports: &[ImportDecl]) -> (r: Vec<ImportDecl>)
    ensures
        import_views(r@) == first_imports(import_views(imports@)),
{
    let ghost v = import_views(imports@);
    let mut out: Vec<ImportDecl> = Vec::new();
    let mut i: usize = 0;
    while i < imports.len()
        invariant
            v == import_views(imports@),
            i <= imports@.len(),
            import_views(out@) == first_imports(v.take(i as int)),
        decreases imports@.len() - i,
    {
        let mut seen = false;
        let mut j: usize = 0;
        while j < i
            invariant
                v == import_views(imports@),
                j <= i < imports@.len(),
                seen <==> exists|k: int| 0 <= k < j && #[trigger] v[k].0 == v[i as int].0,
            decreases i - j,
        {
            let same = str_eq(imports[j].symbol_name.as_str(), imports[i].symbol_name.as_str());
            assert(v[j as int].0 == imports@[j as int].symbol_name@);
            assert(v[i as int].0 == imports@[i as int].symbol_name@);
            if same {
                seen = true;
            }
            assert(seen <==> exists|k: int| 0 <= k < j + 1 && #[trigger] v[k].0 == v[i as int].0) by {
                if exists|k: int| 0 <= k < j + 1 && #[trigger] v[k].0 == v[i as int].0 {
                    let k = choose|k: int| 0 <= k < j + 1 && #[trigger] v[k].0 == v[i as int].0;
                    if k < j {
                        assert(exists|k2: int| 0 <= k2 < j && #[trigger] v[k2].0 == v[i as int].0);
                    }
                }
            }
            j = j + 1;
        }
        let ghost t = v.take(i + 1);
        proof {
            assert(t.drop_last() =~= v.take(i as int));
            assert(t.last() == v[i as int]);
            assert((exists|k: int| 0 <= k < t.len() - 1 && #[trigger] t[k].0 == t.last().0) <==> seen) by {
                if seen {
                    let k = choose|k: int| 0 <= k < i && #[trigger] v[k].0 == v[i as int].0;
                    assert(t[k].0 == t.last().0);
                }
                if exists|k: int| 0 <= k < t.len() - 1 && #[trigger] t[k].0 == t.last().0 {
                    let k = choose|k: int| 0 <= k < t.len() - 1 && #[trigger] t[k].0 == t.last().0;
                    assert(v[k].0 == v[i as int].0);
                }
            }
        }
        if !seen {
            out.push(ImportDecl {
                symbol_name: imports[i].symbol_name.clone(),
                lib_name: imports[i].lib_name.clone(),
            });
            assert(import_views(out@) =~= import_views(out@.drop_last()).push(v[i as int]));
        }
        i = i + 1;
    }
    assert(v.take(imports@.len() as int) =~= v);
    out
}

fn first_min_lib_exec(s: &Vec<ImportDecl>) -> (j: usize)
    requires
        s@.len() > 0,
    ensures
        j == first_min_lib(import_views(s@), s@.len() as int),
        j < s@.len(),
{
    let ghost v = import_views(s@);
    let mut j: usize = 0;
    let mut best = to_chars(s[0].lib_name.as_str());
    let mut k: usize = 1;
    while k < s.len()
        invariant
            v == import_views(s@),
            1 <= k <= s@.len(),
            j == first_min_lib(v, k as int),
            j < k,
            best@ == v[j as int].1,
        decreases s@.len() - k,
    {
        let cur = to_chars(s[k].lib_name.as_str());
        if chars_lt(&cur, &best) {
            j = k;
            best = cur;
        }
        k = k + 1;
    }
    j
}

fn split_lib_exec(is: Vec<ImportDecl>, l: &str) -> (r: (Vec<ImportDecl>, Vec<ImportDecl>))
    ensures
        (import_views(r.0@), import_views(r.1@)) == split_lib(import_views(is@), l@),
{
    let mut rem = is;
    let mut same: Vec<ImportDecl> = Vec::new();
    let mut rest: Vec<ImportDecl> = Vec::new();
    while rem.len() > 0
        invariant
            (import_views(same@) + split_lib(import_views(rem@), l@).0, import_views(rest@) + split_lib(
                import_views(rem@),
                l@,
            ).1) == split_lib(import_views(is@), l@),
        decreases rem@.len(),
    {
        let ghost before = rem@;
        let x = rem.remove(0);
        proof {
            assert(import_views(rem@) =~= import_views(before).drop_first());
        }
        if str_eq(x.lib_name.as_str(), l) {
            same.push(x);
            assert(import_views(same@) =~= import_views(same@.drop_last()).push(import_view(x)));
            assert(import_views(same@) + split_lib(import_views(rem@), l@).0 =~= import_views(same@.drop_last())
                + split_lib(import_views(before), l@).0);
        } else {
            rest.push(x);
            assert(import_views(rest@) =~= import_views(rest@.drop_last()).push(import_view(x)));
            assert(import_views(rest@) + split_lib(import_views(rem@), l@).1 =~= import_views(rest@.drop_last())
                + split_lib(import_views(before), l@).1);
        }
    }
    assert(import_views(same@) + Seq::<ImpView>::empty() =~= import_views(same@));
    assert(import_views(rest@) + Seq::<ImpView>::empty() =~= import_views(rest@));
    (same, rest)
}

/// A library name and its imports, as views.
pub open spec fn lib_views(s: Seq<(String, Vec<ImportDecl>)>) -> Seq<(Seq<char>, Seq<ImpView>)> {
    s.map_values(|g: (String, Vec<ImportDecl>)| (g.0@, import_views(g.1@)))
}

/// Groups the imports by library: libraries in the order of `str`, each
/// with its imports in the given order.
pub fn group_libs(is: Vec<ImportDecl>) -> (r: Vec<(String, Vec<ImportDecl>)>)
    ensures
        lib_views(r@) == libs_of(import_views(is@)),
{
    let mut rem = is;
    let mut out: Vec<(String, Vec<ImportDecl>)> = Vec::new();
    while rem.len() > 0
        invariant
            lib_views(out@) + libs_of(import_views(rem@)) == libs_of(import_views(is@)),
        decreases rem@.len(),
    {
        let ghost before = import_views(rem@);
        let j = first_min_lib_exec(&rem);
        let l = rem[j].lib_name.clone();
        proof {
            lemma_first_min_lib_range(before, before.len() as int);
            lemma_split_lib_len(before, l@);
            assert(before[j as int].1 == l@);
        }
        let (same, rest) = split_lib_exec(rem, l.as_str());
        rem = rest;
        out.push((l, same));
        assert(lib_views(out@) =~= lib_views(out@.drop_last()).push((l@, import_views(same@))));
        assert(lib_views(out@) + libs_of(import_views(rem@)) =~= lib_views(out@.drop_last()) + libs_of(before));
    }
    assert(lib_views(out@) + Seq::<(Seq<char>, Seq<ImpView>)>::empty() =~= lib_views(out@));
    out
}

// ---------------------------------------------------------------------------
// File texts
// ---------------------------------------------------------------------------

pub const MODULE_PRE: &'static str = "/* Module: ";
pub const MODULE_POST: &'static str = " \u{2014} reconstructed by Canary */\n#include \"program.h\"\n#include \"imports.h\"\n\n";
pub const FUNC_PRE: &'static str = "/* Function: ";
pub const FUNC_AT: &'static str = " @ 0x";
pub const FUNC_POST: &'static str = " */\n";
pub const FUNC_END: &'static str = "\n\n";
pub const PROGRAM_H_HEAD: &'static str = "/* program.h \u{2014} all recovered function signatures */\n/* Generated by Canary \u{2014} do not edit manually */\n\n#pragma once\n#include <stdint.h>\n#include <stdbool.h>\n\n#ifdef _MSC_VER\n#include <emmintrin.h>\ntypedef __m128i uint128_t;\n#else\ntypedef unsigned __int128 uint128_t;\n#endif\n\n/* --- Function Declarations --- */\n\n";
pub const SIG_END: &'static str = ";\n";
pub const IMPORTS_H_HEAD: &'static str = "/* imports.h \u{2014} imported function declarations */\n/* Generated by Canary \u{2014} do not edit manually */\n\n#pragma once\n#include <stdint.h>\n\n/* IAT imports \u{2014} these are resolved at link time */\n\n";
pub const FROM_PRE: &'static str = "/* From: ";
pub const FROM_POST: &'static str = " */\n";
pub const DECL_PRE: &'static str = "extern void* ";
pub const DECL_MID: &'static str = "; /* ";
pub const DECL_POST: &'static str = " */\n";
pub const LIB_END: &'static str = "\n";
pub const SRC_DIR: &'static str = "src/";
pub const CPP_EXT: &'static str = ".cpp";
pub const PROGRAM_H_PATH: &'static str = "include/program.h";
pub const IMPORTS_H_PATH: &'static str = "include/imports.h";
pub const CMAKE_PATH: &'static str = "CMakeLists.txt";

/// Each function under a `Function` comment with its address, then its
/// code and a blank line.
pub open spec fn fns_text(fs: Seq<FnView>) -> Seq<char>
    decreases fs.len(),
{
    if fs.len() == 0 {
        seq![]
    } else {
        let f = fs.last();
        fns_text(fs.drop_last()) + FUNC_PRE@ + f.1 + FUNC_AT@ + hex_lower(f.2 as nat) + FUNC_POST@ + f.3
            + FUNC_END@
    }
}

/// The `.cpp` text of module `m` with functions `fs`.
pub open spec fn module_text(m: Seq<char>, fs: Seq<FnView>) -> Seq<char> {
    MODULE_PRE@ + m + MODULE_POST@ + fns_text(fs)
}

/// The path of module `m`'s `.cpp` file.
pub open spec fn cpp_path_of(m: Seq<char>) -> Seq<char> {
    SRC_DIR@ + m.map_values(|c: char| sanitize_char(c)) + CPP_EXT@
}

/// Each function's signature line, ended by `;`.
pub open spec fn sigs_text(fs: Seq<FnView>) -> Seq<char>
    decreases fs.len(),
{
    if fs.len() == 0 {
        seq![]
    } else {
        let f = fs.last();
        sigs_text(fs.drop_last()) + signature_text(f.3, f.1, f.2) + SIG_END@
    }
}

/// Each import as an `extern` declaration naming its library.
pub open spec fn decls_text(is: Seq<ImpView>) -> Seq<char>
    decreases is.len(),
{
    if is.len() == 0 {
        seq![]
    } else {
        let i = is.last();
        decls_text(is.drop_last()) + DECL_PRE@ + i.0 + DECL_MID@ + i.1 + DECL_POST@
    }
}

/// Each library under a `From` comment with its declarations.
pub open spec fn libs_text(gs: Seq<(Seq<char>, Seq<ImpView>)>) -> Seq<char>
    decreases gs.len(),
{
    if gs.len() == 0 {
        seq![]
    } else {
        let g = gs.last();
        libs_text(gs.drop_last()) + FROM_PRE@ + g.0 + FROM_POST@ + decls_text(g.1) + LIB_END@
    }
}

/// The functions in the order the project lists them: by entry address.
pub open spec fn ordered_fns(fns: Seq<FnView>) -> Seq<FnView> {
    by_addr(fns)
}

/// The modules of the project, each with its functions.
pub open spec fn project_modules(fns: Seq<FnView>) -> Seq<(Seq<char>, Seq<FnView>)> {
    modules_of(by_addr(fns))
}

/// The libraries of the project, each with the first import of each of its
/// symbols.
pub open spec fn project_libs(imports: Seq<ImpView>) -> Seq<(Seq<char>, Seq<ImpView>)> {
    libs_of(first_imports(imports))
}

/// The `.cpp` paths of the project, module by module.
pub open spec fn project_cpp_paths(fns: Seq<FnView>) -> Seq<Seq<char>> {
    project_modules(fns).map_values(|g: (Seq<char>, Seq<FnView>)| cpp_path_of(g.0))
}

/// The library names of the project.
pub open spec fn project_lib_names(imports: Seq<ImpView>) -> Seq<Seq<char>> {
    project_libs(imports).map_values(|g: (Seq<char>, Seq<ImpView>)| g.0)
}

/// The project's files but `CMakeLists.txt`: one `.cpp` file per module,
/// then `include/program.h` and `include/imports.h`.
pub open spec fn project_sources(fns: Seq<FnView>, imports: Seq<ImpView>) -> Seq<(Seq<char>, Seq<char>)> {
    project_modules(fns).map_values(
        |g: (Seq<char>, Seq<FnView>)| (cpp_path_of(g.0), module_text(g.0, g.1)),
    ) + seq![
        (PROGRAM_H_PATH@, PROGRAM_H_HEAD@ + sigs_text(ordered_fns(fns))),
        (IMPORTS_H_PATH@, IMPORTS_H_HEAD@ + libs_text(project_libs(imports))),
    ]
}

fn push_fns_text(out: &mut String, fs: &Vec<EmittedFunction>)
    ensures
        final(out)@ == old(out)@ + fns_text(fn_views(fs@)),
{
    let ghost v = fn_views(fs@);
    let mut i: usize = 0;
    while i < fs.len()
        invariant
            v == fn_views(fs@),
            i <= fs@.len(),
            out@ == old(out)@ + fns_text(v.take(i as int)),
        decreases fs@.len() - i,
    {
        let f = &fs[i];
        out.append(FUNC_PRE);
        out.append(f.func_name.as_str());
        out.append(FUNC_AT);
        push_hex_lower(out, f.entry_addr);
        out.append(FUNC_POST);
        out.append(f.code.as_str());
        out.append(FUNC_END);
        assert(v.take(i + 1).drop_last() =~= v.take(i as int));
        assert(out@ =~= old(out)@ + fns_text(v.take(i + 1)));
        i = i + 1;
    }
    assert(v.take(fs@.len() as int) =~= v);
}

fn push_sigs_text(out: &mut String, fs: &Vec<EmittedFunction>)
    ensures
        final(out)@ == old(out)@ + sigs_text(fn_views(fs@)),
{
    let ghost v = fn_views(fs@);
    let mut i: usize = 0;
    while i < fs.len()
        invariant
            v == fn_views(fs@),
            i <= fs@.len(),
            out@ == old(out)@ + sigs_text(v.take(i as int)),
        decreases fs@.len() - i,
    {
        let f = &fs[i];
        let sig = extract_signature(f.code.as_str(), f.func_name.as_str(), f.entry_addr);
        out.append(sig.as_str());
        out.append(SIG_END);
        assert(v.take(i + 1).drop_last() =~= v.take(i as int));
        assert(out@ =~= old(out)@ + sigs_text(v.take(i + 1)));
        i = i + 1;
    }
    assert(v.take(fs@.len() as int) =~= v);
}

fn push_decls_text(out: &mut String, is: &Vec<ImportDecl>)
    ensures
        final(out)@ == old(out)@ + decls_text(import_views(is@)),
{
    let ghost v = import_views(is@);
    let mut i: usize = 0;
    while i < is.len()
        invariant
            v == import_views(is@),
            i <= is@.len(),
            out@ == old(out)@ + decls_text(v.take(i as int)),
        decreases is@.len() - i,
    {
        out.append(DECL_PRE);
        out.append(is[i].symbol_name.as_str());
        out.append(DECL_MID);
        out.append(is[i].lib_name.as_str());
        out.append(DECL_POST);
        assert(v.take(i + 1).drop_last() =~= v.take(i as int));
        assert(out@ =~= old(out)@ + decls_text(v.take(i + 1)));
        i = i + 1;
    }
    assert(v.take(is@.len() as int) =~= v);
}

/// The project's file set for the functions `functions` (entry addresses
/// as the functions' keys) and the imports `imports`: one `.cpp` file per
/// module, modules in the order of `str` and functions by entry address;
/// `include/program.h` with every function's signature by entry address;
/// `include/imports.h` with the first import of each symbol, grouped by
/// library; and last `CMakeLists.txt` over the `.cpp` files and libraries,
/// its target named after the binary at `binary_path`.
pub fn build_project_files(
    functions: Vec<EmittedFunction>,
    imports: &[ImportDecl],
    format: &str,
    binary_path: &str,
) -> (r: Vec<ProjectFile>)
    ensures
        ({
            let fns = fn_views(functions@);
            let ims = import_views(imports@);
            let src = project_sources(fns, ims);
            &&& r@.len() == src.len() + 1
            &&& file_views(r@).take(src.len() as int) == src
            &&& r@.last().path@ == CMAKE_PATH@
            &&& plain_file_name(last_component(binary_path@)) ==> r@.last().content@ == cmake_text(
                stem_of(last_component(binary_path@)),
                format@,
                project_cpp_paths(fns),
                project_lib_names(ims),
            )
            &&& exists|name: Seq<char>|
                #![trigger cmake_text(name, format@, project_cpp_paths(fns), project_lib_names(ims))]
                r@.last().content@ == cmake_text(name, format@, project_cpp_paths(fns), project_lib_names(ims))
                    && (name == DEFAULT_BINARY_NAME@ || (name.len() > 0 && !name.contains('/')))
        }),
{
    let ghost fns = fn_views(functions@);
    let ghost ims = import_views(imports@);
    let sorted = sort_by_addr(functions);
    let mut program_h = String::new();
    program_h.append(PROGRAM_H_HEAD);
    push_sigs_text(&mut program_h, &sorted);
    assert(program_h@ == PROGRAM_H_HEAD@ + sigs_text(ordered_fns(fns)));
    let groups = group_modules(sorted);
    let ghost mods = module_views(groups@);
    let mut files: Vec<ProjectFile> = Vec::new();
    let mut cpp_paths: Vec<String> = Vec::new();
    let mut g: usize = 0;
    while g < groups.len()
        invariant
            mods == module_views(groups@),
            mods == project_modules(fns),
            program_h@ == PROGRAM_H_HEAD@ + sigs_text(ordered_fns(fns)),
            g <= groups@.len(),
            file_views(files@) == mods.take(g as int).map_values(
                |x: (Seq<char>, Seq<FnView>)| (cpp_path_of(x.0), module_text(x.0, x.1)),
            ),
            strs(cpp_paths@) == mods.take(g as int).map_values(|x: (Seq<char>, Seq<FnView>)| cpp_path_of(x.0)),
        decreases groups@.len() - g,
    {
        let m = &groups[g].0;
        let mut path = String::new();
        path.append(SRC_DIR);
        let safe = sanitize_name(m.as_str());
        path.append(safe.as_str());
        path.append(CPP_EXT);
        let mut content = String::new();
        content.append(MODULE_PRE);
        content.append(m.as_str());
        content.append(MODULE_POST);
        push_fns_text(&mut content, &groups[g].1);
        proof {
            assert(path@ =~= cpp_path_of(mods[g as int].0));
            assert(content@ =~= module_text(mods[g as int].0, mods[g as int].1));
            assert(mods.take(g + 1) =~= mods.take(g as int).push(mods[g as int]));
        }
        let ghost fv0 = file_views(files@);
        let ghost cp0 = strs(cpp_paths@);
        cpp_paths.push(path.clone());
        assert(strs(cpp_paths@) =~= cp0.push(path@));
        let ghost pv = path@;
        let ghost cv = content@;
        files.push(ProjectFile { path, content });
        assert(file_views(files@) =~= fv0.push((pv, cv)));
        assert(file_views(files@) =~= mods.take(g + 1).map_values(
            |x: (Seq<char>, Seq<FnView>)| (cpp_path_of(x.0), module_text(x.0, x.1)),
        ));
        assert(strs(cpp_paths@) =~= mods.take(g + 1).map_values(|x: (Seq<char>, Seq<FnView>)| cpp_path_of(x.0)));
        g = g + 1;
    }
    assert(mods.take(groups@.len() as int) =~= mods);
    let ghost fv_mods = file_views(files@);
    let ghost ph = program_h@;
    files.push(ProjectFile { path: String::from_str(PROGRAM_H_PATH), content: program_h });
    assert(file_views(files@) =~= fv_mods.push((PROGRAM_H_PATH@, ph)));

    let firsts = dedup_imports(imports);
    let libs = group_libs(firsts);
    let ghost lv = lib_views(libs@);
    let mut imports_h = String::new();
    imports_h.append(IMPORTS_H_HEAD);
    let mut lib_names: Vec<String> = Vec::new();
    let mut l: usize = 0;
    while l < libs.len()
        invariant
            lv == lib_views(libs@),
            lv == project_libs(ims),
            l <= libs@.len(),
            imports_h@ == IMPORTS_H_HEAD@ + libs_text(lv.take(l as int)),
            strs(lib_names@) == lv.take(l as int).map_values(|x: (Seq<char>, Seq<ImpView>)| x.0),
        decreases libs@.len() - l,
    {
        imports_h.append(FROM_PRE);
        imports_h.append(libs[l].0.as_str());
        imports_h.append(FROM_POST);
        push_decls_text(&mut imports_h, &libs[l].1);
        imports_h.append(LIB_END);
        let ghost ln0 = strs(lib_names@);
        lib_names.push(libs[l].0.clone());
        assert(strs(lib_names@) =~= ln0.push(libs@[l as int].0@));
        proof {
            assert(lv.take(l + 1).drop_last() =~= lv.take(l as int));
            assert(imports_h@ =~= IMPORTS_H_HEAD@ + libs_text(lv.take(l + 1)));
            assert(strs(lib_names@) =~= lv.take(l + 1).map_values(|x: (Seq<char>, Seq<ImpView>)| x.0));
        }
        l = l + 1;
    }
    assert(lv.take(libs@.len() as int) =~= lv);
    let ghost fv_ph = file_views(files@);
    let ghost ih = imports_h@;
    files.push(ProjectFile { path: String::from_str(IMPORTS_H_PATH), content: imports_h });
    assert(file_views(files@) =~= fv_ph.push((IMPORTS_H_PATH@, ih)));
    let ghost src_files = file_views(files@);
    assert(strs(cpp_paths@) =~= project_cpp_paths(fns));
    assert(strs(lib_names@) =~= project_lib_names(ims));
    let cmake = generate_cmake(format, binary_path, &cpp_paths, &lib_names);
    let ghost cm = cmake@;
    files.push(ProjectFile { path: String::from_str(CMAKE_PATH), content: cmake });
    proof {
        assert(file_views(files@) =~= src_files.push((CMAKE_PATH@, cm)));
        assert(src_files =~= project_sources(fns, ims));
        assert(file_views(files@).take(src_files.len() as int) =~= src_files);
        assert(files@.last().content@ == cm);
    }
    files
}

} // verus!
