//! Project layout recovery: the files of the reconstructed source tree — a
//! shared types header, a header and a source file per module, and the
//! build file that compiles them.

use vstd::prelude::*;
use crate::text::{dec, hex_lower, push_dec, push_hex_lower, str_eq};

verus! {

/// A field of a recovered structure.
#[derive(Debug, Clone)]
pub struct FieldInfo {
    pub name: Option<String>,
    pub ty_hint: Option<String>,
    pub offset: u64,
    pub size: u64,
}

/// A recovered structure.
#[derive(Debug, Clone)]
pub struct StructInfo {
    pub name: String,
    pub fields: Vec<FieldInfo>,
}

/// A variant of a recovered enumeration.
#[derive(Debug, Clone)]
pub struct VariantInfo {
    pub name: String,
    pub discriminant: i64,
}

/// A recovered enumeration.
#[derive(Debug, Clone)]
pub struct EnumInfo {
    pub name: String,
    pub variants: Vec<VariantInfo>,
}

/// A recovered calling signature.
#[derive(Debug, Clone)]
pub struct SignatureInfo {
    pub return_ty: String,
    pub param_types: Vec<String>,
}

/// A named group of functions: a subsystem or a module.
#[derive(Debug, Clone)]
pub struct GroupInfo {
    pub name: String,
    pub functions: Vec<u64>,
}

/// What layout recovery reads of the workspace and its semantic database.
#[derive(Debug)]
pub struct LayoutInput {
    /// Entry addresses of the workspace's functions.
    pub function_addrs: Vec<u64>,
    pub subsystems: Vec<GroupInfo>,
    pub modules: Vec<GroupInfo>,
    pub structs: Vec<StructInfo>,
    pub enums: Vec<EnumInfo>,
    /// Symbol names by address.
    pub symbols: Vec<(u64, String)>,
    /// The calling signature recorded for each analysed function, if any.
    pub signatures: Vec<(u64, Option<SignatureInfo>)>,
}

/// The role of a file in the reconstructed project.
#[derive(Debug, Clone, Copy, PartialEq, Eq, Structural)]
pub enum FileType {
    Header,
    Source,
    Build,
}

/// A file of the reconstructed project.
#[derive(Debug)]
pub struct FileEntry {
    pub path: String,
    pub file_type: FileType,
    pub content: String,
    pub includes: Vec<String>,
    pub symbol_addresses: Vec<u64>,
}

/// `str::to_uppercase`: the Unicode upper-case mapping of `s`.
pub uninterp spec fn uppercase_of(s: Seq<char>) -> Seq<char>;

/// `str::to_uppercase` on `s`.
#[verifier::external_body]
fn to_uppercase(s: &str) -> (r: String)
    ensures
        r@ == uppercase_of(s@),
{
    s.to_uppercase()
}

pub const COMMON_TYPES_PATH: &'static str = "include/common_types.h";
pub const COMMON_HEAD: &'static str = "#ifndef CANARY_COMMON_TYPES_H\n#define CANARY_COMMON_TYPES_H\n\n#include <stdint.h>\n#include <stdbool.h>\n\ntypedef uint64_t u64;\ntypedef uint32_t u32;\ntypedef uint16_t u16;\ntypedef uint8_t u8;\ntypedef int64_t i64;\ntypedef int32_t i32;\ntypedef int16_t i16;\ntypedef int8_t i8;\ntypedef void* unknown;\ntypedef void* unknown_type;\n#include <emmintrin.h>\ntypedef __m128i uint128_t;\n\n";
pub const COMMON_TAIL: &'static str = "#endif // CANARY_COMMON_TYPES_H\n";
pub const DEFAULT_MODULE: &'static str = "main_module";
pub const CMAKE_PATH: &'static str = "CMakeLists.txt";
pub const CMAKE_HEAD: &'static str = "cmake_minimum_required(VERSION 3.10)\nproject(canary_reconstructed CXX)\n\nset(CMAKE_CXX_STANDARD 17)\n\nadd_executable(reconstructed_app\n";
pub const CMAKE_TAIL: &'static str = ")\n\ntarget_include_directories(reconstructed_app PRIVATE include)\n";

/// Decimal rendering of a signed number.
pub open spec fn signed_dec(x: i64) -> Seq<char> {
    if x < 0 {
        "-"@ + dec((-x) as nat)
    } else {
        dec(x as nat)
    }
}

/// The declaration line of a field.
pub open spec fn field_text(f: FieldInfo) -> Seq<char> {
    let ty = match f.ty_hint {
        Some(t) => t@,
        None => "uint8_t"@,
    };
    let nm = match f.name {
        Some(n) => n@,
        None => "field_unknown"@,
    };
    "    "@ + ty + " "@ + nm + "; // offset 0x"@ + hex_lower(f.offset as nat) + ", size: "@ + dec(
        f.size as nat,
    ) + "\n"@
}

/// The declaration lines of the first `k` fields.
pub open spec fn fields_text(fs: Seq<FieldInfo>, k: int) -> Seq<char>
    decreases k,
{
    if k <= 0 {
        Seq::empty()
    } else {
        fields_text(fs, k - 1) + field_text(fs[k - 1])
    }
}

/// The definition of a structure.
pub open spec fn struct_text(s: StructInfo) -> Seq<char> {
    "struct "@ + s.name@ + " {\n"@ + fields_text(s.fields@, s.fields@.len() as int) + "};\n\n"@
}

/// The definitions of the first `k` structures.
pub open spec fn structs_text(ss: Seq<StructInfo>, k: int) -> Seq<char>
    decreases k,
{
    if k <= 0 {
        Seq::empty()
    } else {
        structs_text(ss, k - 1) + struct_text(ss[k - 1])
    }
}

/// The line of an enumeration variant.
pub open spec fn variant_text(v: VariantInfo) -> Seq<char> {
    "    "@ + v.name@ + " = "@ + signed_dec(v.discriminant) + ",\n"@
}

/// The lines of the first `k` variants.
pub open spec fn variants_text(vs: Seq<VariantInfo>, k: int) -> Seq<char>
    decreases k,
{
    if k <= 0 {
        Seq::empty()
    } else {
        variants_text(vs, k - 1) + variant_text(vs[k - 1])
    }
}

/// The definition of an enumeration.
pub open spec fn enum_text(e: EnumInfo) -> Seq<char> {
    "enum "@ + e.name@ + " {\n"@ + variants_text(e.variants@, e.variants@.len() as int) + "};\n\n"@
}

/// The definitions of the first `k` enumerations.
pub open spec fn enums_text(es: Seq<EnumInfo>, k: int) -> Seq<char>
    decreases k,
{
    if k <= 0 {
        Seq::empty()
    } else {
        enums_text(es, k - 1) + enum_text(es[k - 1])
    }
}

/// The shared types header: fixed-width typedefs, then every structure,
/// then every enumeration.
pub open spec fn common_types_text(input: LayoutInput) -> Seq<char> {
    COMMON_HEAD@ + structs_text(input.structs@, input.structs@.len() as int) + enums_text(
        input.enums@,
        input.enums@.len() as int,
    ) + COMMON_TAIL@
}

/// A group of functions: its name and addresses.
pub type Group = (Seq<char>, Seq<u64>);

/// The index of the first group named `k`.
pub open spec fn group_index(s: Seq<Group>, k: Seq<char>, i: int) -> Option<int>
    decreases s.len() - i,
{
    if i < 0 || i >= s.len() {
        None
    } else if s[i].0 == k {
        Some(i)
    } else {
        group_index(s, k, i + 1)
    }
}

/// `s` with the group `k` set to `v`: in place if present, else appended.
pub open spec fn group_insert(s: Seq<Group>, k: Seq<char>, v: Seq<u64>) -> Seq<Group> {
    match group_index(s, k, 0) {
        Some(i) => s.update(i, (k, v)),
        None => s.push((k, v)),
    }
}

/// The groups named by the first `n` of `gs`, later ones replacing earlier
/// ones of the same name.
pub open spec fn groups_from(gs: Seq<GroupInfo>, n: int) -> Seq<Group>
    decreases n,
{
    if n <= 0 {
        Seq::empty()
    } else {
        group_insert(groups_from(gs, n - 1), gs[n - 1].name@, gs[n - 1].functions@)
    }
}

/// The modules of the project: the subsystems if there are any, else the
/// clustered modules if there are any, else one module of all functions.
pub open spec fn module_groups(input: LayoutInput) -> Seq<Group> {
    if input.subsystems@.len() > 0 {
        groups_from(input.subsystems@, input.subsystems@.len() as int)
    } else if input.modules@.len() > 0 {
        groups_from(input.modules@, input.modules@.len() as int)
    } else {
        seq![(DEFAULT_MODULE@, input.function_addrs@)]
    }
}

/// The symbol name of the first symbol entry at `a`.
pub open spec fn symbol_name(syms: Seq<(u64, String)>, a: u64, i: int) -> Option<Seq<char>>
    decreases syms.len() - i,
{
    if i < 0 || i >= syms.len() {
        None
    } else if syms[i].0 == a {
        Some(syms[i].1@)
    } else {
        symbol_name(syms, a, i + 1)
    }
}

/// The signature entry of the first analysed function at `a`.
pub open spec fn signature_entry(
    sigs: Seq<(u64, Option<SignatureInfo>)>,
    a: u64,
    i: int,
) -> Option<Option<SignatureInfo>>
    decreases sigs.len() - i,
{
    if i < 0 || i >= sigs.len() {
        None
    } else if sigs[i].0 == a {
        Some(sigs[i].1)
    } else {
        signature_entry(sigs, a, i + 1)
    }
}

/// Parameter `i` of a signature: `ty arg_i`.
pub open spec fn param_text(ps: Seq<String>, i: int) -> Seq<char> {
    ps[i]@ + " arg_"@ + dec(i as nat)
}

/// The first `k` parameters, separated by `", "`.
pub open spec fn params_text(ps: Seq<String>, k: int) -> Seq<char>
    decreases k,
{
    if k <= 0 {
        Seq::empty()
    } else if k == 1 {
        param_text(ps, 0)
    } else {
        params_text(ps, k - 1) + ", "@ + param_text(ps, k - 1)
    }
}

/// The forward declaration of the function at `a`: its recorded return
/// type and parameters, or `void` for both; its symbol name, or `sub_`
/// and its address.
pub open spec fn decl_text(input: LayoutInput, a: u64) -> Seq<char> {
    let name = match symbol_name(input.symbols@, a, 0) {
        Some(n) => n,
        None => "sub_"@ + hex_lower(a as nat),
    };
    let (ret, params) = match signature_entry(input.signatures@, a, 0) {
        Some(Some(sig)) => (sig.return_ty@, params_text(sig.param_types@, sig.param_types@.len() as int)),
        _ => ("void"@, "void"@),
    };
    ret + " "@ + name + "("@ + params + ");\n"@
}

/// The declarations of the first `k` functions.
pub open spec fn decls_text(input: LayoutInput, fs: Seq<u64>, k: int) -> Seq<char>
    decreases k,
{
    if k <= 0 {
        Seq::empty()
    } else {
        decls_text(input, fs, k - 1) + decl_text(input, fs[k - 1])
    }
}

/// The include guard of a module's header.
pub open spec fn guard_text(m: Seq<char>) -> Seq<char> {
    "CANARY_"@ + uppercase_of(m) + "_H"@
}

/// A module's header: guarded declarations of its functions.
pub open spec fn header_text(input: LayoutInput, m: Seq<char>, fs: Seq<u64>) -> Seq<char> {
    let guard = guard_text(m);
    "#ifndef "@ + guard + "\n#define "@ + guard + "\n\n"@ + "#include \"common_types.h\"\n\n"@
        + decls_text(input, fs, fs.len() as int) + "\n#endif // "@ + guard + "\n"@
}

/// A module's source file: it includes the module's header.
pub open spec fn source_text(m: Seq<char>) -> Seq<char> {
    "#include \""@ + m + ".h\"\n\n"@
}

/// A file, by its path, type, content, includes and symbols.
pub type FileView = (Seq<char>, FileType, Seq<char>, Seq<Seq<char>>, Seq<u64>);

/// The view of a file entry.
pub open spec fn file_view(f: FileEntry) -> FileView {
    (f.path@, f.file_type, f.content@, f.includes@.map_values(|s: String| s@), f.symbol_addresses@)
}

/// The index of the first file at `path`.
pub open spec fn file_index(s: Seq<FileView>, path: Seq<char>, i: int) -> Option<int>
    decreases s.len() - i,
{
    if i < 0 || i >= s.len() {
        None
    } else if s[i].0 == path {
        Some(i)
    } else {
        file_index(s, path, i + 1)
    }
}

/// `s` with `f` stored at its path: in place if present, else appended.
pub open spec fn file_insert(s: Seq<FileView>, f: FileView) -> Seq<FileView> {
    match file_index(s, f.0, 0) {
        Some(i) => s.update(i, f),
        None => s.push(f),
    }
}

/// The header of module `g`.
pub open spec fn header_file(input: LayoutInput, g: Group) -> FileView {
    (
        "include/"@ + g.0 + ".h"@,
        FileType::Header,
        header_text(input, g.0, g.1),
        seq![COMMON_TYPES_PATH@],
        g.1,
    )
}

/// The source file of module `g`.
pub open spec fn source_file(g: Group) -> FileView {
    ("src/"@ + g.0 + ".cpp"@, FileType::Source, source_text(g.0), seq!["include/"@ + g.0 + ".h"@], g.1)
}

/// The shared types header as a file.
pub open spec fn common_file(input: LayoutInput) -> FileView {
    (COMMON_TYPES_PATH@, FileType::Header, common_types_text(input), Seq::empty(), Seq::empty())
}

/// The files after the shared header and the first `k` modules.
pub open spec fn files_upto(input: LayoutInput, gs: Seq<Group>, k: int) -> Seq<FileView>
    decreases k,
{
    if k <= 0 {
        seq![common_file(input)]
    } else {
        file_insert(
            file_insert(files_upto(input, gs, k - 1), header_file(input, gs[k - 1])),
            source_file(gs[k - 1]),
        )
    }
}

/// The build file's source lines for the first `k` modules.
pub open spec fn cmake_sources(gs: Seq<Group>, k: int) -> Seq<char>
    decreases k,
{
    if k <= 0 {
        Seq::empty()
    } else {
        cmake_sources(gs, k - 1) + "    "@ + ("src/"@ + gs[k - 1].0 + ".cpp"@) + "\n"@
    }
}

/// The build file.
pub open spec fn cmake_file(gs: Seq<Group>) -> FileView {
    (
        CMAKE_PATH@,
        FileType::Build,
        CMAKE_HEAD@ + cmake_sources(gs, gs.len() as int) + CMAKE_TAIL@,
        Seq::empty(),
        Seq::empty(),
    )
}

/// The files of the recovered project, in order.
pub open spec fn layout_files(input: LayoutInput) -> Seq<FileView> {
    let gs = module_groups(input);
    file_insert(files_upto(input, gs, gs.len() as int), cmake_file(gs))
}

/// Appends `x` in signed decimal.
fn push_signed_dec(s: &mut String, x: i64)
    ensures
        final(s)@ == old(s)@ + signed_dec(x),
{
    if x < 0 {
        s.append("-");
        let m: u64 = (0i128 - x as i128) as u64;
        push_dec(s, m);
        proof {
            assert(m as nat == (-x) as nat);
            assert(old(s)@ + "-"@ + dec(m as nat) == old(s)@ + ("-"@ + dec(m as nat)));
        }
    } else {
        push_dec(s, x as u64);
    }
}

/// Appends the declaration line of a field.
fn push_field(c: &mut String, f: &FieldInfo)
    ensures
        final(c)@ == old(c)@ + field_text(*f),
{
    let ghost o = c@;
    c.append("    ");
    let ghost a = c@;
    match &f.ty_hint {
        Some(t) => c.append(t.as_str()),
        None => c.append("uint8_t"),
    }
    let ghost ty = match &f.ty_hint {
        Some(t) => t@,
        None => "uint8_t"@,
    };
    assert(c@ == a + ty);
    c.append(" ");
    let ghost b = c@;
    match &f.name {
        Some(n) => c.append(n.as_str()),
        None => c.append("field_unknown"),
    }
    let ghost nm = match &f.name {
        Some(n) => n@,
        None => "field_unknown"@,
    };
    assert(c@ == b + nm);
    c.append("; // offset 0x");
    push_hex_lower(c, f.offset);
    c.append(", size: ");
    push_dec(c, f.size);
    c.append("\n");
    assert(c@ == o + field_text(*f));
}

/// The shared types header.
fn common_types_string(input: &LayoutInput) -> (r: String)
    ensures
        r@ == common_types_text(*input),
{
    let mut c = String::new();
    c.append(COMMON_HEAD);
    let ghost head = c@;
    for k in 0..input.structs.len()
        invariant
            c@ == head + structs_text(input.structs@, k as int),
    {
        let st = &input.structs[k];
        let ghost before = c@;
        c.append("struct ");
        c.append(st.name.as_str());
        c.append(" {\n");
        let ghost fstart = c@;
        for j in 0..st.fields.len()
            invariant
                c@ == fstart + fields_text(st.fields@, j as int),
        {
            push_field(&mut c, &st.fields[j]);
        }
        c.append("};\n\n");
        proof {
            assert(c@ == before + struct_text(input.structs@[k as int]));
        }
    }
    let ghost mid = c@;
    for k in 0..input.enums.len()
        invariant
            c@ == mid + enums_text(input.enums@, k as int),
    {
        let en = &input.enums[k];
        let ghost before = c@;
        c.append("enum ");
        c.append(en.name.as_str());
        c.append(" {\n");
        let ghost vstart = c@;
        for j in 0..en.variants.len()
            invariant
                c@ == vstart + variants_text(en.variants@, j as int),
        {
            let v = &en.variants[j];
            let ghost vb = c@;
            c.append("    ");
            c.append(v.name.as_str());
            c.append(" = ");
            push_signed_dec(&mut c, v.discriminant);
            c.append(",\n");
            proof {
                assert(c@ == vb + variant_text(en.variants@[j as int]));
            }
        }
        c.append("};\n\n");
        proof {
            assert(c@ == before + enum_text(input.enums@[k as int]));
        }
    }
    c.append(COMMON_TAIL);
    c
}

/// The groups, by name and functions.
pub open spec fn group_views(gs: Seq<GroupInfo>) -> Seq<Group> {
    gs.map_values(|g: GroupInfo| (g.name@, g.functions@))
}

/// A copy of a list of addresses.
fn copy_addrs(v: &Vec<u64>) -> (r: Vec<u64>)
    ensures
        r@ == v@,
{
    let mut r: Vec<u64> = Vec::new();
    for i in 0..v.len()
        invariant
            r@ == v@.take(i as int),
    {
        r.push(v[i]);
        assert(v@.take(i + 1) == v@.take(i as int).push(v@[i as int]));
    }
    assert(v@.take(v@.len() as int) == v@);
    r
}

/// A copy of a group.
fn copy_group(g: &GroupInfo) -> (r: GroupInfo)
    ensures
        r.name@ == g.name@,
        r.functions@ == g.functions@,
{
    GroupInfo { name: g.name.clone(), functions: copy_addrs(&g.functions) }
}

/// Stores `g` under its name: in place if a group of that name exists,
/// else at the end.
fn insert_group(gs: &mut Vec<GroupInfo>, g: GroupInfo)
    ensures
        group_views(final(gs)@) == group_insert(group_views(old(gs)@), g.name@, g.functions@),
{
    let ghost vs = group_views(gs@);
    let mut i: usize = 0;
    while i < gs.len()
        invariant
            gs@ == old(gs)@,
            vs == group_views(gs@),
            i <= gs@.len(),
            group_index(vs, g.name@, 0) == group_index(vs, g.name@, i as int),
        decreases gs@.len() - i,
    {
        if str_eq(gs[i].name.as_str(), g.name.as_str()) {
            let ghost gv = (g.name@, g.functions@);
            proof {
                assert(vs[i as int].0 == g.name@);
                assert(group_index(vs, g.name@, i as int) == Some(i as int));
            }
            let ghost k = g.name@;
            let ghost v = g.functions@;
            gs.set(i, g);
            proof {
                assert(group_views(gs@) == vs.update(i as int, gv));
                assert(group_insert(vs, k, v) == vs.update(i as int, (k, v)));
                assert(gv == (k, v));
            }
            return;
        }
        i += 1;
    }
    let ghost gv = (g.name@, g.functions@);
    gs.push(g);
    proof {
        assert(group_views(gs@) == vs.push(gv));
    }
}

/// The groups named by `gs`, later ones replacing earlier ones of the
/// same name.
fn groups_from_exec(gs: &Vec<GroupInfo>) -> (r: Vec<GroupInfo>)
    ensures
        group_views(r@) == groups_from(gs@, gs@.len() as int),
{
    let mut r: Vec<GroupInfo> = Vec::new();
    proof {
        assert(group_views(r@) == Seq::<Group>::empty());
    }
    for k in 0..gs.len()
        invariant
            group_views(r@) == groups_from(gs@, k as int),
    {
        insert_group(&mut r, copy_group(&gs[k]));
    }
    r
}

/// The modules of the project.
fn module_groups_exec(input: &LayoutInput) -> (r: Vec<GroupInfo>)
    ensures
        group_views(r@) == module_groups(*input),
{
    if input.subsystems.len() > 0 {
        groups_from_exec(&input.subsystems)
    } else if input.modules.len() > 0 {
        groups_from_exec(&input.modules)
    } else {
        let mut r: Vec<GroupInfo> = Vec::new();
        let mut name = String::new();
        name.append(DEFAULT_MODULE);
        r.push(GroupInfo { name, functions: copy_addrs(&input.function_addrs) });
        proof {
            assert(group_views(r@) == seq![(DEFAULT_MODULE@, input.function_addrs@)]);
        }
        r
    }
}

/// The name of the first symbol entry at `a`.
fn symbol_name_exec(syms: &Vec<(u64, String)>, a: u64) -> (r: Option<&String>)
    ensures
        match r {
            Some(n) => symbol_name(syms@, a, 0) == Some(n@),
            None => symbol_name(syms@, a, 0) is None,
        },
{
    let mut i: usize = 0;
    while i < syms.len()
        invariant
            i <= syms@.len(),
            symbol_name(syms@, a, 0) == symbol_name(syms@, a, i as int),
        decreases syms@.len() - i,
    {
        if syms[i].0 == a {
            return Some(&syms[i].1);
        }
        i += 1;
    }
    None
}

/// The signature entry of the first analysed function at `a`.
fn signature_entry_exec(sigs: &Vec<(u64, Option<SignatureInfo>)>, a: u64) -> (r: Option<&Option<SignatureInfo>>)
    ensures
        match r {
            Some(e) => signature_entry(sigs@, a, 0) == Some(*e),
            None => signature_entry(sigs@, a, 0) is None,
        },
{
    let mut i: usize = 0;
    while i < sigs.len()
        invariant
            i <= sigs@.len(),
            signature_entry(sigs@, a, 0) == signature_entry(sigs@, a, i as int),
        decreases sigs@.len() - i,
    {
        if sigs[i].0 == a {
            return Some(&sigs[i].1);
        }
        i += 1;
    }
    None
}

/// Appends the parameters of a signature.
fn push_params(c: &mut String, ps: &Vec<String>)
    ensures
        final(c)@ == old(c)@ + params_text(ps@, ps@.len() as int),
{
    let ghost o = c@;
    for i in 0..ps.len()
        invariant
            c@ == o + params_text(ps@, i as int),
    {
        let ghost b = c@;
        if i > 0 {
            c.append(", ");
        }
        c.append(ps[i].as_str());
        c.append(" arg_");
        push_dec(c, i as u64);
        proof {
            if i == 0 {
                assert(params_text(ps@, 0) == Seq::<char>::empty());
                assert(c@ == o + param_text(ps@, 0));
            } else {
                assert(c@ == b + ", "@ + param_text(ps@, i as int));
            }
        }
    }
}

/// Appends the forward declaration of the function at `a`.
fn push_decl(c: &mut String, input: &LayoutInput, a: u64)
    ensures
        final(c)@ == old(c)@ + decl_text(*input, a),
{
    let ghost o = c@;
    match signature_entry_exec(&input.signatures, a) {
        Some(Some(sig)) => c.append(sig.return_ty.as_str()),
        _ => c.append("void"),
    }
    c.append(" ");
    match symbol_name_exec(&input.symbols, a) {
        Some(n) => c.append(n.as_str()),
        None => {
            c.append("sub_");
            push_hex_lower(c, a);
        },
    }
    c.append("(");
    match signature_entry_exec(&input.signatures, a) {
        Some(Some(sig)) => push_params(c, &sig.param_types),
        _ => c.append("void"),
    }
    c.append(");\n");
}

/// A module's header.
fn header_string(input: &LayoutInput, m: &String, fs: &Vec<u64>) -> (r: String)
    ensures
        r@ == header_text(*input, m@, fs@),
{
    let upper = to_uppercase(m.as_str());
    let mut guard = String::new();
    guard.append("CANARY_");
    guard.append(upper.as_str());
    guard.append("_H");
    let mut h = String::new();
    h.append("#ifndef ");
    h.append(guard.as_str());
    h.append("\n#define ");
    h.append(guard.as_str());
    h.append("\n\n");
    h.append("#include \"common_types.h\"\n\n");
    let ghost d0 = h@;
    for k in 0..fs.len()
        invariant
            h@ == d0 + decls_text(*input, fs@, k as int),
    {
        push_decl(&mut h, input, fs[k]);
    }
    h.append("\n#endif // ");
    h.append(guard.as_str());
    h.append("\n");
    h
}

/// The views of `fs`, in order.
pub open spec fn file_views(fs: Seq<FileEntry>) -> Seq<FileView> {
    fs.map_values(|f: FileEntry| file_view(f))
}

/// Stores `f` at its path: in place if a file there exists, else at the end.
fn insert_file(files: &mut Vec<FileEntry>, f: FileEntry)
    ensures
        file_views(final(files)@) == file_insert(file_views(old(files)@), file_view(f)),
{
    let ghost vs = file_views(files@);
    let ghost fv = file_view(f);
    let mut i: usize = 0;
    while i < files.len()
        invariant
            files@ == old(files)@,
            vs == file_views(files@),
            fv == file_view(f),
            i <= files@.len(),
            file_index(vs, fv.0, 0) == file_index(vs, fv.0, i as int),
        decreases files@.len() - i,
    {
        if str_eq(files[i].path.as_str(), f.path.as_str()) {
            proof {
                assert(vs[i as int].0 == fv.0);
                assert(file_index(vs, fv.0, i as int) == Some(i as int));
            }
            files.set(i, f);
            proof {
                assert(file_views(files@) == vs.update(i as int, fv));
            }
            return;
        }
        i += 1;
    }
    files.push(f);
    proof {
        assert(file_views(files@) == vs.push(fv));
    }
}

/// A string holding `a`, `b` and `c` in turn.
fn concat3(a: &str, b: &str, c: &str) -> (r: String)
    ensures
        r@ == a@ + b@ + c@,
{
    let mut r = String::new();
    r.append(a);
    r.append(b);
    r.append(c);
    r
}

/// Recovers the layout of the reconstructed project: the shared types
/// header `include/common_types.h`; for each module (the subsystems, else
/// the clustered modules, else one module of all functions) a header
/// declaring its functions and a source file including it; and
/// `CMakeLists.txt` compiling the sources. A file is stored at its path, a
/// later file replacing an earlier one at the same path in place.
pub fn recover_project_layout(input: &LayoutInput) -> (files: Vec<FileEntry>)
    ensures
        file_views(files@) == layout_files(*input),
{
    let groups = module_groups_exec(input);
    let ghost gs = group_views(groups@);
    let mut files: Vec<FileEntry> = Vec::new();
    let mut common_path = String::new();
    common_path.append(COMMON_TYPES_PATH);
    let common = FileEntry {
        path: common_path,
        file_type: FileType::Header,
        content: common_types_string(input),
        includes: Vec::new(),
        symbol_addresses: Vec::new(),
    };
    files.push(common);
    proof {
        assert(file_view(files@[0]).3 == Seq::<Seq<char>>::empty());
        assert(file_views(files@) == seq![common_file(*input)]);
    }
    let mut cmake = String::new();
    cmake.append(CMAKE_HEAD);
    let ghost ch = cmake@;
    for k in 0..groups.len()
        invariant
            gs == group_views(groups@),
            gs == module_groups(*input),
            file_views(files@) == files_upto(*input, gs, k as int),
            cmake@ == ch + cmake_sources(gs, k as int),
    {
        let g = &groups[k];
        let header_path = concat3("include/", g.name.as_str(), ".h");
        let source_path = concat3("src/", g.name.as_str(), ".cpp");
        let ghost cb = cmake@;
        cmake.append("    ");
        cmake.append(source_path.as_str());
        cmake.append("\n");
        proof {
            assert(cmake@ == cb + "    "@ + ("src/"@ + gs[k as int].0 + ".cpp"@) + "\n"@);
        }
        let mut header_includes: Vec<String> = Vec::new();
        let mut common_include = String::new();
        common_include.append(COMMON_TYPES_PATH);
        header_includes.push(common_include);
        let header = FileEntry {
            path: header_path,
            file_type: FileType::Header,
            content: header_string(input, &g.name, &g.functions),
            includes: header_includes,
            symbol_addresses: copy_addrs(&g.functions),
        };
        proof {
            assert(file_view(header) == header_file(*input, gs[k as int]));
        }
        insert_file(&mut files, header);
        let mut source_content = String::new();
        source_content.append("#include \"");
        source_content.append(g.name.as_str());
        source_content.append(".h\"\n\n");
        let mut source_includes: Vec<String> = Vec::new();
        source_includes.push(concat3("include/", g.name.as_str(), ".h"));
        let source = FileEntry {
            path: source_path,
            file_type: FileType::Source,
            content: source_content,
            includes: source_includes,
            symbol_addresses: copy_addrs(&g.functions),
        };
        proof {
            assert(file_view(source) == source_file(gs[k as int]));
        }
        insert_file(&mut files, source);
    }
    cmake.append(CMAKE_TAIL);
    let mut cmake_path = String::new();
    cmake_path.append(CMAKE_PATH);
    let build = FileEntry {
        path: cmake_path,
        file_type: FileType::Build,
        content: cmake,
        includes: Vec::new(),
        symbol_addresses: Vec::new(),
    };
    proof {
        assert(file_view(build) == cmake_file(gs));
    }
    insert_file(&mut files, build);
    files
}

} // verus!
