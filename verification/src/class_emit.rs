//! Class emission: the recovered structures as a C++ header, classes for
//! those with vtable evidence and plain structures for the rest.

use vstd::prelude::*;
use crate::project_layout::{FieldInfo, FileEntry, FileType};
use crate::text::{hex_lower, push_hex_lower, str_eq};

verus! {

/// A recovered structure as class emission reads it: its name, its fields,
/// and whether its provenance holds vtable evidence.
#[derive(Debug, Clone)]
pub struct RecoveredStruct {
    pub name: String,
    pub fields: Vec<FieldInfo>,
    pub has_vtable_evidence: bool,
}

/// The declaration line of a member.
pub open spec fn member_text(f: FieldInfo) -> Seq<char> {
    let ty = match f.ty_hint {
        Some(t) => t@,
        None => "uint8_t"@,
    };
    let nm = match f.name {
        Some(n) => n@,
        None => "field_unknown"@,
    };
    "    "@ + ty + " "@ + nm + "; // offset 0x"@ + hex_lower(f.offset as nat) + "\n"@
}

/// The declaration lines of the first `k` members.
pub open spec fn members_text(fs: Seq<FieldInfo>, k: int) -> Seq<char>
    decreases k,
{
    if k <= 0 {
        Seq::empty()
    } else {
        members_text(fs, k - 1) + member_text(fs[k - 1])
    }
}

/// The definition of a structure: a class with a virtual destructor when
/// it has vtable evidence, a plain structure otherwise.
pub open spec fn class_text(s: RecoveredStruct) -> Seq<char> {
    let head = if s.has_vtable_evidence {
        "class "@ + s.name@ + " {\npublic:\n    virtual ~"@ + s.name@ + "() = default;\n\n"@
    } else {
        "struct "@ + s.name@ + " {\n"@
    };
    head + members_text(s.fields@, s.fields@.len() as int) + "};\n\n"@
}

/// The definitions of the first `k` structures.
pub open spec fn classes_text(ss: Seq<RecoveredStruct>, k: int) -> Seq<char>
    decreases k,
{
    if k <= 0 {
        Seq::empty()
    } else {
        classes_text(ss, k - 1) + class_text(ss[k - 1])
    }
}

/// The recovered classes header.
pub open spec fn classes_header(ss: Seq<RecoveredStruct>) -> Seq<char> {
    "#ifndef CANARY_RECOVERED_CLASSES_H\n#define CANARY_RECOVERED_CLASSES_H\n\n#include \"common_types.h\"\n\n"@
        + classes_text(ss, ss.len() as int) + "#endif // CANARY_RECOVERED_CLASSES_H\n"@
}

/// Where the header goes.
pub open spec fn classes_header_path() -> Seq<char> {
    "include/recovered_classes.h"@
}

/// The first file from `i` on at `path`.
pub open spec fn file_position(files: Seq<FileEntry>, path: Seq<char>, i: int) -> Option<int>
    decreases files.len() - i,
{
    if i < 0 || i >= files.len() {
        None
    } else if files[i].path@ == path {
        Some(i)
    } else {
        file_position(files, path, i + 1)
    }
}

/// The header file as a layout entry.
pub open spec fn is_classes_header_entry(f: FileEntry, ss: Seq<RecoveredStruct>) -> bool {
    &&& f.path@ == classes_header_path()
    &&& f.file_type == FileType::Header
    &&& f.content@ == classes_header(ss)
    &&& f.includes@.len() == 1
    &&& f.includes@[0]@ == "include/common_types.h"@
    &&& f.symbol_addresses@.len() == 0
}

/// The first file at `path`.
fn find_file(files: &Vec<FileEntry>, path: &str) -> (r: Option<usize>)
    ensures
        match r {
            Some(i) => i < files@.len() && file_position(files@, path@, 0) == Some(i as int),
            None => file_position(files@, path@, 0) is None,
        },
{
    let mut i: usize = 0;
    while i < files.len()
        invariant
            i <= files@.len(),
            file_position(files@, path@, 0) == file_position(files@, path@, i as int),
        decreases files@.len() - i,
    {
        if str_eq(files[i].path.as_str(), path) {
            return Some(i);
        }
        i += 1;
    }
    None
}

/// The recovered classes header for `structs`.
pub fn recovered_classes_header(structs: &Vec<RecoveredStruct>) -> (r: String)
    ensures
        r@ == classes_header(structs@),
{
    let mut out = String::new();
    out.append("#ifndef CANARY_RECOVERED_CLASSES_H\n#define CANARY_RECOVERED_CLASSES_H\n\n#include \"common_types.h\"\n\n");
    let ghost head = out@;
    for k in 0..structs.len()
        invariant
            out@ == head + classes_text(structs@, k as int),
    {
        let s = &structs[k];
        let ghost before = out@;
        if s.has_vtable_evidence {
            out.append("class ");
            out.append(s.name.as_str());
            out.append(" {\npublic:\n    virtual ~");
            out.append(s.name.as_str());
            out.append("() = default;\n\n");
        } else {
            out.append("struct ");
            out.append(s.name.as_str());
            out.append(" {\n");
        }
        let ghost after_head = out@;
        for j in 0..s.fields.len()
            invariant
                out@ == after_head + members_text(s.fields@, j as int),
        {
            let f = &s.fields[j];
            let ghost b = out@;
            out.append("    ");
            match &f.ty_hint {
                Some(t) => out.append(t.as_str()),
                None => out.append("uint8_t"),
            }
            out.append(" ");
            match &f.name {
                Some(n) => out.append(n.as_str()),
                None => out.append("field_unknown"),
            }
            out.append("; // offset 0x");
            push_hex_lower(&mut out, f.offset);
            out.append("\n");
            proof {
                assert(out@ =~= b + member_text(s.fields@[j as int]));
            }
        }
        out.append("};\n\n");
        proof {
            assert(out@ =~= before + class_text(structs@[k as int]));
        }
    }
    out.append("#endif // CANARY_RECOVERED_CLASSES_H\n");
    out
}

/// Writes the recovered classes header into the project layout, when there
/// is one: it replaces the file at its path, or is appended.
pub fn emit_classes(structs: &Vec<RecoveredStruct>, layout: &mut Option<Vec<FileEntry>>)
    ensures
        match *old(layout) {
            None => *final(layout) is None,
            Some(files) => *final(layout) matches Some(out) && match file_position(files@, classes_header_path(), 0) {
                Some(i) => out@.len() == files@.len() && is_classes_header_entry(out@[i], structs@) && forall|q: int|
                    0 <= q < files@.len() && q != i ==> #[trigger] out@[q] == files@[q],
                None => out@.len() == files@.len() + 1 && is_classes_header_entry(out@[files@.len() as int], structs@)
                    && forall|q: int| 0 <= q < files@.len() ==> #[trigger] out@[q] == files@[q],
            },
        },
{
    let content = recovered_classes_header(structs);
    match layout {
        Some(files) => {
            let mut path = String::new();
            path.append("include/recovered_classes.h");
            let mut common_types = String::new();
            common_types.append("include/common_types.h");
            let mut includes: Vec<String> = Vec::new();
            includes.push(common_types);
            let entry = FileEntry {
                path,
                file_type: FileType::Header,
                content,
                includes,
                symbol_addresses: Vec::new(),
            };
            match find_file(files, "include/recovered_classes.h") {
                Some(i) => {
                    files.set(i, entry);
                },
                None => {
                    files.push(entry);
                },
            }
        },
        None => {},
    }
}

} // verus!
