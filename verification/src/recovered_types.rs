//! Recovered tables of the semantic database: the C++ type tables
//! (vtables, methods, inheritance edges, classes), imports, and the
//! function records with their outgoing cross-references.

use vstd::prelude::*;
use crate::diff::names;

verus! {

/// A recovered vtable.
#[derive(Debug, Clone)]
pub struct SdbVtable {
    pub addr: u64,
    pub entries: Vec<u64>,
    pub class_name: Option<String>,
    pub base_vtable: Option<u64>,
}

/// A recovered method.
#[derive(Debug, Clone, Copy, PartialEq, Eq)]
pub struct SdbMethod {
    pub fn_addr: u64,
    pub class_vtable: u64,
    pub is_virtual: bool,
    pub slot: Option<usize>,
    pub is_ctor: bool,
    pub is_dtor: bool,
}

/// A recovered class.
#[derive(Debug, Clone)]
pub struct SdbClass {
    pub name: String,
    pub vtables: Vec<u64>,
    pub methods: Vec<SdbMethod>,
    pub bases: Vec<String>,
}

/// An inheritance edge between vtables: a derived vtable and its bases.
#[derive(Debug, Clone)]
pub struct SdbInheritance {
    pub derived_vtable: u64,
    pub base_vtables: Vec<u64>,
}

/// An imported symbol: its library, its name and the address it is
/// called through.
#[derive(Debug, Clone)]
pub struct SdbImport {
    pub lib_name: String,
    pub symbol_name: String,
    pub address: u64,
}

/// The kind of a cross-reference out of a function.
#[derive(Debug, Clone, Copy, PartialEq, Eq, Structural)]
pub enum XrefKind {
    Call,
    TailCall,
    Goto,
    Read,
}

/// A cross-reference out of a function.
#[derive(Debug, Clone, Copy, PartialEq, Eq)]
pub struct SdbXref {
    pub from_addr: u64,
    pub to_addr: u64,
    pub xref_kind: XrefKind,
}

/// A parameter of a calling signature.
#[derive(Debug, Clone)]
pub struct SdbParam {
    pub name: Option<String>,
    pub ty: String,
    pub location: String,
}

/// A recovered calling signature.
#[derive(Debug, Clone)]
pub struct SdbCallSignature {
    pub return_ty: String,
    pub params: Vec<SdbParam>,
    pub calling_conv: String,
    pub is_variadic: bool,
    pub noreturn: bool,
}

/// A parameter by its name, type and location.
pub type ParamView = (Option<Seq<char>>, Seq<char>, Seq<char>);

/// The view of a parameter.
pub open spec fn param_view(p: SdbParam) -> ParamView {
    (
        match p.name {
            Some(n) => Some(n@),
            None => None,
        },
        p.ty@,
        p.location@,
    )
}

/// A signature by its return type, parameters, convention and flags.
pub type SigView = (Seq<char>, Seq<ParamView>, Seq<char>, bool, bool);

/// The view of a signature.
pub open spec fn sig_view(s: SdbCallSignature) -> SigView {
    (
        s.return_ty@,
        s.params@.map_values(|p: SdbParam| param_view(p)),
        s.calling_conv@,
        s.is_variadic,
        s.noreturn,
    )
}

/// What the semantic analyses read of a function record: its name, when
/// known, its outgoing cross-references and its calling signature.
#[derive(Debug, Clone)]
pub struct SdbFunction {
    pub name: Option<String>,
    pub xrefs_out: Vec<SdbXref>,
    pub call_signature: Option<SdbCallSignature>,
}

/// A function record by its name, cross-references and signature.
pub type FunctionView = (Option<Seq<char>>, Seq<SdbXref>, Option<SigView>);

/// The view of a function record.
pub open spec fn function_view(f: SdbFunction) -> FunctionView {
    (
        match f.name {
            Some(n) => Some(n@),
            None => None,
        },
        f.xrefs_out@,
        match f.call_signature {
            Some(s) => Some(sig_view(s)),
            None => None,
        },
    )
}

/// The recovered type tables of the semantic database.
#[derive(Debug)]
pub struct TypeTables {
    pub vtables: Vec<SdbVtable>,
    pub methods: Vec<SdbMethod>,
    pub inheritance: Vec<SdbInheritance>,
    pub classes: Vec<SdbClass>,
}

/// A class by its name, vtables, methods and base names.
pub type ClassView = (Seq<char>, Seq<u64>, Seq<SdbMethod>, Seq<Seq<char>>);

/// The view of a class.
pub open spec fn class_view(c: SdbClass) -> ClassView {
    (c.name@, c.vtables@, c.methods@, names(c.bases@))
}

/// The views of a list of classes.
pub open spec fn classes_view(cs: Seq<SdbClass>) -> Seq<ClassView> {
    cs.map_values(|c: SdbClass| class_view(c))
}

/// A vtable by its address, entries, class name and base vtable.
pub type VtableView = (u64, Seq<u64>, Option<Seq<char>>, Option<u64>);

/// The view of a vtable.
pub open spec fn vtable_view(v: SdbVtable) -> VtableView {
    (
        v.addr,
        v.entries@,
        match v.class_name {
            Some(n) => Some(n@),
            None => None,
        },
        v.base_vtable,
    )
}

/// The views of a list of vtables.
pub open spec fn vtables_view(vs: Seq<SdbVtable>) -> Seq<VtableView> {
    vs.map_values(|v: SdbVtable| vtable_view(v))
}

/// `bases` with `n` appended unless it is there already.
pub open spec fn add_base(bases: Seq<Seq<char>>, n: Seq<char>) -> Seq<Seq<char>> {
    if bases.contains(n) {
        bases
    } else {
        bases.push(n)
    }
}

/// An inheritance edge by its derived vtable and base vtables.
pub open spec fn inheritance_view(e: SdbInheritance) -> (u64, Seq<u64>) {
    (e.derived_vtable, e.base_vtables@)
}

} // verus!
