//! The discovery stage of C++ type recovery: vtables, their run-time type
//! names, the constructors that install them, inheritance between them and
//! their virtual methods, recovered in that order from a clean slate.

use vstd::prelude::*;
use crate::cfg::LiftedFunction;
use crate::image::LoadedImage;
use crate::inheritance::{detect_inheritance, edge_record, edges_upto, inheritances_view, with_base_links};
use crate::methods::{methods_upto, recover_methods};
use crate::recovered_types::{vtables_view, SdbImport, TypeTables, VtableView};
use crate::rtti::{recover_rtti, rtti_fits, rtti_named};
use crate::vtables::{
    assign_vtables, ctor_method_of, ctor_stores, detect_vtables, detected_upto, is_named, label_vtables, new_vtable,
    scannable, CtorStore,
};

verus! {

/// Clears the type tables and runs the discovery heuristics in order:
/// vtable detection, run-time type names, constructor assignment (which
/// drops the vtables no constructor installs and no type information
/// names), inheritance, and virtual methods.
pub fn run_discovery(
    types: &mut TypeTables,
    functions: &Vec<LiftedFunction>,
    img: &LoadedImage,
    imports: &Vec<SdbImport>,
)
    requires
        scannable(img.sections@),
        rtti_fits(*img),
    ensures
        ({
            let size = if img.arch_name@ == "x86"@ { 4int } else { 8int };
            let found = detected_upto(img.sections@, size, img.sections@.len() as int).map_values(
                |e: (u64, Seq<u64>)| new_vtable(e),
            );
            let named = found.map_values(|v: VtableView| rtti_named(*img, v));
            let stores = ctor_stores(named, functions@, functions@.len() as int);
            let kept = label_vtables(named, stores).filter(|v: VtableView| is_named(v));
            let edges = edges_upto(kept, kept.len() as int);
            let linked = with_base_links(kept, edges);
            &&& vtables_view(final(types).vtables@) == linked
            &&& final(types).methods@ == stores.map_values(|st: CtorStore| ctor_method_of(st)) + methods_upto(
                linked,
                functions@,
                imports@,
                linked.len() as int,
            )
            &&& inheritances_view(final(types).inheritance@) == edges.map_values(|e: (u64, u64)| edge_record(e))
            &&& final(types).classes@.len() == 0
        }),
{
    types.vtables.clear();
    types.methods.clear();
    types.inheritance.clear();
    types.classes.clear();
    proof {
        assert(vtables_view(types.vtables@) =~= Seq::<VtableView>::empty());
        assert(inheritances_view(types.inheritance@) =~= Seq::<(u64, Seq<u64>)>::empty());
    }
    detect_vtables(types, img);
    proof {
        let size = if img.arch_name@ == "x86"@ { 4int } else { 8int };
        let found = detected_upto(img.sections@, size, img.sections@.len() as int).map_values(
            |e: (u64, Seq<u64>)| new_vtable(e),
        );
        assert(vtables_view(types.vtables@) =~= found);
    }
    recover_rtti(types, img);
    let ghost named = vtables_view(types.vtables@);
    assign_vtables(types, functions);
    proof {
        let stores = ctor_stores(named, functions@, functions@.len() as int);
        assert(types.methods@ =~= stores.map_values(|st: CtorStore| ctor_method_of(st)));
    }
    let ghost kept = vtables_view(types.vtables@);
    detect_inheritance(types);
    proof {
        let edges = edges_upto(kept, kept.len() as int);
        assert(inheritances_view(types.inheritance@) =~= edges.map_values(|e: (u64, u64)| edge_record(e)));
    }
    recover_methods(types, functions, imports);
}

} // verus!
