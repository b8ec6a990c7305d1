//! Object lifetime events: classifying API calls that allocate, free or
//! initialise objects.

use vstd::prelude::*;
use indexmap::IndexMap;
use crate::api_tracking::{api_key, api_key_chars, call_name, chars_eq, resolve_call_name};
use crate::collections::{
    assoc_insert, function_table_items, function_table_xrefs, lifetime_map_insert, lifetime_map_items,
    lifetime_map_new,
};
use crate::recovered_types::{FunctionView, SdbFunction, SdbImport, SdbXref, XrefKind};
use crate::text::{hex_lower, push_hex_lower};

verus! {

/// The kind of an object lifetime event.
#[derive(Debug, Clone, Copy, PartialEq, Eq, Structural)]
pub enum EventType {
    Allocation,
    Deallocation,
    Initialization,
}

/// The lifetime event a call to the API called `name` stands for.
pub open spec fn lifetime_event(name: Seq<char>) -> Option<EventType> {
    let k = api_key(name);
    if k == "malloc"@ || k == "calloc"@ || k == "realloc"@ || k == "operator new"@ || k
        == "operator new[]"@ {
        Some(EventType::Allocation)
    } else if k == "free"@ || k == "operator delete"@ || k == "operator delete[]"@ {
        Some(EventType::Deallocation)
    } else if k == "initializecriticalsection"@ || k == "initonceinitialize"@ {
        Some(EventType::Initialization)
    } else {
        None
    }
}

/// Classifies an API by name, ignoring leading underscores and ASCII case:
/// allocators, deallocators and initialisers; `None` for anything else.
pub fn classify_lifetime_api(name: &str) -> (r: Option<EventType>)
    ensures
        r == lifetime_event(name@),
{
    let key = api_key_chars(name);
    if chars_eq(&key, "malloc") || chars_eq(&key, "calloc") || chars_eq(&key, "realloc")
        || chars_eq(&key, "operator new") || chars_eq(&key, "operator new[]") {
        Some(EventType::Allocation)
    } else if chars_eq(&key, "free") || chars_eq(&key, "operator delete") || chars_eq(
        &key,
        "operator delete[]",
    ) {
        Some(EventType::Deallocation)
    } else if chars_eq(&key, "initializecriticalsection") || chars_eq(&key, "initonceinitialize") {
        Some(EventType::Initialization)
    } else {
        None
    }
}

/// A lifetime event at a call site.
#[derive(Debug, Clone, Copy, PartialEq, Eq)]
pub struct LifetimeEvent {
    pub address: u64,
    pub event_type: EventType,
}

/// The lifetime of an object: its identifier and its events in order.
#[derive(Debug, Clone)]
pub struct ObjectLifetime {
    pub object_id: String,
    pub events: Vec<LifetimeEvent>,
}

/// A lifetime by its identifier and events.
pub type LifetimeView = (Seq<char>, Seq<LifetimeEvent>);

/// The view of a lifetime.
pub open spec fn lifetime_view(o: ObjectLifetime) -> LifetimeView {
    (o.object_id@, o.events@)
}

/// The identifier of the object a function at `a` manages.
pub open spec fn object_label(a: u64) -> Seq<char> {
    "obj_"@ + hex_lower(a as nat)
}

/// The lifetime events among the first `k` cross-references `xs`: each
/// call whose target resolves to a lifetime API, at its call site.
pub open spec fn call_events(imports: Seq<SdbImport>, funcs: Seq<(u64, FunctionView)>, xs: Seq<SdbXref>, k: int) -> Seq<
    LifetimeEvent,
>
    decreases k,
{
    if k <= 0 {
        Seq::empty()
    } else {
        let prev = call_events(imports, funcs, xs, k - 1);
        let x = xs[k - 1];
        if x.xref_kind == XrefKind::Call {
            match call_name(imports, funcs, x.to_addr) {
                Some(n) => match lifetime_event(n) {
                    Some(t) => prev.push(LifetimeEvent { address: x.from_addr, event_type: t }),
                    None => prev,
                },
                None => prev,
            }
        } else {
            prev
        }
    }
}

/// The lifetimes of the first `k` functions: one for each function with
/// lifetime events.
pub open spec fn lifetimes_upto(imports: Seq<SdbImport>, funcs: Seq<(u64, FunctionView)>, k: int) -> Seq<
    (Seq<char>, LifetimeView),
>
    decreases k,
{
    if k <= 0 {
        Seq::empty()
    } else {
        let prev = lifetimes_upto(imports, funcs, k - 1);
        let xs = funcs[k - 1].1.1;
        let evs = call_events(imports, funcs, xs, xs.len() as int);
        if evs.len() > 0 {
            let id = object_label(funcs[k - 1].0);
            assoc_insert(prev, id, (id, evs))
        } else {
            prev
        }
    }
}

/// Builds the object lifetimes: for each function whose calls resolve to
/// allocation, deallocation or initialisation APIs, an object named after
/// the function with those events in order.
pub fn analyze_lifetimes(functions: &IndexMap<u64, SdbFunction>, imports: &Vec<SdbImport>) -> (r: IndexMap<
    String,
    ObjectLifetime,
>)
    ensures
        lifetime_map_items(r) == lifetimes_upto(
            imports@,
            function_table_items(*functions),
            function_table_items(*functions).len() as int,
        ),
{
    let ghost funcs = function_table_items(*functions);
    let table = function_table_xrefs(functions);
    let mut lifetimes = lifetime_map_new();
    proof {
        assert(table@.map_values(|e: (u64, Vec<SdbXref>)| (e.0, e.1@)).len() == table@.len());
        assert(funcs.map_values(|e: (u64, FunctionView)| (e.0, e.1.1)).len() == funcs.len());
    }
    for k in 0..table.len()
        invariant
            funcs == function_table_items(*functions),
            table@.len() == funcs.len(),
            table@.map_values(|e: (u64, Vec<SdbXref>)| (e.0, e.1@)) == funcs.map_values(
                |e: (u64, FunctionView)| (e.0, e.1.1),
            ),
            lifetime_map_items(lifetimes) == lifetimes_upto(imports@, funcs, k as int),
    {
        let addr = table[k].0;
        let xs = &table[k].1;
        proof {
            assert(table@.map_values(|e: (u64, Vec<SdbXref>)| (e.0, e.1@))[k as int] == funcs.map_values(
                |e: (u64, FunctionView)| (e.0, e.1.1),
            )[k as int]);
            assert(table@.map_values(|e: (u64, Vec<SdbXref>)| (e.0, e.1@))[k as int] == (table@[k as int].0, table@[k as int].1@));
            assert(funcs.map_values(|e: (u64, FunctionView)| (e.0, e.1.1))[k as int] == (funcs[k as int].0, funcs[k as int].1.1));
            assert(xs@ == funcs[k as int].1.1);
            assert(addr == funcs[k as int].0);
        }
        let mut events: Vec<LifetimeEvent> = Vec::new();
        for j in 0..xs.len()
            invariant
                funcs == function_table_items(*functions),
                events@ == call_events(imports@, funcs, xs@, j as int),
        {
            let x = xs[j];
            if x.xref_kind == XrefKind::Call {
                match resolve_call_name(imports, functions, x.to_addr) {
                    Some(n) => match classify_lifetime_api(n.as_str()) {
                        Some(t) => {
                            events.push(LifetimeEvent { address: x.from_addr, event_type: t });
                        },
                        None => {},
                    },
                    None => {},
                }
            }
        }
        if events.len() > 0 {
            let mut id = String::new();
            id.append("obj_");
            push_hex_lower(&mut id, addr);
            let key = id.clone();
            lifetime_map_insert(&mut lifetimes, key, ObjectLifetime { object_id: id, events });
        }
    }
    lifetimes
}

} // verus!
