//! Export renderings: the call graph as Graphviz DOT and as GraphML, and a
//! C test harness for one function. Writing them out is the caller's part.

use vstd::prelude::*;
use indexmap::IndexMap;
use crate::collections::{assoc_get, function_table_contains, function_table_items, function_table_name};
use crate::recovered_types::SdbFunction;
use crate::subsystem::CallGraphView;
use crate::text::{dec, hex_lower, push_dec, push_hex_lower};

verus! {

/// The DOT line of a node.
pub open spec fn dot_node(a: u64) -> Seq<char> {
    "  node_"@ + dec(a as nat) + " [label=\"0x"@ + hex_lower(a as nat) + "\"];\n"@
}

/// The DOT line of an edge.
pub open spec fn dot_edge(from: u64, to: u64) -> Seq<char> {
    "  node_"@ + dec(from as nat) + " -> node_"@ + dec(to as nat) + ";\n"@
}

/// The GraphML line of a node.
pub open spec fn graphml_node(a: u64) -> Seq<char> {
    "    <node id=\"n_"@ + dec(a as nat) + "\"/>\n"@
}

/// The GraphML line of an edge.
pub open spec fn graphml_edge(from: u64, to: u64) -> Seq<char> {
    "    <edge source=\"n_"@ + dec(from as nat) + "\" target=\"n_"@ + dec(to as nat) + "\"/>\n"@
}

/// The lines of the first `k` nodes, each rendered by `line`.
pub open spec fn node_lines(nodes: Seq<u64>, line: spec_fn(u64) -> Seq<char>, k: int) -> Seq<char>
    decreases k,
{
    if k <= 0 {
        Seq::empty()
    } else {
        node_lines(nodes, line, k - 1) + line(nodes[k - 1])
    }
}

/// The lines of the first `k` edges out of `from`.
pub open spec fn target_lines(from: u64, tos: Seq<u64>, line: spec_fn(u64, u64) -> Seq<char>, k: int) -> Seq<char>
    decreases k,
{
    if k <= 0 {
        Seq::empty()
    } else {
        target_lines(from, tos, line, k - 1) + line(from, tos[k - 1])
    }
}

/// The lines of the edges of the first `k` callers, caller by caller.
pub open spec fn edge_lines(callees: Seq<(u64, Vec<u64>)>, line: spec_fn(u64, u64) -> Seq<char>, k: int) -> Seq<char>
    decreases k,
{
    if k <= 0 {
        Seq::empty()
    } else {
        edge_lines(callees, line, k - 1) + target_lines(
            callees[k - 1].0,
            callees[k - 1].1@,
            line,
            callees[k - 1].1@.len() as int,
        )
    }
}

/// The call graph in DOT: a node per function, labelled with its address
/// in hexadecimal, then an edge per call.
pub open spec fn dot_graph(g: CallGraphView) -> Seq<char> {
    "digraph CallGraph {\n"@ + node_lines(g.nodes@, |a: u64| dot_node(a), g.nodes@.len() as int) + edge_lines(
        g.callees@,
        |f: u64, t: u64| dot_edge(f, t),
        g.callees@.len() as int,
    ) + "}\n"@
}

/// The call graph in GraphML.
pub open spec fn graphml_graph(g: CallGraphView) -> Seq<char> {
    "<?xml version=\"1.0\" encoding=\"UTF-8\"?>\n<graphml xmlns=\"http://graphml.graphdrawing.org/xmlns\">\n  <graph id=\"CallGraph\" edgedefault=\"directed\">\n"@
        + node_lines(g.nodes@, |a: u64| graphml_node(a), g.nodes@.len() as int) + edge_lines(
        g.callees@,
        |f: u64, t: u64| graphml_edge(f, t),
        g.callees@.len() as int,
    ) + "  </graph>\n</graphml>\n"@
}

/// Appends the node and edge lines of `g`, in DOT when `dot` holds and in
/// GraphML otherwise.
fn push_graph_lines(out: &mut String, g: &CallGraphView, dot: bool)
    ensures
        final(out)@ == old(out)@ + node_lines(
            g.nodes@,
            if dot { |a: u64| dot_node(a) } else { |a: u64| graphml_node(a) },
            g.nodes@.len() as int,
        ) + edge_lines(
            g.callees@,
            if dot { |f: u64, t: u64| dot_edge(f, t) } else { |f: u64, t: u64| graphml_edge(f, t) },
            g.callees@.len() as int,
        ),
{
    let ghost node_line = if dot { |a: u64| dot_node(a) } else { |a: u64| graphml_node(a) };
    let ghost edge_line = if dot { |f: u64, t: u64| dot_edge(f, t) } else { |f: u64, t: u64| graphml_edge(f, t) };
    let ghost start = out@;
    for k in 0..g.nodes.len()
        invariant
            node_line == (if dot { |a: u64| dot_node(a) } else { |a: u64| graphml_node(a) }),
            out@ == start + node_lines(g.nodes@, node_line, k as int),
    {
        let a = g.nodes[k];
        let ghost before = out@;
        if dot {
            out.append("  node_");
            push_dec(out, a);
            out.append(" [label=\"0x");
            push_hex_lower(out, a);
            out.append("\"];\n");
        } else {
            out.append("    <node id=\"n_");
            push_dec(out, a);
            out.append("\"/>\n");
        }
        proof {
            assert(out@ =~= before + node_line(a));
        }
    }
    let ghost mid = out@;
    for k in 0..g.callees.len()
        invariant
            edge_line == (if dot { |f: u64, t: u64| dot_edge(f, t) } else { |f: u64, t: u64| graphml_edge(f, t) }),
            out@ == mid + edge_lines(g.callees@, edge_line, k as int),
    {
        let from = g.callees[k].0;
        let tos = &g.callees[k].1;
        let ghost before_caller = out@;
        for j in 0..tos.len()
            invariant
                edge_line == (if dot { |f: u64, t: u64| dot_edge(f, t) } else { |f: u64, t: u64| graphml_edge(f, t) }),
                out@ == before_caller + target_lines(from, tos@, edge_line, j as int),
        {
            let to = tos[j];
            let ghost before = out@;
            if dot {
                out.append("  node_");
                push_dec(out, from);
                out.append(" -> node_");
                push_dec(out, to);
                out.append(";\n");
            } else {
                out.append("    <edge source=\"n_");
                push_dec(out, from);
                out.append("\" target=\"n_");
                push_dec(out, to);
                out.append("\"/>\n");
            }
            proof {
                assert(out@ =~= before + edge_line(from, to));
            }
        }
    }
}

/// The call graph in Graphviz DOT.
pub fn dot_text(g: &CallGraphView) -> (r: String)
    ensures
        r@ == dot_graph(*g),
{
    let mut out = String::new();
    out.append("digraph CallGraph {\n");
    push_graph_lines(&mut out, g, true);
    out.append("}\n");
    out
}

/// The call graph in GraphML.
pub fn graphml_text(g: &CallGraphView) -> (r: String)
    ensures
        r@ == graphml_graph(*g),
{
    let mut out = String::new();
    out.append(
        "<?xml version=\"1.0\" encoding=\"UTF-8\"?>\n<graphml xmlns=\"http://graphml.graphdrawing.org/xmlns\">\n  <graph id=\"CallGraph\" edgedefault=\"directed\">\n",
    );
    push_graph_lines(&mut out, g, false);
    out.append("  </graph>\n</graphml>\n");
    out
}

/// The C test harness for a function called `name`.
pub open spec fn harness(name: Seq<char>) -> Seq<char> {
    "// Test Harness for "@ + name + "\n#include <stdio.h>\n#include <assert.h>\n\nextern void* "@ + name
        + "(void* arg1);\n\nint main() {\n    printf(\"Running tests for %s...\\n\", __func__);\n    // void* result = "@
        + name
        + "(NULL);\n    // assert(result != NULL);\n    printf(\"All tests passed!\\n\");\n    return 0;\n}\n"@
}

/// The test harness for the function at `addr`: named by its record, or
/// `sub_` and its address when the record has no name; a note when there
/// is no record.
pub open spec fn harness_for(funcs: Seq<(u64, crate::recovered_types::FunctionView)>, addr: u64) -> Seq<char> {
    match assoc_get(funcs, addr) {
        Some(f) => harness(
            match f.0 {
                Some(n) => n,
                None => "sub_"@ + hex_lower(addr as nat),
            },
        ),
        None => "// Function not found in SDB.\n"@,
    }
}

/// The C test harness for the function at `function_addr`.
pub fn test_harness_text(functions: &IndexMap<u64, SdbFunction>, function_addr: u64) -> (r: String)
    ensures
        r@ == harness_for(function_table_items(*functions), function_addr),
{
    let mut out = String::new();
    if function_table_contains(functions, function_addr) {
        let name = match function_table_name(functions, function_addr) {
            Some(n) => n,
            None => {
                let mut s = String::new();
                s.append("sub_");
                push_hex_lower(&mut s, function_addr);
                s
            },
        };
        out.append("// Test Harness for ");
        out.append(name.as_str());
        out.append("\n#include <stdio.h>\n#include <assert.h>\n\nextern void* ");
        out.append(name.as_str());
        out.append(
            "(void* arg1);\n\nint main() {\n    printf(\"Running tests for %s...\\n\", __func__);\n    // void* result = ",
        );
        out.append(name.as_str());
        out.append(
            "(NULL);\n    // assert(result != NULL);\n    printf(\"All tests passed!\\n\");\n    return 0;\n}\n",
        );
    } else {
        out.append("// Function not found in SDB.\n");
    }
    out
}

} // verus!
