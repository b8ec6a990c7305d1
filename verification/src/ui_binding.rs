//! UI behaviour graph vocabulary: control kinds, values, relations and the
//! evidence that supports a recovered data binding.

use vstd::prelude::*;
use indexmap::{IndexMap, IndexSet};
use crate::collections::{
    assoc_get, assoc_insert, set_insert, string_set_insert, string_set_is_empty, string_set_items, string_set_new,
    string_sets_map_entries, string_sets_map_insert, string_sets_map_items, string_sets_map_new,
    u64_string_map_get, u64_string_map_items, ui_node_map_entries, ui_node_map_insert, ui_node_map_items,
    ui_node_map_new, ui_properties_new, lemma_key_position, ui_node_map_properties, ui_property_items,
};
use crate::recovered_types::SdbClass;
use crate::text::{
    dec, push_dec, chars_contain_text, chars_start_with, contains_text, lowercase_of, push_char, starts_with, str_eq, to_chars,
    to_lowercase,
};

verus! {

/// Control types recovered from runtime patterns or class metadata.
#[derive(Debug, Clone, PartialEq, Eq)]
pub enum UiNodeType {
    TextBox,
    Button,
    Label,
    ListView,
    CheckBox,
    Custom(String),
}

/// Dynamic value types held by UI nodes.
#[derive(Debug, Clone, PartialEq, Eq)]
pub enum UiValue {
    Text(String),
    Boolean(bool),
    Integer(i64),
    Float(String),
}

/// Dynamic relationships connecting controls to handlers or properties.
#[derive(Debug, Clone, Copy, PartialEq, Eq, Structural)]
pub enum UiRelation {
    /// A click triggers a native function call.
    EventHandler,
    /// Text synchronised with a view-model property.
    DataBinding,
    /// Nested hierarchy.
    TemplateChild,
    /// Tab order.
    FocusChain,
}

/// A directed control-to-control or control-to-view-model edge.
#[derive(Debug, Clone)]
pub struct UiEdge {
    pub from: u64,
    pub to: u64,
    pub relation: UiRelation,
    pub property_name: Option<String>,
}

/// Behavioural evidence supporting a recovered view-model binding.
#[derive(Debug, Clone, PartialEq)]
pub enum BindingEvidence {
    /// A wide string matching the property name.
    StringConstant(String),
    /// Code uses a direct get_/set_ pattern on a vtable slot.
    PropertyAccessPattern,
    /// The slot matches an unstripped WinRT signature slot.
    VtableSlotIndex(usize),
    /// A traced constructor factory allocation address.
    RuntimeActivationTrace(u64),
}

/// A recovered control.
#[derive(Debug)]
pub struct UiNode {
    pub id: u64,
    pub node_type: UiNodeType,
    pub name: String,
    pub properties: IndexMap<String, UiValue>,
}

/// A node as the binding inference reads it: its type and its name.
pub type NodeView = (UiNodeType, Seq<char>);

/// The view of a node.
pub open spec fn node_view(n: UiNode) -> NodeView {
    (n.node_type, n.name@)
}

/// The UI behaviour graph: recovered controls by identifier, and the
/// edges between controls, handlers and view models.
#[derive(Debug)]
pub struct UiBehaviorGraph {
    pub nodes: IndexMap<u64, UiNode>,
    pub edges: Vec<UiEdge>,
}

impl UiBehaviorGraph {
    /// An empty graph.
    pub fn new() -> (g: UiBehaviorGraph)
        ensures
            ui_node_map_items(g.nodes) == Seq::<(u64, NodeView)>::empty(),
            ui_node_map_properties(g.nodes) == Seq::<(u64, Seq<(Seq<char>, UiValue)>)>::empty(),
            g.edges@ == Seq::<UiEdge>::empty(),
    {
        UiBehaviorGraph { nodes: ui_node_map_new(), edges: Vec::new() }
    }

    /// Adds a node under its identifier, replacing a node with the same
    /// identifier in place.
    pub fn add_node(&mut self, node: UiNode)
        ensures
            ui_node_map_items(final(self).nodes) == assoc_insert(ui_node_map_items(old(self).nodes), node.id, node_view(node)),
            ui_node_map_properties(final(self).nodes) == assoc_insert(
                ui_node_map_properties(old(self).nodes),
                node.id,
                ui_property_items(node.properties),
            ),
            final(self).edges == old(self).edges,
    {
        let id = node.id;
        ui_node_map_insert(&mut self.nodes, id, node);
    }

    /// Appends an edge.
    pub fn add_edge(&mut self, edge: UiEdge)
        ensures
            final(self).edges@ == old(self).edges@.push(edge),
            ui_node_map_items(final(self).nodes) == ui_node_map_items(old(self).nodes),
            ui_node_map_properties(final(self).nodes) == ui_node_map_properties(old(self).nodes),
    {
        self.edges.push(edge);
    }
}

/// Evidence as the contracts speak of it, strings by their characters.
pub enum EvidenceView {
    StringConstant(Seq<char>),
    PropertyAccessPattern,
    VtableSlotIndex(usize),
    RuntimeActivationTrace(u64),
}

/// The view of a piece of evidence.
pub open spec fn evidence_view(e: BindingEvidence) -> EvidenceView {
    match e {
        BindingEvidence::StringConstant(s) => EvidenceView::StringConstant(s@),
        BindingEvidence::PropertyAccessPattern => EvidenceView::PropertyAccessPattern,
        BindingEvidence::VtableSlotIndex(i) => EvidenceView::VtableSlotIndex(i),
        BindingEvidence::RuntimeActivationTrace(a) => EvidenceView::RuntimeActivationTrace(a),
    }
}

/// A candidate binding of a control property to a view-model property,
/// with the evidence for it.
#[derive(Debug, Clone)]
pub struct BindingCandidate {
    pub control_id: u64,
    pub control_name: String,
    pub control_property: String,
    pub target_viewmodel: String,
    pub target_property: String,
    pub evidence: Vec<BindingEvidence>,
}

/// A candidate by its control, control name and property, view model and
/// property, and evidence.
pub type CandidateView = (u64, Seq<char>, Seq<char>, Seq<char>, Seq<char>, Seq<EvidenceView>);

/// The view of a candidate.
pub open spec fn candidate_view(c: BindingCandidate) -> CandidateView {
    (
        c.control_id,
        c.control_name@,
        c.control_property@,
        c.target_viewmodel@,
        c.target_property@,
        c.evidence@.map_values(|e: BindingEvidence| evidence_view(e)),
    )
}

/// The property a control of type `t` binds.
pub open spec fn control_property(t: UiNodeType) -> Seq<char> {
    match t {
        UiNodeType::TextBox => "Text"@,
        UiNodeType::Button => "Command"@,
        UiNodeType::Label => "Content"@,
        _ => "Value"@,
    }
}

/// The property an accessor named `n` exposes: what follows `get_` or
/// `set_`.
pub open spec fn accessor_property(n: Seq<char>) -> Option<Seq<char>> {
    if starts_with(n, "get_"@) || starts_with(n, "set_"@) {
        Some(n.skip(4))
    } else {
        None
    }
}

/// The properties that the first `k` methods of `c` expose, each once.
pub open spec fn class_props(c: SdbClass, names: Map<u64, Seq<char>>, k: int) -> Seq<Seq<char>>
    decreases k,
{
    if k <= 0 {
        Seq::empty()
    } else {
        let prev = class_props(c, names, k - 1);
        let a = c.methods@[k - 1].fn_addr;
        if names.contains_key(a) {
            match accessor_property(names[a]) {
                Some(p) => set_insert(prev, p),
                None => prev,
            }
        } else {
            prev
        }
    }
}

/// The view models among the first `k` classes, each with the properties
/// its accessors expose; a later class of the same name replaces an
/// earlier one in place.
pub open spec fn vm_properties(cs: Seq<SdbClass>, names: Map<u64, Seq<char>>, k: int) -> Seq<(Seq<char>, Seq<Seq<char>>)>
    decreases k,
{
    if k <= 0 {
        Seq::empty()
    } else {
        let prev = vm_properties(cs, names, k - 1);
        let props = class_props(cs[k - 1], names, cs[k - 1].methods@.len() as int);
        if props.len() > 0 {
            assoc_insert(prev, cs[k - 1].name@, props)
        } else {
            prev
        }
    }
}

/// The first class from `i` on named `name`.
pub open spec fn named_class(cs: Seq<SdbClass>, name: Seq<char>, i: int) -> Option<int>
    decreases cs.len() - i,
{
    if i < 0 || i >= cs.len() {
        None
    } else if cs[i].name@ == name {
        Some(i)
    } else {
        named_class(cs, name, i + 1)
    }
}

/// The accessor evidence of the first `k` methods of `c` for `prop`: each
/// method whose function name contains `prop` is a property access, and
/// its slot, when known, a vtable slot.
pub open spec fn method_evidence(c: SdbClass, names: Map<u64, Seq<char>>, prop: Seq<char>, k: int) -> Seq<EvidenceView>
    decreases k,
{
    if k <= 0 {
        Seq::empty()
    } else {
        let prev = method_evidence(c, names, prop, k - 1);
        let m = c.methods@[k - 1];
        if names.contains_key(m.fn_addr) && contains_text(names[m.fn_addr], prop) {
            match m.slot {
                Some(s) => prev.push(EvidenceView::PropertyAccessPattern).push(EvidenceView::VtableSlotIndex(s)),
                None => prev.push(EvidenceView::PropertyAccessPattern),
            }
        } else {
            prev
        }
    }
}

/// The activation traces of the first `k` edges: the target of each event
/// handler edge from `node`.
pub open spec fn edge_evidence(edges: Seq<UiEdge>, node: u64, k: int) -> Seq<EvidenceView>
    decreases k,
{
    if k <= 0 {
        Seq::empty()
    } else {
        let prev = edge_evidence(edges, node, k - 1);
        let e = edges[k - 1];
        if e.from == node && e.relation == UiRelation::EventHandler {
            prev.push(EvidenceView::RuntimeActivationTrace(e.to))
        } else {
            prev
        }
    }
}

/// The evidence that control `node` named `node_name` binds property
/// `prop` of view model `vm`: the control's name contains the property's
/// (ignoring case); the view model's accessors; the control's event
/// handlers.
pub open spec fn evidence_for(
    cs: Seq<SdbClass>,
    names: Map<u64, Seq<char>>,
    edges: Seq<UiEdge>,
    node: u64,
    node_name: Seq<char>,
    vm: Seq<char>,
    prop: Seq<char>,
) -> Seq<EvidenceView> {
    let by_name = if contains_text(lowercase_of(node_name), lowercase_of(prop)) {
        seq![EvidenceView::StringConstant(prop)]
    } else {
        Seq::empty()
    };
    let by_accessor = match named_class(cs, vm, 0) {
        Some(i) => method_evidence(cs[i], names, prop, cs[i].methods@.len() as int),
        None => Seq::empty(),
    };
    by_name + by_accessor + edge_evidence(edges, node, edges.len() as int)
}

/// The candidates for node `n` and the first `k` properties of view model
/// `vm`: one for each property with some evidence.
pub open spec fn prop_candidates(
    cs: Seq<SdbClass>,
    names: Map<u64, Seq<char>>,
    edges: Seq<UiEdge>,
    n: (u64, NodeView),
    vm: (Seq<char>, Seq<Seq<char>>),
    k: int,
) -> Seq<CandidateView>
    decreases k,
{
    if k <= 0 {
        Seq::empty()
    } else {
        let prev = prop_candidates(cs, names, edges, n, vm, k - 1);
        let prop = vm.1[k - 1];
        let ev = evidence_for(cs, names, edges, n.0, n.1.1, vm.0, prop);
        if ev.len() > 0 {
            prev.push((n.0, n.1.1, control_property(n.1.0), vm.0, prop, ev))
        } else {
            prev
        }
    }
}

/// The candidates for node `n` and the first `k` view models.
pub open spec fn vm_candidates(
    cs: Seq<SdbClass>,
    names: Map<u64, Seq<char>>,
    edges: Seq<UiEdge>,
    n: (u64, NodeView),
    vms: Seq<(Seq<char>, Seq<Seq<char>>)>,
    k: int,
) -> Seq<CandidateView>
    decreases k,
{
    if k <= 0 {
        Seq::empty()
    } else {
        vm_candidates(cs, names, edges, n, vms, k - 1) + prop_candidates(
            cs,
            names,
            edges,
            n,
            vms[k - 1],
            vms[k - 1].1.len() as int,
        )
    }
}

/// The candidates for the first `k` nodes.
pub open spec fn node_candidates(
    cs: Seq<SdbClass>,
    names: Map<u64, Seq<char>>,
    edges: Seq<UiEdge>,
    nodes: Seq<(u64, NodeView)>,
    vms: Seq<(Seq<char>, Seq<Seq<char>>)>,
    k: int,
) -> Seq<CandidateView>
    decreases k,
{
    if k <= 0 {
        Seq::empty()
    } else {
        node_candidates(cs, names, edges, nodes, vms, k - 1) + vm_candidates(
            cs,
            names,
            edges,
            nodes[k - 1],
            vms,
            vms.len() as int,
        )
    }
}

/// Binding inference engine over the UI behaviour graph.
pub struct BindingInferenceEngine;

/// The views of a list of evidence.
pub open spec fn evidence_views(v: Seq<BindingEvidence>) -> Seq<EvidenceView> {
    v.map_values(|e: BindingEvidence| evidence_view(e))
}

/// Appends `e` to `out`.
fn push_evidence(out: &mut Vec<BindingEvidence>, e: BindingEvidence)
    ensures
        evidence_views(final(out)@) == evidence_views(old(out)@).push(evidence_view(e)),
{
    let ghost ev = evidence_view(e);
    out.push(e);
    assert(evidence_views(out@) =~= evidence_views(old(out)@).push(ev));
}

/// The characters of `v` from `lo` on, as a string.
fn string_from(v: &Vec<char>, lo: usize) -> (r: String)
    requires
        lo <= v@.len(),
    ensures
        r@ == v@.skip(lo as int),
{
    let mut r = String::new();
    let mut i = lo;
    while i < v.len()
        invariant
            lo <= i <= v@.len(),
            r@ == v@.subrange(lo as int, i as int),
        decreases v@.len() - i,
    {
        push_char(&mut r, v[i]);
        proof {
            assert(r@ =~= v@.subrange(lo as int, i + 1));
        }
        i += 1;
    }
    assert(r@ =~= v@.skip(lo as int));
    r
}

/// The property an accessor named `n` exposes, if it is one.
fn accessor_of(n: &str) -> (r: Option<String>)
    ensures
        match r {
            Some(p) => accessor_property(n@) == Some(p@),
            None => accessor_property(n@) is None,
        },
{
    let cs = to_chars(n);
    if chars_start_with(&cs, "get_") || chars_start_with(&cs, "set_") {
        proof {
            reveal_strlit("get_");
            reveal_strlit("set_");
        }
        Some(string_from(&cs, 4))
    } else {
        None
    }
}

/// The properties that the accessors among the methods of `c` expose.
fn props_of(c: &SdbClass, names: &IndexMap<u64, String>) -> (r: IndexSet<String>)
    ensures
        string_set_items(r) == class_props(*c, u64_string_map_items(*names), c.methods@.len() as int),
{
    let mut props = string_set_new();
    for k in 0..c.methods.len()
        invariant
            string_set_items(props) == class_props(*c, u64_string_map_items(*names), k as int),
    {
        match u64_string_map_get(names, c.methods[k].fn_addr) {
            Some(n) => match accessor_of(n) {
                Some(p) => {
                    string_set_insert(&mut props, p);
                },
                None => {},
            },
            None => {},
        }
    }
    props
}

/// The view models with the properties their accessors expose.
fn vm_props(classes: &Vec<SdbClass>, names: &IndexMap<u64, String>) -> (r: IndexMap<String, IndexSet<String>>)
    ensures
        string_sets_map_items(r) == vm_properties(classes@, u64_string_map_items(*names), classes@.len() as int),
{
    let mut m = string_sets_map_new();
    for k in 0..classes.len()
        invariant
            string_sets_map_items(m) == vm_properties(classes@, u64_string_map_items(*names), k as int),
    {
        let props = props_of(&classes[k], names);
        if !string_set_is_empty(&props) {
            string_sets_map_insert(&mut m, classes[k].name.clone(), props);
        }
    }
    m
}

/// The first class named `name`.
fn find_named_class(classes: &Vec<SdbClass>, name: &str) -> (r: Option<usize>)
    ensures
        match r {
            Some(i) => i < classes@.len() && named_class(classes@, name@, 0) == Some(i as int),
            None => named_class(classes@, name@, 0) is None,
        },
{
    let mut i: usize = 0;
    while i < classes.len()
        invariant
            i <= classes@.len(),
            named_class(classes@, name@, 0) == named_class(classes@, name@, i as int),
        decreases classes@.len() - i,
    {
        if str_eq(classes[i].name.as_str(), name) {
            return Some(i);
        }
        i += 1;
    }
    None
}

/// Appends the accessor evidence of the methods of `c` for `prop`.
fn add_method_evidence(c: &SdbClass, names: &IndexMap<u64, String>, prop: &str, out: &mut Vec<BindingEvidence>)
    ensures
        evidence_views(final(out)@) == evidence_views(old(out)@) + method_evidence(
            *c,
            u64_string_map_items(*names),
            prop@,
            c.methods@.len() as int,
        ),
{
    let ghost base = evidence_views(out@);
    for k in 0..c.methods.len()
        invariant
            evidence_views(out@) == base + method_evidence(*c, u64_string_map_items(*names), prop@, k as int),
    {
        let m = c.methods[k];
        match u64_string_map_get(names, m.fn_addr) {
            Some(n) => {
                let cs = to_chars(n);
                if chars_contain_text(&cs, prop) {
                    push_evidence(out, BindingEvidence::PropertyAccessPattern);
                    match m.slot {
                        Some(slot) => {
                            push_evidence(out, BindingEvidence::VtableSlotIndex(slot));
                        },
                        None => {},
                    }
                }
            },
            None => {},
        }
    }
}

/// Appends the activation traces of the event handler edges from `node`.
fn add_edge_evidence(edges: &Vec<UiEdge>, node: u64, out: &mut Vec<BindingEvidence>)
    ensures
        evidence_views(final(out)@) == evidence_views(old(out)@) + edge_evidence(edges@, node, edges@.len() as int),
{
    let ghost base = evidence_views(out@);
    for k in 0..edges.len()
        invariant
            evidence_views(out@) == base + edge_evidence(edges@, node, k as int),
    {
        let e = &edges[k];
        if e.from == node && e.relation == UiRelation::EventHandler {
            push_evidence(out, BindingEvidence::RuntimeActivationTrace(e.to));
        }
    }
}

impl BindingInferenceEngine {
    /// The candidate bindings of the graph's controls to the view models
    /// among `classes`, with the evidence for each: for each control, in
    /// order, each view model with accessor-exposed properties (the names
    /// of functions by address in `function_names`), each such property,
    /// when there is any evidence.
    pub fn binding_candidates(
        &self,
        ubg: &UiBehaviorGraph,
        classes: &Vec<SdbClass>,
        function_names: &IndexMap<u64, String>,
    ) -> (r: Vec<BindingCandidate>)
        ensures
            ({
                let names = u64_string_map_items(*function_names);
                let nodes = ui_node_map_items(ubg.nodes);
                let vms = vm_properties(classes@, names, classes@.len() as int);
                r@.map_values(|c: BindingCandidate| candidate_view(c)) == node_candidates(
                    classes@,
                    names,
                    ubg.edges@,
                    nodes,
                    vms,
                    nodes.len() as int,
                )
            }),
    {
        let ghost names = u64_string_map_items(*function_names);
        let ghost nodes = ui_node_map_items(ubg.nodes);
        let vm_map = vm_props(classes, function_names);
        let ghost vms = string_sets_map_items(vm_map);
        let node_list = ui_node_map_entries(&ubg.nodes);
        let vm_list = string_sets_map_entries(&vm_map);
        let mut out: Vec<BindingCandidate> = Vec::new();
        for ni in 0..node_list.len()
            invariant
                node_list@.map_values(|e: (u64, UiNodeType, String)| (e.0, (e.1, e.2@))) == nodes,
                vm_list@.map_values(|e: (String, Vec<String>)| (e.0@, e.1@.map_values(|x: String| x@))) == vms,
                names == u64_string_map_items(*function_names),
                out@.map_values(|c: BindingCandidate| candidate_view(c)) == node_candidates(
                    classes@,
                    names,
                    ubg.edges@,
                    nodes,
                    vms,
                    ni as int,
                ),
        {
            let node_id = node_list[ni].0;
            let node_name = &node_list[ni].2;
            let ghost n = nodes[ni as int];
            proof {
                assert(n == (node_list@[ni as int].0, (node_list@[ni as int].1, node_list@[ni as int].2@)));
            }
            let mut control_prop = String::new();
            match node_list[ni].1 {
                UiNodeType::TextBox => control_prop.append("Text"),
                UiNodeType::Button => control_prop.append("Command"),
                UiNodeType::Label => control_prop.append("Content"),
                _ => control_prop.append("Value"),
            }
            assert(control_prop@ == control_property(n.1.0));
            let lower_name = to_lowercase(node_name.as_str());
            let lower_chars = to_chars(lower_name.as_str());
            let ghost before_node = out@.map_values(|c: BindingCandidate| candidate_view(c));
            for vi in 0..vm_list.len()
                invariant
                    node_list@.map_values(|e: (u64, UiNodeType, String)| (e.0, (e.1, e.2@))) == nodes,
                    vm_list@.map_values(|e: (String, Vec<String>)| (e.0@, e.1@.map_values(|x: String| x@))) == vms,
                    names == u64_string_map_items(*function_names),
                    n == nodes[ni as int],
                    n.0 == node_id,
                    n.1.1 == node_name@,
                    control_prop@ == control_property(n.1.0),
                    lower_chars@ == lowercase_of(node_name@),
                    out@.map_values(|c: BindingCandidate| candidate_view(c)) == before_node + vm_candidates(
                        classes@,
                        names,
                        ubg.edges@,
                        n,
                        vms,
                        vi as int,
                    ),
            {
                let vm_name = &vm_list[vi].0;
                let props = &vm_list[vi].1;
                let ghost vm = vms[vi as int];
                proof {
                    assert(vm == (vm_name@, props@.map_values(|x: String| x@)));
                }
                let class_index = find_named_class(classes, vm_name.as_str());
                let ghost before_vm = out@.map_values(|c: BindingCandidate| candidate_view(c));
                for pi in 0..props.len()
                    invariant
                        names == u64_string_map_items(*function_names),
                        n.0 == node_id,
                        n.1.1 == node_name@,
                        control_prop@ == control_property(n.1.0),
                        lower_chars@ == lowercase_of(node_name@),
                        vm == (vm_name@, props@.map_values(|x: String| x@)),
                        match class_index {
                            Some(i) => i < classes@.len() && named_class(classes@, vm_name@, 0) == Some(i as int),
                            None => named_class(classes@, vm_name@, 0) is None,
                        },
                        out@.map_values(|c: BindingCandidate| candidate_view(c)) == before_vm + prop_candidates(
                            classes@,
                            names,
                            ubg.edges@,
                            n,
                            vm,
                            pi as int,
                        ),
                {
                    let prop = &props[pi];
                    let mut evidence: Vec<BindingEvidence> = Vec::new();
                    let lower_prop = to_lowercase(prop.as_str());
                    if chars_contain_text(&lower_chars, lower_prop.as_str()) {
                        push_evidence(&mut evidence, BindingEvidence::StringConstant(prop.clone()));
                    }
                    match class_index {
                        Some(i) => {
                            add_method_evidence(&classes[i], function_names, prop.as_str(), &mut evidence);
                        },
                        None => {},
                    }
                    add_edge_evidence(&ubg.edges, node_id, &mut evidence);
                    proof {
                        assert(vm.1[pi as int] == prop@);
                        assert(evidence_views(evidence@) =~= evidence_for(
                            classes@,
                            names,
                            ubg.edges@,
                            n.0,
                            n.1.1,
                            vm.0,
                            prop@,
                        ));
                    }
                    let ghost prev = out@.map_values(|c: BindingCandidate| candidate_view(c));
                    if evidence.len() > 0 {
                        let c = BindingCandidate {
                            control_id: node_id,
                            control_name: node_name.clone(),
                            control_property: control_prop.clone(),
                            target_viewmodel: vm_name.clone(),
                            target_property: prop.clone(),
                            evidence,
                        };
                        let ghost cv = candidate_view(c);
                        out.push(c);
                        proof {
                            assert(out@.map_values(|c: BindingCandidate| candidate_view(c)) =~= prev.push(cv));
                        }
                    }
                }
                proof {
                    assert(vm.1.len() == props@.len());
                }
            }
        }
        out
    }
}

/// The node type that an element of type `t` declares: the known controls
/// by name (a text block being a label), anything else a custom control.
pub open spec fn declared_node_type(nt: UiNodeType, t: Seq<char>) -> bool {
    if t == "TextBox"@ {
        nt == UiNodeType::TextBox
    } else if t == "Button"@ {
        nt == UiNodeType::Button
    } else if t == "TextBlock"@ || t == "Label"@ {
        nt == UiNodeType::Label
    } else if t == "ListView"@ {
        nt == UiNodeType::ListView
    } else if t == "CheckBox"@ {
        nt == UiNodeType::CheckBox
    } else {
        nt matches UiNodeType::Custom(s) && s@ == t
    }
}

/// The type names of the element starts among `nodes`, in order.
pub open spec fn element_types(nodes: Seq<Option<String>>) -> Seq<Seq<char>>
    decreases nodes.len(),
{
    if nodes.len() == 0 {
        Seq::empty()
    } else {
        element_types(nodes.drop_last()) + match nodes.last() {
            Some(t) => seq![t@],
            None => Seq::empty(),
        }
    }
}

/// The type names of the element starts of the first `k` decoded layouts
/// that decoded, in order.
pub open spec fn layout_elements(decoded: Seq<(String, Option<Vec<Option<String>>>)>, k: int) -> Seq<Seq<char>>
    decreases k,
{
    if k <= 0 {
        Seq::empty()
    } else {
        layout_elements(decoded, k - 1) + match decoded[k - 1].1 {
            Some(nodes) => element_types(nodes@),
            None => Seq::empty(),
        }
    }
}

/// The node for the `k`-th element (from 0), of type `t`: numbered from 1,
/// named by its type and number.
pub open spec fn element_node(entry: (u64, NodeView), k: int, t: Seq<char>) -> bool {
    &&& entry.0 == k + 1
    &&& declared_node_type(entry.1.0, t)
    &&& entry.1.1 == t + "_"@ + dec((k + 1) as nat)
}

/// The node type for an element of type `t`.
fn node_type_of(t: &String) -> (nt: UiNodeType)
    ensures
        declared_node_type(nt, t@),
{
    if str_eq(t.as_str(), "TextBox") {
        UiNodeType::TextBox
    } else if str_eq(t.as_str(), "Button") {
        UiNodeType::Button
    } else if str_eq(t.as_str(), "TextBlock") || str_eq(t.as_str(), "Label") {
        UiNodeType::Label
    } else if str_eq(t.as_str(), "ListView") {
        UiNodeType::ListView
    } else if str_eq(t.as_str(), "CheckBox") {
        UiNodeType::CheckBox
    } else {
        UiNodeType::Custom(t.clone())
    }
}

/// Builds a UI behaviour graph from decoded XAML binary layouts, each a
/// name with its nodes (or nothing where decoding failed), a node holding
/// the type name of an element start: one node per element start, in
/// order, numbered from 1 and named by its type and number; no edges.
pub fn build_ui_behavior_graph_from_nodes(decoded: &Vec<(String, Option<Vec<Option<String>>>)>) -> (g: UiBehaviorGraph)
    requires
        layout_elements(decoded@, decoded@.len() as int).len() < u64::MAX,
    ensures
        g.edges@ == Seq::<UiEdge>::empty(),
        ui_node_map_items(g.nodes).len() == layout_elements(decoded@, decoded@.len() as int).len(),
        forall|k: int|
            0 <= k < ui_node_map_items(g.nodes).len() ==> element_node(
                #[trigger] ui_node_map_items(g.nodes)[k],
                k,
                layout_elements(decoded@, decoded@.len() as int)[k],
            ),
{
    let mut ubg = UiBehaviorGraph::new();
    let mut node_id: u64 = 1;
    let ghost all = layout_elements(decoded@, decoded@.len() as int);
    proof {
        lemma_layout_elements_grow(decoded@, 0, decoded@.len() as int);
    }
    for i in 0..decoded.len()
        invariant
            all == layout_elements(decoded@, decoded@.len() as int),
            all.len() < u64::MAX,
            layout_elements(decoded@, i as int).len() <= all.len(),
            ubg.edges@ == Seq::<UiEdge>::empty(),
            node_id == ui_node_map_items(ubg.nodes).len() + 1,
            ui_node_map_items(ubg.nodes).len() == layout_elements(decoded@, i as int).len(),
            forall|k: int|
                0 <= k < ui_node_map_items(ubg.nodes).len() ==> element_node(
                    #[trigger] ui_node_map_items(ubg.nodes)[k],
                    k,
                    layout_elements(decoded@, i as int)[k],
                ),
    {
        let ghost before = layout_elements(decoded@, i as int);
        proof {
            lemma_layout_elements_grow(decoded@, i + 1, decoded@.len() as int);
        }
        match &decoded[i].1 {
            Some(nodes) => {
                proof {
                    assert(layout_elements(decoded@, i + 1) == before + element_types(nodes@));
                    assert(layout_elements(decoded@, i as int).len() <= layout_elements(decoded@, i + 1).len());
                }
                for n in 0..nodes.len()
                    invariant
                        all.len() < u64::MAX,
                        before + element_types(nodes@) == layout_elements(decoded@, i + 1),
                        layout_elements(decoded@, i + 1).len() <= all.len(),
                        ubg.edges@ == Seq::<UiEdge>::empty(),
                        node_id == ui_node_map_items(ubg.nodes).len() + 1,
                        ui_node_map_items(ubg.nodes).len() == (before + element_types(nodes@.take(n as int))).len(),
                        forall|k: int|
                            0 <= k < ui_node_map_items(ubg.nodes).len() ==> element_node(
                                #[trigger] ui_node_map_items(ubg.nodes)[k],
                                k,
                                (before + element_types(nodes@.take(n as int)))[k],
                            ),
                {
                    proof {
                        assert(nodes@.take(n + 1).drop_last() =~= nodes@.take(n as int));
                        lemma_element_types_prefix(nodes@, n + 1, nodes@.len() as int);
                        assert(nodes@.take(nodes@.len() as int) =~= nodes@);
                    }
                    match &nodes[n] {
                        Some(element_type) => {
                            let node_type = node_type_of(element_type);
                            let mut name = element_type.clone();
                            name.append("_");
                            push_dec(&mut name, node_id);
                            let ghost items = ui_node_map_items(ubg.nodes);
                            proof {
                                assert forall|m: int| 0 <= m < items.len() implies items[m].0 != node_id by {
                                    assert(element_node(items[m], m, (before + element_types(nodes@.take(n as int)))[m]));
                                }
                                lemma_key_position(items, node_id, 0);
                            }
                            ubg.add_node(UiNode { id: node_id, node_type, name, properties: ui_properties_new() });
                            proof {
                                let seen = before + element_types(nodes@.take(n as int));
                                assert(before + element_types(nodes@.take(n + 1)) =~= seen.push(element_type@));
                                assert(ui_node_map_items(ubg.nodes) == items.push((node_id, (node_type, name@))));
                            }
                            node_id += 1;
                        },
                        None => {
                            proof {
                                assert(element_types(nodes@.take(n + 1)) == element_types(nodes@.take(n as int)));
                            }
                        },
                    }
                }
                proof {
                    assert(nodes@.take(nodes@.len() as int) =~= nodes@);
                }
            },
            None => {
                proof {
                    assert(layout_elements(decoded@, i + 1) =~= before);
                }
            },
        }
    }
    ubg
}

/// A longer prefix of the layouts has no fewer element starts.
proof fn lemma_layout_elements_grow(decoded: Seq<(String, Option<Vec<Option<String>>>)>, i: int, j: int)
    requires
        0 <= i <= j,
    ensures
        layout_elements(decoded, i).len() <= layout_elements(decoded, j).len(),
    decreases j - i,
{
    if i < j {
        lemma_layout_elements_grow(decoded, i, j - 1);
    }
}

/// The element starts of a prefix of the nodes number no more than those
/// of all of them.
proof fn lemma_element_types_prefix(nodes: Seq<Option<String>>, k: int, n: int)
    requires
        0 <= k <= n <= nodes.len(),
    ensures
        element_types(nodes.take(k)).len() <= element_types(nodes.take(n)).len(),
    decreases n - k,
{
    if k < n {
        assert(nodes.take(n).drop_last() =~= nodes.take(n - 1));
        lemma_element_types_prefix(nodes, k, n - 1);
    }
}

} // verus!
