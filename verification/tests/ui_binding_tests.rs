use canary::recovered_types::{SdbClass, SdbMethod};
use canary::ui_binding::{
    build_ui_behavior_graph_from_nodes, BindingEvidence, BindingInferenceEngine, UiBehaviorGraph, UiEdge, UiNode, UiNodeType, UiRelation, UiValue,
};
use indexmap::IndexMap;

fn node(id: u64, node_type: UiNodeType, name: &str) -> UiNode {
    let mut properties = IndexMap::new();
    properties.insert("Text".to_string(), UiValue::Text("Invalid input".to_string()));
    UiNode { id, node_type, name: name.to_string(), properties }
}

fn method(fn_addr: u64, slot: Option<usize>) -> SdbMethod {
    SdbMethod { fn_addr, class_vtable: 0x180100000, is_virtual: true, slot, is_ctor: false, is_dtor: false }
}

fn class(name: &str, methods: Vec<SdbMethod>) -> SdbClass {
    SdbClass { name: name.to_string(), vtables: vec![0x180100000], methods, bases: vec!["IInspectable".to_string()] }
}

#[test]
fn binding_candidates_gather_every_signal() {
    let mut ubg = UiBehaviorGraph::new();
    ubg.add_node(node(101, UiNodeType::TextBox, "DisplayValueTextBox"));
    ubg.add_edge(UiEdge {
        from: 101,
        to: 0x180005020,
        relation: UiRelation::EventHandler,
        property_name: Some("OnClick".to_string()),
    });
    let classes = vec![class("CalculatorApp.ViewModel.StandardCalculatorViewModel", vec![method(0x180005020, Some(8))])];
    let mut names = IndexMap::new();
    names.insert(0x180005020u64, "get_DisplayValue".to_string());
    let found = BindingInferenceEngine.binding_candidates(&ubg, &classes, &names);
    assert_eq!(found.len(), 1);
    let best = &found[0];
    assert_eq!(best.control_id, 101);
    assert_eq!(best.control_name, "DisplayValueTextBox");
    assert_eq!(best.control_property, "Text");
    assert_eq!(best.target_viewmodel, "CalculatorApp.ViewModel.StandardCalculatorViewModel");
    assert_eq!(best.target_property, "DisplayValue");
    assert_eq!(
        best.evidence,
        vec![
            BindingEvidence::StringConstant("DisplayValue".to_string()),
            BindingEvidence::PropertyAccessPattern,
            BindingEvidence::VtableSlotIndex(8),
            BindingEvidence::RuntimeActivationTrace(0x180005020),
        ]
    );
}

#[test]
fn binding_candidates_need_evidence_and_accessors() {
    let mut ubg = UiBehaviorGraph::new();
    ubg.add_node(node(1, UiNodeType::Button, "OkButton"));
    ubg.add_node(node(2, UiNodeType::Custom("Slider".to_string()), "volume"));
    ubg.add_node(node(1, UiNodeType::Label, "okLabel"));
    let classes = vec![
        class("Vm", vec![method(0x10, None), method(0x20, Some(3)), method(0x30, None)]),
        class("Empty", vec![method(0x40, None)]),
    ];
    let mut names = IndexMap::new();
    names.insert(0x10u64, "get_Ok".to_string());
    names.insert(0x20u64, "set_Volume".to_string());
    names.insert(0x30u64, "set_Ok".to_string());
    names.insert(0x40u64, "Helper".to_string());
    let found = BindingInferenceEngine.binding_candidates(&ubg, &classes, &names);
    let summary: Vec<(u64, String, String, usize)> = found
        .iter()
        .map(|c| (c.control_id, c.control_property.clone(), c.target_property.clone(), c.evidence.len()))
        .collect();
    // Node 1 was replaced in place by the label; "Ok" is found in its name and in two accessors.
    assert_eq!(
        summary,
        vec![
            (1, "Content".to_string(), "Ok".to_string(), 3),
            (1, "Content".to_string(), "Volume".to_string(), 2),
            (2, "Value".to_string(), "Ok".to_string(), 2),
            (2, "Value".to_string(), "Volume".to_string(), 3),
        ]
    );
}

#[test]
fn behavior_graph_from_decoded_layouts() {
    let decoded = vec![
        ("Main".to_string(), Some(vec![Some("TextBox".to_string()), None, Some("Button".to_string())])),
        ("Broken".to_string(), None),
        ("Other".to_string(), Some(vec![Some("TextBlock".to_string()), Some("MyControl".to_string())])),
    ];
    let g = build_ui_behavior_graph_from_nodes(&decoded);
    assert!(g.edges.is_empty());
    let nodes: Vec<(u64, UiNodeType, String)> =
        g.nodes.iter().map(|(k, n)| (*k, n.node_type.clone(), n.name.clone())).collect();
    assert_eq!(
        nodes,
        vec![
            (1, UiNodeType::TextBox, "TextBox_1".to_string()),
            (2, UiNodeType::Button, "Button_2".to_string()),
            (3, UiNodeType::Label, "TextBlock_3".to_string()),
            (4, UiNodeType::Custom("MyControl".to_string()), "MyControl_4".to_string()),
        ]
    );
    assert!(g.nodes[&1].properties.is_empty());
}

#[test]
fn behavior_graph_from_no_layouts_is_empty() {
    let g = build_ui_behavior_graph_from_nodes(&Vec::new());
    assert!(g.nodes.is_empty());
    assert!(g.edges.is_empty());
}
