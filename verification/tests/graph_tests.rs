use knodiq_mixer::graph::{Graph, GraphCommand, GraphError};
use knodiq_mixer::node::{Node, NodeError, NodeType};
use knodiq_mixer::plan::InputSource;
use knodiq_mixer::topology::{can_reach, Connector};
use knodiq_mixer::value::{Value, ValueTag};

fn s(text: &str) -> String {
    text.to_string()
}

fn wire(from: u64, from_port: &str, to: u64, to_port: &str) -> Connector {
    Connector { from, from_port: s(from_port), to, to_port: s(to_port) }
}

fn ids(g: &Graph) -> Vec<u64> {
    g.get_nodes().iter().map(|n| n.id()).collect()
}

fn wires(g: &Graph) -> Vec<(u64, String, u64, String)> {
    g.get_connections()
        .iter()
        .map(|c| (c.from, c.from_port.clone(), c.to, c.to_port.clone()))
        .collect()
}

/// entry 1 -> shader 3 -> shader 4 -> exit 2
fn chain() -> Graph {
    let mut g = Graph::new(1, 2).unwrap();
    assert_eq!(g.add_node(3, NodeType::AudioShaderNode), Ok(()));
    assert_eq!(g.add_node(4, NodeType::AudioShaderNode), Ok(()));
    assert_eq!(g.connect(1, s("audio"), 3, s("audio")), Ok(()));
    assert_eq!(g.connect(3, s("audio"), 4, s("audio")), Ok(()));
    assert_eq!(g.connect(4, s("audio"), 2, s("audio")), Ok(()));
    g
}

#[test]
fn new_graph_has_entry_and_exit_and_no_connector() {
    let g = Graph::new(10, 20).unwrap();
    assert_eq!(g.get_input_node_id(), 10);
    assert_eq!(g.get_output_node_id(), 20);
    assert_eq!(ids(&g), vec![10, 20]);
    assert_eq!(g.get_nodes()[0].kind(), NodeType::BufferInputNode);
    assert_eq!(g.get_nodes()[1].kind(), NodeType::BufferOutputNode);
    assert!(g.get_connections().is_empty());
    assert!(g.contains(10));
    assert!(!g.contains(11));
    assert_eq!(g.get_node(20).map(|n| n.kind()), Some(NodeType::BufferOutputNode));
    assert!(g.get_node(21).is_none());
}

#[test]
fn equal_ids_for_entry_and_exit_are_refused() {
    assert!(matches!(Graph::new(5, 5), Err(GraphError::DuplicateId)));
    assert!(matches!(Graph::wired(5, 5), Err(GraphError::DuplicateId)));
}

#[test]
fn wired_graph_has_the_default_connector() {
    let g = Graph::wired(1, 2).unwrap();
    assert_eq!(ids(&g), vec![1, 2]);
    assert_eq!(wires(&g), vec![(1, s("audio"), 2, s("audio"))]);
}

#[test]
fn add_node_refuses_entry_and_exit_kinds_and_used_ids() {
    let mut g = Graph::new(1, 2).unwrap();
    assert_eq!(g.add_node(3, NodeType::BufferInputNode), Err(GraphError::FixedNode));
    assert_eq!(g.add_node(3, NodeType::BufferOutputNode), Err(GraphError::FixedNode));
    assert_eq!(g.add_node(1, NodeType::BufferInputNode), Err(GraphError::FixedNode));
    assert_eq!(g.add_node(1, NodeType::EmptyNode), Err(GraphError::DuplicateId));
    assert_eq!(g.add_node(2, NodeType::AudioShaderNode), Err(GraphError::DuplicateId));
    assert_eq!(ids(&g), vec![1, 2]);
    assert_eq!(g.add_node(3, NodeType::EmptyNode), Ok(()));
    assert_eq!(g.add_node(4, NodeType::NoteInputNode), Ok(()));
    assert_eq!(g.add_node(3, NodeType::NoteInputNode), Err(GraphError::DuplicateId));
    assert_eq!(ids(&g), vec![1, 2, 3, 4]);
}

#[test]
fn entry_and_exit_cannot_be_removed() {
    let mut g = chain();
    assert_eq!(g.remove_node(1), Err(GraphError::FixedNode));
    assert_eq!(g.remove_node(2), Err(GraphError::FixedNode));
    assert_eq!(g.remove_node(99), Err(GraphError::UnknownNode));
    assert_eq!(ids(&g), vec![1, 2, 3, 4]);
    assert_eq!(wires(&g).len(), 3);
}

#[test]
fn removing_a_node_takes_its_connectors_along() {
    let mut g = chain();
    assert_eq!(g.remove_node(3), Ok(()));
    assert_eq!(ids(&g), vec![1, 2, 4]);
    assert_eq!(wires(&g), vec![(4, s("audio"), 2, s("audio"))]);
}

#[test]
fn remove_after_add_restores_the_graph() {
    let mut g = chain();
    let nodes_before = ids(&g);
    let wires_before = wires(&g);
    assert_eq!(g.add_node(9, NodeType::AudioShaderNode), Ok(()));
    assert_eq!(g.get_nodes().len(), nodes_before.len() + 1);
    assert_eq!(g.remove_node(9), Ok(()));
    assert_eq!(ids(&g), nodes_before);
    assert_eq!(wires(&g), wires_before);
}

#[test]
fn connect_reports_each_reason_for_refusal() {
    let mut g = chain();
    assert_eq!(g.add_node(5, NodeType::NoteInputNode), Ok(()));
    assert_eq!(g.add_node(6, NodeType::AudioShaderNode), Ok(()));
    let before = wires(&g);
    assert_eq!(g.connect(77, s("audio"), 2, s("audio")), Err(GraphError::UnknownNode));
    assert_eq!(g.connect(1, s("audio"), 77, s("audio")), Err(GraphError::UnknownNode));
    // 4 reaches 2 only; 3 reaches 4: wiring 4 into 3 closes a cycle
    assert_eq!(g.connect(4, s("audio"), 3, s("audio")), Err(GraphError::Cycle));
    assert_eq!(g.connect(3, s("audio"), 3, s("audio")), Err(GraphError::Cycle));
    assert_eq!(g.connect(2, s("audio"), 1, s("audio")), Err(GraphError::Cycle));
    assert_eq!(g.connect(1, s("video"), 6, s("audio")), Err(GraphError::UnknownPort));
    assert_eq!(g.connect(1, s("audio"), 6, s("video")), Err(GraphError::UnknownPort));
    assert_eq!(g.connect(6, s("audio"), 1, s("audio")), Err(GraphError::UnknownPort));
    assert_eq!(g.connect(5, s("notes"), 6, s("audio")), Err(GraphError::TagMismatch));
    assert_eq!(g.connect(1, s("audio"), 6, s("notes")), Err(GraphError::TagMismatch));
    assert_eq!(g.connect(1, s("audio"), 4, s("audio")), Err(GraphError::InputTaken));
    assert_eq!(g.connect(6, s("audio"), 2, s("audio")), Err(GraphError::InputTaken));
    assert_eq!(wires(&g), before);
    assert_eq!(g.connect(5, s("notes"), 6, s("notes")), Ok(()));
    assert_eq!(g.connect(1, s("audio"), 6, s("audio")), Ok(()));
    assert_eq!(wires(&g).len(), before.len() + 2);
}

#[test]
fn one_output_may_feed_many_inputs() {
    let mut g = Graph::new(1, 2).unwrap();
    assert_eq!(g.add_node(3, NodeType::AudioShaderNode), Ok(()));
    assert_eq!(g.connect(1, s("audio"), 2, s("audio")), Ok(()));
    assert_eq!(g.connect(1, s("audio"), 3, s("audio")), Ok(()));
    assert_eq!(wires(&g).len(), 2);
}

#[test]
fn disconnect_removes_exactly_the_named_connector() {
    let mut g = chain();
    assert!(!g.disconnect(1, s("audio"), 4, s("audio")));
    assert!(!g.disconnect(1, s("audio"), 3, s("notes")));
    assert_eq!(wires(&g).len(), 3);
    assert!(g.disconnect(3, s("audio"), 4, s("audio")));
    assert_eq!(
        wires(&g),
        vec![(1, s("audio"), 3, s("audio")), (4, s("audio"), 2, s("audio"))]
    );
    assert!(!g.disconnect(3, s("audio"), 4, s("audio")));
}

#[test]
fn connect_then_disconnect_restores_the_topology() {
    let mut g = chain();
    assert_eq!(g.add_node(6, NodeType::AudioShaderNode), Ok(()));
    let before = wires(&g);
    assert_eq!(g.connect(3, s("audio"), 6, s("audio")), Ok(()));
    assert_eq!(wires(&g).len(), before.len() + 1);
    assert!(g.disconnect(3, s("audio"), 6, s("audio")));
    assert_eq!(wires(&g), before);
}

#[test]
fn a_cycle_never_appears_after_edits() {
    let mut g = chain();
    assert!(g.disconnect(3, s("audio"), 4, s("audio")));
    // now 4 no longer depends on 3, so 4 -> 3 is fine
    assert_eq!(g.connect(4, s("audio"), 3, s("audio")), Err(GraphError::InputTaken));
    assert!(g.disconnect(1, s("audio"), 3, s("audio")));
    assert_eq!(g.connect(4, s("audio"), 3, s("audio")), Ok(()));
    // and the old direction would now close a cycle
    assert_eq!(g.connect(3, s("audio"), 4, s("audio")), Err(GraphError::Cycle));
    for c in g.get_connections() {
        assert!(!can_reach(g.get_connections(), c.to, c.from));
    }
}

#[test]
fn reachability_follows_connectors_forward_only() {
    let cs = vec![wire(1, "a", 2, "b"), wire(2, "a", 3, "b"), wire(5, "a", 1, "b")];
    assert!(can_reach(&cs, 1, 1));
    assert!(can_reach(&cs, 9, 9));
    assert!(can_reach(&cs, 1, 3));
    assert!(can_reach(&cs, 5, 3));
    assert!(!can_reach(&cs, 3, 1));
    assert!(!can_reach(&cs, 1, 5));
    assert!(!can_reach(&cs, 1, 9));
    assert!(can_reach(&Vec::new(), 4, 4));
    assert!(!can_reach(&Vec::new(), 4, 5));
}

#[test]
fn apply_carries_out_each_command() {
    let mut g = Graph::wired(1, 2).unwrap();
    assert_eq!(g.apply(GraphCommand::AddNode(3, NodeType::AudioShaderNode)), Ok(()));
    assert_eq!(
        g.apply(GraphCommand::Disconnect(wire(1, "audio", 2, "audio"))),
        Ok(())
    );
    assert_eq!(
        g.apply(GraphCommand::Disconnect(wire(1, "audio", 2, "audio"))),
        Err(GraphError::UnknownConnector)
    );
    assert_eq!(g.apply(GraphCommand::Connect(wire(1, "audio", 3, "audio"))), Ok(()));
    assert_eq!(g.apply(GraphCommand::Connect(wire(3, "audio", 2, "audio"))), Ok(()));
    assert_eq!(
        g.apply(GraphCommand::Connect(wire(2, "audio", 1, "audio"))),
        Err(GraphError::Cycle)
    );
    assert_eq!(g.apply(GraphCommand::SetShader(3, s("out = in;"))), Ok(()));
    assert_eq!(g.apply(GraphCommand::SetShader(1, s("x"))), Err(GraphError::NotAShader));
    assert_eq!(g.apply(GraphCommand::SetShader(8, s("x"))), Err(GraphError::UnknownNode));
    assert_eq!(g.apply(GraphCommand::SetInput(3, s("notes"), Value::Notes(4))), Ok(()));
    assert_eq!(
        g.apply(GraphCommand::SetInput(3, s("gain"), Value::Int(4))),
        Err(GraphError::UnknownPort)
    );
    assert_eq!(
        g.apply(GraphCommand::SetInput(8, s("audio"), Value::Int(4))),
        Err(GraphError::UnknownNode)
    );
    assert_eq!(g.get_node(3).unwrap().shader(), "out = in;");
    assert_eq!(g.apply(GraphCommand::RemoveNode(3)), Ok(()));
    assert_eq!(g.apply(GraphCommand::RemoveNode(3)), Err(GraphError::UnknownNode));
    assert_eq!(g.apply(GraphCommand::RemoveNode(2)), Err(GraphError::FixedNode));
    assert_eq!(ids(&g), vec![1, 2]);
    assert!(wires(&g).is_empty());
}

#[test]
fn evaluation_order_puts_sources_first_and_leaves_out_dead_ends() {
    let mut g = chain();
    // 7 feeds nothing, 8 is fed by nothing but feeds the exit through 4's notes
    assert_eq!(g.add_node(7, NodeType::AudioShaderNode), Ok(()));
    assert_eq!(g.connect(1, s("audio"), 7, s("audio")), Ok(()));
    assert_eq!(g.add_node(8, NodeType::NoteInputNode), Ok(()));
    assert_eq!(g.connect(8, s("notes"), 4, s("notes")), Ok(()));
    let order = g.evaluation_order();
    let mut sorted = order.clone();
    sorted.sort();
    assert_eq!(sorted, vec![1, 2, 3, 4, 8]);
    let at = |id: u64| order.iter().position(|x| *x == id).unwrap();
    for c in g.get_connections() {
        if order.contains(&c.to) {
            assert!(at(c.from) < at(c.to));
        }
    }
    assert_eq!(*order.last().unwrap(), 2);
}

#[test]
fn evaluation_order_of_an_unwired_graph_is_the_exit_alone() {
    let g = Graph::new(1, 2).unwrap();
    assert_eq!(g.evaluation_order(), vec![2]);
    let g = Graph::wired(1, 2).unwrap();
    assert_eq!(g.evaluation_order(), vec![1, 2]);
}

#[test]
fn inputs_resolve_to_wire_then_constant_then_default() {
    let mut g = chain();
    match g.resolve_input(3, &s("audio")) {
        Some(InputSource::Wire { from, port }) => {
            assert_eq!(from, 1);
            assert_eq!(port, "audio");
        }
        _ => panic!("input 3.audio is wired"),
    }
    match g.resolve_input(3, &s("notes")) {
        Some(InputSource::Constant(Value::Notes(0))) => {}
        _ => panic!("an unset input yields the default of its tag"),
    }
    assert_eq!(g.set_input(3, s("notes"), Value::Notes(42)), Ok(()));
    match g.resolve_input(3, &s("notes")) {
        Some(InputSource::Constant(Value::Notes(42))) => {}
        _ => panic!("a set input yields its constant"),
    }
    assert_eq!(g.set_input(3, s("notes"), Value::Int(5)), Ok(()));
    match g.resolve_input(3, &s("notes")) {
        Some(InputSource::Constant(Value::Notes(0))) => {}
        _ => panic!("a constant of another tag yields the default"),
    }
    // a wire wins over a constant
    assert_eq!(g.set_input(4, s("audio"), Value::Buffer(9)), Ok(()));
    assert!(matches!(
        g.resolve_input(4, &s("audio")),
        Some(InputSource::Wire { from: 3, .. })
    ));
    assert!(g.resolve_input(3, &s("gain")).is_none());
    assert!(g.resolve_input(1, &s("audio")).is_none());
    assert!(g.resolve_input(99, &s("audio")).is_none());
}

#[test]
fn node_constants_are_replaced_not_repeated() {
    let mut n = Node::new(5, NodeType::AudioShaderNode);
    assert!(n.input_constant(&s("audio")).is_none());
    assert_eq!(n.set_input(s("audio"), Value::Buffer(1)), Ok(()));
    assert_eq!(n.set_input(s("notes"), Value::Notes(2)), Ok(()));
    assert_eq!(n.set_input(s("audio"), Value::Buffer(3)), Ok(()));
    assert!(matches!(n.input_constant(&s("audio")), Some(Value::Buffer(3))));
    assert!(matches!(n.input_constant(&s("notes")), Some(Value::Notes(2))));
    assert_eq!(n.set_input(s("gain"), Value::Int(1)), Err(NodeError::UnknownPort));
    assert!(n.input_constant(&s("gain")).is_none());
    assert!(!n.is_input() && !n.is_output());
    assert!(Node::new(1, NodeType::BufferInputNode).is_input());
    assert!(Node::new(1, NodeType::BufferOutputNode).is_output());
    let copy = n.clone();
    assert_eq!(copy.id(), 5);
    assert!(matches!(copy.input_constant(&s("audio")), Some(Value::Buffer(3))));
}

#[test]
fn only_audio_shaders_hold_a_shader() {
    let mut shader = Node::new(1, NodeType::AudioShaderNode);
    assert_eq!(shader.shader(), "");
    assert_eq!(shader.set_shader(s("bad")), Ok(()));
    assert_eq!(shader.shader(), "bad");
    for kind in [
        NodeType::EmptyNode,
        NodeType::BufferInputNode,
        NodeType::BufferOutputNode,
        NodeType::NoteInputNode,
    ] {
        let mut n = Node::new(2, kind);
        assert_eq!(n.set_shader(s("x")), Err(NodeError::NotAShader));
        assert_eq!(n.shader(), "");
    }
}

#[test]
fn node_kinds_declare_their_ports() {
    let audio = s("audio");
    let notes = s("notes");
    assert_eq!(NodeType::BufferInputNode.find_output(&audio), Some(ValueTag::Buffer));
    assert_eq!(NodeType::BufferInputNode.find_input(&audio), None);
    assert_eq!(NodeType::BufferOutputNode.find_input(&audio), Some(ValueTag::Buffer));
    assert_eq!(NodeType::BufferOutputNode.find_output(&audio), None);
    assert_eq!(NodeType::AudioShaderNode.find_input(&audio), Some(ValueTag::Buffer));
    assert_eq!(NodeType::AudioShaderNode.find_input(&notes), Some(ValueTag::Notes));
    assert_eq!(NodeType::AudioShaderNode.find_output(&audio), Some(ValueTag::Buffer));
    assert_eq!(NodeType::AudioShaderNode.find_output(&notes), None);
    assert_eq!(NodeType::NoteInputNode.find_output(&notes), Some(ValueTag::Notes));
    assert_eq!(NodeType::NoteInputNode.find_input(&notes), None);
    assert_eq!(NodeType::EmptyNode.find_input(&audio), None);
    assert_eq!(NodeType::EmptyNode.find_output(&audio), None);
    assert_eq!(NodeType::AudioShaderNode.inputs(), vec![s("audio"), s("notes")]);
    assert_eq!(NodeType::AudioShaderNode.outputs(), vec![s("audio")]);
    assert_eq!(NodeType::BufferOutputNode.inputs(), vec![s("audio")]);
    assert!(NodeType::EmptyNode.inputs().is_empty());
    assert_eq!(NodeType::NoteInputNode.outputs(), vec![s("notes")]);
    assert_eq!(NodeType::BufferInputNode.name(), "BufferInputNode");
    assert_eq!(NodeType::EmptyNode.name(), "EmptyNode");
    assert_eq!(NodeType::AudioShaderNode.name(), "AudioShaderNode");
    assert_eq!(NodeType::NoteInputNode.name(), "NoteInputNode");
    assert_eq!(NodeType::BufferOutputNode.name(), "BufferOutputNode");
}

#[test]
fn every_connector_joins_ports_of_equal_tag() {
    let mut g = chain();
    assert_eq!(g.add_node(8, NodeType::NoteInputNode), Ok(()));
    assert_eq!(g.connect(8, s("notes"), 4, s("notes")), Ok(()));
    assert_eq!(g.connect(8, s("notes"), 3, s("audio")), Err(GraphError::TagMismatch));
    for c in g.get_connections() {
        let from = g.get_node(c.from).unwrap().kind();
        let to = g.get_node(c.to).unwrap().kind();
        let out = from.find_output(&c.from_port);
        assert!(out.is_some());
        assert_eq!(out, to.find_input(&c.to_port));
    }
}

#[test]
fn a_cloned_graph_is_a_copy() {
    let g = chain();
    let mut h = g.clone();
    assert_eq!(ids(&h), ids(&g));
    assert_eq!(wires(&h), wires(&g));
    assert_eq!(h.remove_node(3), Ok(()));
    assert_eq!(ids(&g), vec![1, 2, 3, 4]);
    assert_eq!(wires(&g).len(), 3);
}
