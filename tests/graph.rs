use webxr::graph::{build_graph_from_metadata, GraphData, MetadataEntry};
use webxr::node::Node;
use webxr::wire::{encode_node_data, ProtocolError, Vec3Bits, WireRecord};

fn entry(name: &str, refs: &[(&str, u64)]) -> MetadataEntry {
    MetadataEntry {
        file_name: name.to_string(),
        file_size: 1000,
        hyperlink_count: 0,
        sha1: String::new(),
        last_modified: 0,
        topic_counts: refs.iter().map(|(t, c)| (t.to_string(), *c)).collect(),
    }
}

fn edge_list(g: &GraphData) -> Vec<(String, String, u64)> {
    g.edges.iter().map(|e| (e.source.clone(), e.target.clone(), e.weight)).collect()
}

fn three(x: f32) -> Vec3Bits {
    Vec3Bits { x: x.to_bits(), y: x.to_bits(), z: x.to_bits() }
}

#[test]
fn minimum_graph_has_one_node_and_no_edges() {
    let g = build_graph_from_metadata(vec![entry("a.md", &[])], &vec![12]);
    assert_eq!(g.nodes.len(), 1);
    assert_eq!(g.nodes[0].id, "a");
    assert_eq!(g.nodes[0].label, "a");
    assert_eq!(g.nodes[0].data.mass, 12);
    assert_eq!(g.nodes[0].data.flags, 1);
    assert_eq!(g.nodes[0].file_size, 1000);
    assert!(g.edges.is_empty());
    assert_eq!(g.metadata.len(), 1);
}

#[test]
fn symmetric_references_sum_into_one_edge() {
    let md = vec![entry("a.md", &[("b.md", 2)]), entry("b.md", &[("a.md", 1)])];
    let g = build_graph_from_metadata(md, &vec![1, 1]);
    assert_eq!(edge_list(&g), vec![("a".to_string(), "b".to_string(), 3)]);
}

#[test]
fn dangling_self_and_zero_references_make_no_edge() {
    let md = vec![
        entry("a.md", &[("a.md", 4), ("missing.md", 2), ("b", 0)]),
        entry("b.md", &[]),
    ];
    let g = build_graph_from_metadata(md, &vec![1, 1]);
    assert!(g.edges.is_empty());
}

#[test]
fn edges_are_sorted_by_endpoint_pair() {
    let md = vec![
        entry("c.md", &[("a.md", 1), ("b.md", 5)]),
        entry("b.md", &[("a.md", 2)]),
        entry("a.md", &[]),
    ];
    let g = build_graph_from_metadata(md, &vec![1, 2, 3]);
    let ids: Vec<String> = g.nodes.iter().map(|n| n.id.clone()).collect();
    assert_eq!(ids, vec!["c", "b", "a"]);
    assert_eq!(
        edge_list(&g),
        vec![
            ("a".to_string(), "b".to_string(), 2),
            ("a".to_string(), "c".to_string(), 1),
            ("b".to_string(), "c".to_string(), 5),
        ]
    );
}

#[test]
fn names_sharing_an_id_make_one_node() {
    let md = vec![entry("a.md", &[]), entry("a", &[]), entry("x.md.md", &[])];
    let g = build_graph_from_metadata(md, &vec![4, 5, 6]);
    let ids: Vec<String> = g.nodes.iter().map(|n| n.id.clone()).collect();
    assert_eq!(ids, vec!["a", "x"]);
    assert_eq!(g.nodes[0].data.mass, 4);
    assert_eq!(g.nodes[1].data.mass, 6);
}

#[test]
fn rebuilding_gives_the_same_graph() {
    let md = vec![entry("a.md", &[("b.md", 2)]), entry("b.md", &[("a.md", 1), ("c.md", 7)]), entry("c.md", &[])];
    let g1 = build_graph_from_metadata(md.clone(), &vec![1, 2, 3]);
    let g2 = build_graph_from_metadata(md, &vec![1, 2, 3]);
    let n1: Vec<(String, u8)> = g1.nodes.iter().map(|n| (n.id.clone(), n.data.mass)).collect();
    let n2: Vec<(String, u8)> = g2.nodes.iter().map(|n| (n.id.clone(), n.data.mass)).collect();
    assert_eq!(n1, n2);
    assert_eq!(edge_list(&g1), edge_list(&g2));
}

fn graph_with_node_42() -> GraphData {
    let mut g = build_graph_from_metadata(vec![entry("42.md", &[]), entry("7.md", &[])], &vec![200, 9]);
    g.nodes[0].data.flags = 3;
    g
}

#[test]
fn inbound_edit_preserves_mass_and_flags() {
    let mut g = graph_with_node_42();
    let frame = encode_node_data(&vec![WireRecord { id: 42, position: three(5.0), velocity: three(0.0) }]);
    assert_eq!(g.apply_inbound_frame(&frame), Ok(()));
    let n = &g.nodes[0];
    assert_eq!(n.data.position, three(5.0));
    assert_eq!(n.data.velocity, three(0.0));
    assert_eq!(n.data.mass, 200);
    assert_eq!(n.data.flags, 3);
    assert_eq!(g.nodes[1].data.position, three(0.0));
}

#[test]
fn applying_a_frame_twice_equals_once() {
    let mut once = graph_with_node_42();
    let mut twice = graph_with_node_42();
    let frame = encode_node_data(&vec![
        WireRecord { id: 7, position: three(1.0), velocity: three(2.0) },
        WireRecord { id: 42, position: three(-3.0), velocity: three(0.5) },
    ]);
    once.apply_inbound_frame(&frame).unwrap();
    twice.apply_inbound_frame(&frame).unwrap();
    twice.apply_inbound_frame(&frame).unwrap();
    let a: Vec<_> = once.nodes.iter().map(|n| n.data).collect();
    let b: Vec<_> = twice.nodes.iter().map(|n| n.data).collect();
    assert_eq!(a, b);
}

#[test]
fn oversize_inbound_frame_changes_nothing() {
    let mut g = graph_with_node_42();
    let before: Vec<_> = g.nodes.iter().map(|n| n.data).collect();
    let frame = encode_node_data(&vec![
        WireRecord { id: 42, position: three(5.0), velocity: three(5.0) },
        WireRecord { id: 7, position: three(5.0), velocity: three(5.0) },
        WireRecord { id: 42, position: three(6.0), velocity: three(6.0) },
    ]);
    assert_eq!(frame.len(), 78);
    assert_eq!(g.apply_inbound_frame(&frame), Err(ProtocolError::TooManyRecords(3)));
    let after: Vec<_> = g.nodes.iter().map(|n| n.data).collect();
    assert_eq!(before, after);
}

#[test]
fn unknown_inbound_ids_are_skipped() {
    let mut g = graph_with_node_42();
    let frame = encode_node_data(&vec![WireRecord { id: 8, position: three(5.0), velocity: three(5.0) }]);
    assert_eq!(g.apply_inbound_frame(&frame), Ok(()));
    assert_eq!(g.nodes[0].data.position, three(0.0));
    assert_eq!(g.nodes[1].data.position, three(0.0));
}

#[test]
fn new_node_is_active_at_origin() {
    let n = Node::new("n1".to_string());
    assert_eq!(n.id, "n1");
    assert_eq!(n.label, "n1");
    assert_eq!(n.data.flags, 1);
    assert_eq!(n.data.mass, 0);
    assert_eq!(n.data.position, three(0.0));
}

#[test]
fn nodes_carry_document_metadata_strings() {
    let mut e = entry("a.md", &[]);
    e.file_size = 1234;
    e.hyperlink_count = 0;
    e.last_modified = 1_700_000_000;
    let g = build_graph_from_metadata(vec![e], &vec![1]);
    let md: Vec<(String, String)> = g.nodes[0].metadata.clone();
    assert_eq!(
        md,
        vec![
            ("fileSize".to_string(), "1234".to_string()),
            ("hyperlinkCount".to_string(), "0".to_string()),
            ("lastModified".to_string(), "1700000000".to_string()),
        ]
    );
}

#[test]
fn rebuild_keeps_motion_of_surviving_nodes() {
    let mut old = build_graph_from_metadata(vec![entry("a.md", &[]), entry("b.md", &[])], &vec![1, 1]);
    old.nodes[1].data.position = three(2.0);
    old.nodes[1].data.velocity = three(0.25);
    let mut new = build_graph_from_metadata(vec![entry("b.md", &[]), entry("c.md", &[])], &vec![7, 8]);
    let fresh = new.carry_over_motion(&old);
    assert_eq!(fresh, vec![false, true]);
    assert_eq!(new.nodes[0].data.position, three(2.0));
    assert_eq!(new.nodes[0].data.velocity, three(0.25));
    assert_eq!(new.nodes[0].data.mass, 7);
    assert_eq!(new.nodes[1].data.position, three(0.0));
}

#[test]
fn physics_write_back_keeps_mass_and_flags() {
    let mut g = graph_with_node_42();
    let mut update = Node::new("ignored".to_string());
    update.data.position = three(1.5);
    update.data.velocity = three(-0.5);
    update.data.mass = 9;
    update.data.flags = 0;
    g.update_node_positions(vec![(42, update.clone()), (99, update)]);
    assert_eq!(g.nodes[0].data.position, three(1.5));
    assert_eq!(g.nodes[0].data.velocity, three(-0.5));
    assert_eq!(g.nodes[0].data.mass, 200);
    assert_eq!(g.nodes[0].data.flags, 3);
    assert_eq!(g.nodes[1].data.position, three(0.0));
}

#[test]
fn test_node_creation() {
    let node = Node::new("test".to_string())
        .with_position(1.0f32.to_bits(), 2.0f32.to_bits(), 3.0f32.to_bits())
        .with_velocity(0.1f32.to_bits(), 0.2f32.to_bits(), 0.3f32.to_bits())
        .with_label("Test Node".to_string())
        .with_type("test_type".to_string())
        .with_size(1.5f32.to_bits())
        .with_color("#FF0000".to_string())
        .with_weight(2.0f32.to_bits())
        .with_group("group1".to_string());

    let floats = |v: Vec3Bits| [f32::from_bits(v.x), f32::from_bits(v.y), f32::from_bits(v.z)];
    assert_eq!(node.id, "test");
    assert_eq!(node.label, "Test Node");
    assert_eq!(floats(node.data.position), [1.0, 2.0, 3.0]);
    assert_eq!(floats(node.data.velocity), [0.1, 0.2, 0.3]);
    assert_eq!(node.node_type, Some("test_type".to_string()));
    assert_eq!(node.size.map(f32::from_bits), Some(1.5));
    assert_eq!(node.color, Some("#FF0000".to_string()));
    assert_eq!(node.weight.map(f32::from_bits), Some(2.0));
    assert_eq!(node.group, Some("group1".to_string()));
}

#[test]
fn test_position_velocity_getters_setters() {
    let mut node = Node::new("test".to_string());

    node.set_x(1.0f32.to_bits());
    node.set_y(2.0f32.to_bits());
    node.set_z(3.0f32.to_bits());
    node.set_vx(0.1f32.to_bits());
    node.set_vy(0.2f32.to_bits());
    node.set_vz(0.3f32.to_bits());

    assert_eq!(f32::from_bits(node.x()), 1.0);
    assert_eq!(f32::from_bits(node.y()), 2.0);
    assert_eq!(f32::from_bits(node.z()), 3.0);
    assert_eq!(f32::from_bits(node.vx()), 0.1);
    assert_eq!(f32::from_bits(node.vy()), 0.2);
    assert_eq!(f32::from_bits(node.vz()), 0.3);
}

#[test]
fn node_metadata_and_file_size() {
    let mut n = Node::new("test".to_string())
        .with_metadata("k".to_string(), "v".to_string())
        .with_metadata("j".to_string(), "w".to_string())
        .with_metadata("k".to_string(), "x".to_string());
    assert_eq!(
        n.metadata,
        vec![("j".to_string(), "w".to_string()), ("k".to_string(), "x".to_string())]
    );
    assert_eq!(n.user_data, None);
    n.set_file_size(100, 12);
    assert_eq!(n.file_size, 100);
    assert_eq!(n.data.mass, 12);
    assert_eq!(n.data.flags, 1);
}
