use supercollider_mcp::supercollider_model::{bootstrap_placeholder_nodes, SupercolliderNodeKind};

#[test]
fn placeholder_nodes() {
    let nodes = bootstrap_placeholder_nodes();
    assert_eq!(nodes.len(), 2);
    assert_eq!(nodes[0].id, 0);
    assert_eq!(nodes[0].name.as_deref(), Some("root"));
    assert_eq!(nodes[0].kind, SupercolliderNodeKind::Group);
    assert_eq!(nodes[1].id, 1000);
    assert_eq!(nodes[1].name.as_deref(), Some("example_synth"));
    assert_eq!(nodes[1].kind, SupercolliderNodeKind::Synth);
}
