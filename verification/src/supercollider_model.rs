//! The model of a SuperCollider server's node tree (groups and synths).
use vstd::prelude::*;

verus! {

/// Whether a node is a group or a synth.
#[derive(Clone, Copy, Debug, PartialEq, Eq, Structural)]
pub enum SupercolliderNodeKind {
    Group,
    Synth,
}

/// One node of the server's node tree.
#[derive(Clone, Debug)]
pub struct SupercolliderNodeSummary {
    pub id: i32,
    pub name: Option<String>,
    pub kind: SupercolliderNodeKind,
}

/// The characters of a node's name, if it has one.
pub open spec fn node_name(n: SupercolliderNodeSummary) -> Option<Seq<char>> {
    match n.name {
        Some(s) => Some(s@),
        None => None,
    }
}

/// The nodes of the placeholder snapshot: the root group (id 0) and one
/// example synth (id 1000).
pub fn bootstrap_placeholder_nodes() -> (nodes: Vec<SupercolliderNodeSummary>)
    ensures
        nodes@.len() == 2,
        nodes@[0].id == 0,
        node_name(nodes@[0]) == Some("root"@),
        nodes@[0].kind == SupercolliderNodeKind::Group,
        nodes@[1].id == 1000,
        node_name(nodes@[1]) == Some("example_synth"@),
        nodes@[1].kind == SupercolliderNodeKind::Synth,
{
    let mut nodes: Vec<SupercolliderNodeSummary> = Vec::new();
    nodes.push(
        SupercolliderNodeSummary {
            id: 0,
            name: Some(String::from_str("root")),
            kind: SupercolliderNodeKind::Group,
        },
    );
    nodes.push(
        SupercolliderNodeSummary {
            id: 1000,
            name: Some(String::from_str("example_synth")),
            kind: SupercolliderNodeKind::Synth,
        },
    );
    nodes
}

} // verus!
