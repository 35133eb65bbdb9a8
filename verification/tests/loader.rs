use polisim::graph::{Node, Party};
use polisim::loader::{
    build_congress_graph, LoadError, RawConfig, RawEdge, RawMember, RawParty,
};

fn member(id: &str, ideal: Vec<f64>) -> RawMember<f64> {
    RawMember { id: id.to_string(), ideal, bias: 0.1, swing: 0.7 }
}

fn edge(from: &str, to: &str, weight: f64) -> RawEdge<f64> {
    RawEdge { from: from.to_string(), to: to.to_string(), weight }
}

fn party(id: &str, members: &[&str]) -> RawParty<f64> {
    RawParty {
        id: id.to_string(),
        discipline: 0.8,
        members: members.iter().map(|m| m.to_string()).collect(),
    }
}

fn config() -> RawConfig<f64> {
    RawConfig {
        ideal_dimension: 2,
        congress_members: vec![
            member("A", vec![1.0, 0.0]),
            member("B", vec![0.0, 1.0]),
            member("C", vec![0.5, 0.5]),
        ],
        parties: vec![party("P", &["A", "C"]), party("Q", &["B"])],
        edges: Some(vec![edge("A", "B", 0.5), edge("C", "B", 1.5), edge("B", "A", 2.0)]),
    }
}

#[test]
fn a_valid_configuration_is_built() {
    let congress = build_congress_graph(config()).unwrap();
    assert_eq!(congress.node_count(), 3);
    assert_eq!(
        congress.node(0),
        &Node { id: "A".to_string(), ideal: vec![1.0, 0.0], bias: 0.1, swing: 0.7 }
    );
    assert_eq!(congress.node(1).ideal, vec![0.0, 1.0]);
    assert_eq!(congress.node(2).id, "C");
    assert_eq!(congress.ideal_dimension(), Some(2));
    assert_eq!(congress.edge_count(), 3);
    assert_eq!(congress.incoming(1), vec![(2, 1.5), (0, 0.5)]);
    assert_eq!(congress.incoming(0), vec![(1, 2.0)]);
    assert_eq!(
        congress.get_party(0),
        Some(&Party { id: "P".to_string(), discipline: 0.8, members: vec![0, 2] })
    );
    assert_eq!(congress.get_party(1).unwrap().members, vec![1]);
    assert_eq!(congress.get_party_index(2), Some(0));
    assert_eq!(congress.get_party_index(1), Some(1));
}

#[test]
fn a_configuration_needs_no_edge_list() {
    let mut raw = config();
    raw.edges = None;
    let congress = build_congress_graph(raw).unwrap();
    assert_eq!(congress.node_count(), 3);
    assert_eq!(congress.edge_count(), 0);
}

#[test]
fn an_empty_configuration_gives_an_empty_congress() {
    let raw: RawConfig<f64> = RawConfig {
        ideal_dimension: 4,
        congress_members: Vec::new(),
        parties: Vec::new(),
        edges: None,
    };
    let congress = build_congress_graph(raw).unwrap();
    assert_eq!(congress.node_count(), 0);
    assert_eq!(congress.ideal_dimension(), None);
}

#[test]
fn a_wrong_dimension_is_reported() {
    let mut raw = config();
    raw.congress_members[1].ideal = vec![0.0, 1.0, 2.0];
    raw.congress_members[2].ideal = Vec::new();
    assert_eq!(
        build_congress_graph(raw).err(),
        Some(LoadError::DimensionMismatch { member: "B".to_string(), found: 3, expected: 2 })
    );
}

#[test]
fn an_unknown_edge_source_is_reported() {
    let mut raw = config();
    raw.edges = Some(vec![edge("A", "B", 0.5), edge("X", "Y", 1.0), edge("Z", "A", 1.0)]);
    assert_eq!(
        build_congress_graph(raw).err(),
        Some(LoadError::UnknownEdgeSource { id: "X".to_string() })
    );
}

#[test]
fn an_unknown_edge_target_is_reported() {
    let mut raw = config();
    raw.edges = Some(vec![edge("A", "Y", 0.5), edge("X", "B", 1.0)]);
    assert_eq!(
        build_congress_graph(raw).err(),
        Some(LoadError::UnknownEdgeTarget { id: "Y".to_string() })
    );
}

#[test]
fn an_unknown_party_member_is_reported() {
    let mut raw = config();
    raw.parties = vec![party("P", &["A"]), party("Q", &["B", "X", "Y"]), party("R", &["Z"])];
    assert_eq!(
        build_congress_graph(raw).err(),
        Some(LoadError::UnknownPartyMember { party: "Q".to_string(), member: "X".to_string() })
    );
}

#[test]
fn members_are_examined_before_edges_and_edges_before_parties() {
    let mut raw = config();
    raw.parties = vec![party("P", &["X"])];
    raw.edges = Some(vec![edge("A", "Y", 0.5)]);
    assert_eq!(
        build_congress_graph(raw.clone()).err(),
        Some(LoadError::UnknownEdgeTarget { id: "Y".to_string() })
    );
    raw.congress_members[0].ideal = vec![1.0];
    assert_eq!(
        build_congress_graph(raw).err(),
        Some(LoadError::DimensionMismatch { member: "A".to_string(), found: 1, expected: 2 })
    );
}

#[test]
fn a_repeated_id_means_the_member_configured_last() {
    let mut raw = config();
    raw.congress_members.push(member("A", vec![0.0, 0.0]));
    raw.parties = vec![party("P", &["A", "B"])];
    raw.edges = Some(vec![edge("A", "B", 0.5), edge("B", "A", 0.25)]);
    let congress = build_congress_graph(raw).unwrap();
    assert_eq!(congress.node_count(), 4);
    assert_eq!(congress.incoming(1), vec![(3, 0.5)]);
    assert_eq!(congress.incoming(3), vec![(1, 0.25)]);
    assert_eq!(congress.incoming(0), Vec::new());
    assert_eq!(congress.get_party(0).unwrap().members, vec![3, 1]);
    assert_eq!(congress.get_party_index(0), None);
    assert_eq!(congress.get_party_index(3), Some(0));
}
