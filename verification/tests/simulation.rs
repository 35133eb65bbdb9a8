use nalgebra::DVector;
use polisim::graph::{CongressGraph, Node, Party};
use polisim::majority::{Majority, Vote};
use polisim::dynamics::Visit;
use polisim::sim::Simulator;

const RULES: [Majority; 5] = [
    Majority::SIMPLE,
    Majority::SUPER,
    Majority::ABSSIMPLE,
    Majority::ABSSUPER,
    Majority::UNANIMITY,
];

fn cosine_similarity(a: &DVector<f64>, b: &DVector<f64>) -> f64 {
    let dot_product = a.dot(b);
    let norm_a = a.norm();
    let norm_b = b.norm();
    if norm_a.abs() < f64::EPSILON || norm_b.abs() < f64::EPSILON {
        0.0
    } else {
        dot_product / (norm_a * norm_b)
    }
}

fn alignment_plus_bias(node: &Node<f64>, proposal: &Vec<f64>) -> f64 {
    let ideal = DVector::from_vec(node.ideal.clone());
    let proposal = DVector::from_vec(proposal.clone());
    cosine_similarity(&ideal, &proposal) + node.bias
}

fn peer_pressure(peers: &[(f64, f64)]) -> f64 {
    let mut weighted_sum = 0.0;
    let mut total_weight = 0.0;
    for &(weight, score) in peers {
        weighted_sum += weight * score.signum();
        total_weight += weight;
    }
    if total_weight.abs() > f64::EPSILON {
        weighted_sum / total_weight
    } else {
        0.0
    }
}

fn party_pressure(party: &Option<(f64, Vec<f64>)>) -> f64 {
    match party {
        Some((discipline, scores)) if !scores.is_empty() => {
            let total_vote: f64 = scores.iter().map(|score| score.signum()).sum();
            discipline * (total_vote / scores.len() as f64)
        }
        _ => 0.0,
    }
}

fn blend(visit: Visit<f64>) -> f64 {
    let social_pressure = peer_pressure(&visit.peers) + party_pressure(&visit.party);
    (1.0 - visit.swing) * visit.score + visit.swing * social_pressure
}

fn against(threshold: f64) -> impl Fn(f64) -> (bool, bool) {
    move |score| (score > threshold, score < -threshold)
}

fn member(id: &str, ideal: Vec<f64>, bias: f64, swing: f64) -> Node<f64> {
    Node { id: id.to_string(), ideal, bias, swing }
}

fn scores_of(sim: &Simulator<f64>) -> Vec<f64> {
    (0..sim.congress().node_count()).map(|handle| sim.get_score(handle)).collect()
}

fn votes_of(sim: &Simulator<f64>) -> Vec<Vote> {
    (0..sim.congress().node_count()).map(|handle| sim.get_vote(handle)).collect()
}

/// Three members with the given swing and initial scores, A -> B with
/// weight 2, C -> B with weight 1, B -> C with weight 4; A and B share a
/// party of discipline 0.5.
fn small_congress(swing: f64) -> CongressGraph<f64> {
    let mut congress = CongressGraph::new();
    let a = congress.add_node(member("A", vec![1.0, 0.0], 0.0, swing));
    let b = congress.add_node(member("B", vec![0.0, 1.0], 0.0, swing));
    let c = congress.add_node(member("C", vec![-1.0, 0.0], 0.0, swing));
    congress.add_edge(a, b, 2.0);
    congress.add_edge(c, b, 1.0);
    congress.add_edge(b, c, 4.0);
    congress.add_party(Party { id: "P".to_string(), discipline: 0.5, members: vec![a, b] });
    congress
}

#[test]
fn the_initial_score_is_alignment_plus_bias() {
    let mut congress = CongressGraph::new();
    congress.add_node(member("A", vec![3.0, 4.0], 0.0, 0.5));
    congress.add_node(member("B", vec![-3.0, -4.0], 0.25, 0.5));
    congress.add_node(member("C", vec![-4.0, 3.0], -0.5, 0.5));
    congress.add_node(member("D", vec![0.0, 0.0], 0.125, 0.5));
    let sim = Simulator::new(&congress, vec![3.0, 4.0], alignment_plus_bias);
    assert_eq!(scores_of(&sim), vec![1.0, -0.75, -0.5, 0.125]);
    assert_eq!(sim.proposal(), &vec![3.0, 4.0]);
}

#[test]
fn every_member_abstains_before_the_run() {
    let congress = small_congress(0.5);
    let sim = Simulator::new(&congress, vec![1.0, 0.0], alignment_plus_bias);
    assert_eq!(votes_of(&sim), vec![Vote::Abstain; 3]);
    assert_eq!(
        sim.get_votes(),
        vec![
            ("A".to_string(), Vote::Abstain),
            ("B".to_string(), Vote::Abstain),
            ("C".to_string(), Vote::Abstain),
        ]
    );
    for rule in RULES {
        assert!(!sim.passes(rule), "{:?}", rule);
    }
}

#[test]
fn a_visit_reads_weights_and_scores_of_those_who_press() {
    let congress = small_congress(0.5);
    let sim = Simulator::new(&congress, Vec::new(), |node: &Node<f64>, _: &Vec<f64>| {
        match node.id.as_str() {
            "A" => 0.25,
            "B" => -0.5,
            _ => 0.75,
        }
    });
    assert_eq!(sim.peer_inputs(1), vec![(1.0, 0.75), (2.0, 0.25)]);
    assert_eq!(sim.peer_inputs(2), vec![(4.0, -0.5)]);
    assert_eq!(sim.peer_inputs(0), Vec::new());
    assert_eq!(sim.party_inputs(0), Some((0.5, vec![0.25, -0.5])));
    assert_eq!(sim.party_inputs(1), Some((0.5, vec![0.25, -0.5])));
    assert_eq!(sim.party_inputs(2), None);
}

#[test]
fn a_visit_stores_what_the_update_rule_answers() {
    let congress = small_congress(0.5);
    let mut sim = Simulator::new(&congress, Vec::new(), |_: &Node<f64>, _: &Vec<f64>| 1.0);
    sim.visit(1, &|visit: Visit<f64>| {
        assert_eq!(visit.swing, 0.5);
        assert_eq!(visit.score, 1.0);
        assert_eq!(visit.peers, vec![(1.0, 1.0), (2.0, 1.0)]);
        assert_eq!(visit.party, Some((0.5, vec![1.0, 1.0])));
        -3.5
    });
    assert_eq!(scores_of(&sim), vec![1.0, -3.5, 1.0]);
    assert_eq!(votes_of(&sim), vec![Vote::Abstain; 3]);
}

#[test]
fn a_fixed_schedule_gives_exact_scores() {
    let congress = small_congress(0.5);
    let mut sim = Simulator::new(&congress, Vec::new(), |node: &Node<f64>, _: &Vec<f64>| {
        match node.id.as_str() {
            "A" => 1.0,
            "B" => -1.0,
            _ => -0.5,
        }
    });
    sim.run_schedule(&vec![vec![1, 2, 0]], blend, against(0.1));
    // B: peers (1 * -1 + 2 * 1) / 3, party 0.5 * (1 - 1) / 2
    let b = 0.5 * -1.0 + 0.5 * (1.0 / 3.0);
    // C sees the new score of B, which is negative
    let c = 0.5 * -0.5 + 0.5 * -1.0;
    // A has no peers; its party is split between A and B
    let a = 0.5 * 1.0 + 0.5 * 0.0;
    assert_eq!(scores_of(&sim), vec![a, b, c]);
    assert_eq!(votes_of(&sim), vec![Vote::Yes, Vote::No, Vote::No]);
}

#[test]
fn later_visits_see_earlier_updates_of_the_same_round() {
    let mut congress = CongressGraph::new();
    let a = congress.add_node(member("A", vec![1.0], 0.0, 1.0));
    let b = congress.add_node(member("B", vec![1.0], 0.0, 1.0));
    congress.add_edge(a, b, 1.0);
    congress.add_edge(b, a, 1.0);
    let start = |node: &Node<f64>, _: &Vec<f64>| if node.id == "A" { 1.0 } else { -1.0 };

    let mut first = Simulator::new(&congress, Vec::new(), start);
    first.run_schedule(&vec![vec![0, 1]], blend, against(0.0));
    assert_eq!(scores_of(&first), vec![-1.0, -1.0]);

    let mut second = Simulator::new(&congress, Vec::new(), start);
    second.run_schedule(&vec![vec![1, 0]], blend, against(0.0));
    assert_eq!(scores_of(&second), vec![1.0, 1.0]);
}

#[test]
fn stubborn_members_keep_their_scores() {
    let congress = small_congress(0.0);
    let mut sim = Simulator::new(&congress, vec![1.0, 1.0], alignment_plus_bias);
    let before = scores_of(&sim);
    let rounds = sim.run(7, blend, against(0.1));
    assert_eq!(rounds.len(), 7);
    assert_eq!(scores_of(&sim), before);
}

#[test]
fn members_under_no_pressure_come_to_rest_in_one_round() {
    let mut congress = CongressGraph::new();
    congress.add_node(member("A", vec![1.0, 0.0], 0.5, 1.0));
    congress.add_node(member("B", vec![0.0, 1.0], -0.25, 1.0));
    congress.add_node(member("C", vec![-1.0, 0.0], 0.0, 1.0));
    let mut sim = Simulator::new(&congress, vec![1.0, 0.0], alignment_plus_bias);
    assert_eq!(scores_of(&sim), vec![1.5, -0.25, -1.0]);
    sim.run(1, blend, against(0.1));
    assert_eq!(scores_of(&sim), vec![0.0, 0.0, 0.0]);
    assert_eq!(votes_of(&sim), vec![Vote::Abstain; 3]);
    for rule in RULES {
        assert!(!sim.passes(rule), "{:?}", rule);
    }
}

#[test]
fn a_party_in_agreement_carries_the_proposal() {
    let mut congress = CongressGraph::new();
    let a = congress.add_node(member("A", vec![3.0, 4.0], 0.0, 1.0));
    let b = congress.add_node(member("B", vec![3.0, 4.0], 0.0, 1.0));
    let c = congress.add_node(member("C", vec![3.0, 4.0], 0.0, 1.0));
    congress.add_party(Party { id: "P".to_string(), discipline: 1.0, members: vec![a, b, c] });
    congress.add_edge(a, b, 1.0);
    let mut sim = Simulator::new(&congress, vec![3.0, 4.0], alignment_plus_bias);
    assert_eq!(scores_of(&sim), vec![1.0, 1.0, 1.0]);
    sim.run(1, |visit: Visit<f64>| {
        assert_eq!(party_pressure(&visit.party), 1.0);
        blend(visit)
    }, against(0.1));
    // A and C feel the party alone; B also feels A.
    assert_eq!(scores_of(&sim), vec![1.0, 2.0, 1.0]);
    assert_eq!(votes_of(&sim), vec![Vote::Yes; 3]);
    assert!(sim.passes(Majority::SIMPLE));
    assert!(sim.passes(Majority::UNANIMITY));
    assert_eq!(sim.vote_of(&"B".to_string()), Some(Vote::Yes));
}

#[test]
fn votes_follow_the_threshold() {
    let mut congress = CongressGraph::new();
    for (id, bias) in [("A", 0.5), ("B", 0.25), ("C", 0.0), ("D", -0.25), ("E", -0.5)] {
        congress.add_node(member(id, vec![0.0], bias, 0.0));
    }
    let mut sim = Simulator::new(&congress, vec![0.0], alignment_plus_bias);
    sim.cast_votes(&against(0.25));
    assert_eq!(
        votes_of(&sim),
        vec![Vote::Yes, Vote::Abstain, Vote::Abstain, Vote::Abstain, Vote::No]
    );
    assert_eq!(scores_of(&sim), vec![0.5, 0.25, 0.0, -0.25, -0.5]);
    assert!(!sim.passes(Majority::SIMPLE));
    sim.cast_votes(&against(0.0));
    assert_eq!(votes_of(&sim), vec![Vote::Yes, Vote::Yes, Vote::Abstain, Vote::No, Vote::No]);
}

#[test]
fn a_vote_is_found_by_id() {
    let mut congress = CongressGraph::new();
    congress.add_node(member("A", vec![0.0], 1.0, 0.0));
    congress.add_node(member("B", vec![0.0], -1.0, 0.0));
    congress.add_node(member("A", vec![0.0], 0.0, 0.0));
    let mut sim = Simulator::new(&congress, vec![0.0], alignment_plus_bias);
    sim.run(3, blend, against(0.5));
    assert_eq!(sim.get_vote(0), Vote::Yes);
    assert_eq!(sim.vote_of(&"A".to_string()), Some(Vote::Abstain));
    assert_eq!(sim.vote_of(&"B".to_string()), Some(Vote::No));
    assert_eq!(sim.vote_of(&"C".to_string()), None);
    assert_eq!(
        sim.get_votes(),
        vec![
            ("A".to_string(), Vote::Yes),
            ("B".to_string(), Vote::No),
            ("A".to_string(), Vote::Abstain),
        ]
    );
}

#[test]
fn every_round_visits_every_member_once() {
    let mut congress = CongressGraph::new();
    for handle in 0..30 {
        congress.add_node(member(&format!("M{}", handle), vec![0.0], 0.0, 0.0));
    }
    let sim = Simulator::new(&congress, vec![0.0], alignment_plus_bias);
    let rounds = sim.schedule(20);
    assert_eq!(rounds.len(), 20);
    let rising: Vec<usize> = (0..30).collect();
    for order in &rounds {
        let mut sorted = order.clone();
        sorted.sort();
        assert_eq!(sorted, rising);
    }
    // Twenty draws that all come out in rising order are no shuffle.
    assert!(rounds.iter().any(|order| order != &rising));
}

#[test]
fn no_round_leaves_scores_and_casts_votes() {
    let congress = small_congress(1.0);
    let mut sim = Simulator::new(&congress, Vec::new(), |_: &Node<f64>, _: &Vec<f64>| 0.5);
    let rounds = sim.run(0, blend, against(0.1));
    assert!(rounds.is_empty());
    assert_eq!(scores_of(&sim), vec![0.5, 0.5, 0.5]);
    assert_eq!(votes_of(&sim), vec![Vote::Yes; 3]);
}

#[test]
fn an_empty_congress_runs_and_passes_nothing() {
    let congress: CongressGraph<f64> = CongressGraph::new();
    let mut sim = Simulator::new(&congress, vec![1.0], alignment_plus_bias);
    let rounds = sim.run(3, blend, against(0.1));
    assert_eq!(rounds, vec![Vec::<usize>::new(); 3]);
    assert!(sim.get_votes().is_empty());
    for rule in RULES {
        assert!(!sim.passes(rule), "{:?}", rule);
    }
}
