use gpig::commit::CommitNode;
use gpig::entities::commit::CommitNode as Commit;
use gpig::edge::Edge;
use gpig::garph::{Garph, GAP_ROW, LIMIT_ROW};
use gpig::oid::Oid;
use gpig::point::Point;

fn id(n: u32) -> Oid {
    Oid::new(0, 0, n)
}

fn commit(n: u32, parents: &[u32]) -> Commit {
    Commit::new(
        id(n),
        format!("commit {}\n\nbody", n),
        format!("author{}@example.com", n),
        1_700_000_000 + n as i64,
        parents.iter().map(|p| id(*p)).collect(),
    )
}

fn chain(len: u32) -> Vec<Commit> {
    (0..len).map(|i| commit(i, &[i + 1])).collect()
}

fn pt(x: u128, y: u128) -> Point {
    Point::new(x, y)
}

fn summary(nodes: &[CommitNode]) -> Vec<(Oid, Point, usize)> {
    nodes.iter().map(|n| (n.oid, n.position, n.color)).collect()
}

#[test]
fn empty_stream_lays_out_nothing() {
    let mut g = Garph::new();
    g.recompute(&Vec::new());
    assert!(g.nodes().is_empty());
    assert!(g.edges().is_empty());
    assert_eq!(g.content_height(), GAP_ROW);
    assert_eq!(g.max_lane(), 0);
}

#[test]
fn straight_chain_positions_and_edges() {
    let mut g = Garph::new();
    g.recompute(&chain(3));
    assert_eq!(
        summary(g.nodes()),
        vec![(id(0), pt(30, 0), 0), (id(1), pt(30, 20), 0), (id(2), pt(30, 40), 0)]
    );
    assert_eq!(
        g.edges(),
        &vec![Edge::new(pt(35, 0), pt(35, 20), 0), Edge::new(pt(35, 20), pt(35, 40), 0)]
    );
    assert_eq!(g.content_height(), 3 * 20 + 40);
    assert_eq!(g.max_lane(), 0);
}

#[test]
fn nodes_keep_commit_data() {
    let mut g = Garph::new();
    let commits = vec![commit(7, &[8, 9])];
    g.recompute(&commits);
    let node = &g.nodes()[0];
    assert_eq!(node.oid, id(7));
    assert_eq!(node.message, "commit 7\n\nbody");
    assert_eq!(node.author, "author7@example.com");
    assert_eq!(node.timestamp, 1_700_000_007);
    assert_eq!(node.parents, vec![id(8), id(9)]);
}

#[test]
fn branch_and_merge_layout() {
    // 1 splits into 2 and 3; 3 is shown first; both lead to the root 4.
    let commits = vec![commit(1, &[2, 3]), commit(3, &[4]), commit(2, &[4]), commit(4, &[])];
    let mut g = Garph::new();
    g.recompute(&commits);
    assert_eq!(
        summary(g.nodes()),
        vec![
            (id(1), pt(30, 0), 0),
            (id(3), pt(45, 20), 1),
            (id(2), pt(30, 40), 0),
            (id(4), pt(30, 60), 0),
        ]
    );
    assert_eq!(
        g.edges(),
        &vec![
            Edge::new(pt(50, 20), pt(35, 0), 1),
            Edge::new(pt(35, 0), pt(35, 40), 0),
            Edge::new(pt(50, 20), pt(35, 60), 1),
            Edge::new(pt(35, 40), pt(35, 60), 0),
        ]
    );
    assert_eq!(g.max_lane(), 1);
    assert_eq!(g.content_height(), 4 * 20 + 40);
}

#[test]
fn closed_lane_color_goes_to_next_new_lane() {
    // 3's lane (lane 1, color 1) closes when it merges into 4; lane 2, the next lane that
    // asks for a color, gets color 1 back instead of a fresh one.
    let commits = vec![
        commit(1, &[2, 3]),
        commit(3, &[4]),
        commit(2, &[4]),
        commit(4, &[5, 6]),
        commit(5, &[8, 9]),
        commit(9, &[10]),
    ];
    let mut g = Garph::new();
    g.recompute(&commits);
    let nodes = g.nodes();
    assert_eq!(nodes[1].color, 1);
    assert_eq!(nodes[4].color, 0);
    assert_eq!(nodes[5].position, pt(60, 100));
    assert_eq!(nodes[5].color, 1);
}

#[test]
fn row_cap_keeps_first_rows() {
    for cap in [1usize, 3, 7] {
        let commits = chain((10 * cap) as u32);
        let mut g = Garph::new();
        g.recompute_with_limit(&commits, cap);
        assert_eq!(g.nodes().len(), cap);
        assert_eq!(g.nodes()[cap - 1].oid, id((cap - 1) as u32));
        assert_eq!(g.content_height(), cap as u128 * 20 + 40);
    }
}

#[test]
fn default_row_cap() {
    let commits = chain(10 * LIMIT_ROW as u32);
    let mut g = Garph::new();
    g.recompute(&commits);
    assert_eq!(g.nodes().len(), LIMIT_ROW);
}

#[test]
fn layout_is_deterministic() {
    let commits = vec![
        commit(1, &[2, 3, 4]),
        commit(2, &[5]),
        commit(3, &[5]),
        commit(4, &[]),
        commit(5, &[6]),
    ];
    let mut first = Garph::new();
    first.recompute(&commits);
    let mut second = Garph::new();
    second.recompute(&commits);
    assert_eq!(summary(first.nodes()), summary(second.nodes()));
    assert_eq!(first.edges(), second.edges());
    assert_eq!(first.max_lane(), second.max_lane());
    // Laying out again on the same graph gives the same result too.
    first.recompute(&commits);
    assert_eq!(summary(first.nodes()), summary(second.nodes()));
    assert_eq!(first.edges(), second.edges());
}
