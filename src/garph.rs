use vstd::prelude::*;

use crate::color::{
    color_for, color_state_wf, default_palette, fresh_colors, lemma_color_for_wf,
    lemma_release_lane_wf, release_lane, ColorManager, ColorState,
};
use crate::commit::CommitNode;
use crate::entities;
use crate::edge::{Edge, EdgeManager};
use crate::entities::lane::{merge_assign, LaneManager};
use crate::history_oid::{pending_for, HistoryOid, HistoryOids};
use crate::lane::lanes_wf;
use crate::oid::Oid;
use crate::point::Point;

verus! {

/// Left margin before the first lane.
pub const START_X: u128 = 30;

/// Distance between two lanes.
pub const LANE_WIDTH: u128 = 15;

/// Distance between two rows.
pub const COMMIT_HEIGHT: u128 = 20;

/// Width of a commit's dot; edges meet at its middle.
pub const SIZE: u128 = 10;

/// Room left below the last row.
pub const GAP_ROW: u128 = 40;

/// Room between the widest lane and the text of the rows.
pub const TEXT_MARGIN: u128 = 20;

/// Rows laid out by one pass at most.
pub const LIMIT_ROW: usize = 100;

/// Colors in the default palette.
pub const PALETTE_SIZE: usize = 5;

/// Where the commit of `row` drawn in `lane` stands.
pub open spec fn node_position(lane: int, row: int) -> Point {
    Point { x: (START_X + lane * LANE_WIDTH) as u128, y: (COMMIT_HEIGHT * row) as u128 }
}

/// Where edges meet a commit drawn at `position`.
pub open spec fn anchor_of(position: Point) -> Point {
    Point { x: (position.x + SIZE / 2) as u128, y: position.y }
}

/// What the layout of a stream depends on: each commit's id and parents.
pub open spec fn shape(commits: Seq<entities::commit::CommitNode>) -> Seq<(Oid, Seq<Oid>)> {
    commits.map_values(|c: entities::commit::CommitNode| (c.oid, c.parents@))
}

/// The state of a pass: the lane table, the palette, the pending ends, the finished edges,
/// each placed commit's id, position and color, and the widest lane used.
pub struct LayoutState {
    pub lanes: Seq<Option<Oid>>,
    pub colors: ColorState,
    pub pending: Seq<(Oid, HistoryOid)>,
    pub edges: Seq<Edge>,
    pub placed: Seq<(Oid, Point, nat)>,
    pub max_lane: nat,
}

pub open spec fn initial_layout() -> LayoutState {
    LayoutState {
        lanes: Seq::empty(),
        colors: fresh_colors(PALETTE_SIZE as nat),
        pending: Seq::empty(),
        edges: Seq::empty(),
        placed: Seq::empty(),
        max_lane: 0,
    }
}

/// The edges into a commit, one per pending end, with the palette after them.
///
/// An end to the right of the anchor curves in from its own lane, in its own color, and
/// that lane's color is given back unless it is lane 0; an end to the left is reached from
/// the anchor in the commit's color; an end straight above joins in its own color.
pub open spec fn connect(
    edges: Seq<Edge>,
    colors: ColorState,
    ends: Seq<HistoryOid>,
    anchor: Point,
    color: nat,
) -> (Seq<Edge>, ColorState)
    decreases ends.len(),
{
    if ends.len() == 0 {
        (edges, colors)
    } else {
        let (e, c) = connect(edges, colors, ends.drop_last(), anchor, color);
        let h = ends.last();
        if h.point.x > anchor.x {
            (
                e.push(Edge { from: h.point, to: anchor, color: h.color }),
                if h.lane > 0 {
                    release_lane(c, h.lane as int)
                } else {
                    c
                },
            )
        } else if h.point.x < anchor.x {
            (e.push(Edge { from: anchor, to: h.point, color: color as usize }), c)
        } else {
            (e.push(Edge { from: h.point, to: anchor, color: h.color }), c)
        }
    }
}

/// The pending ends after a commit's parents each get one at `end`.
pub open spec fn register(
    pending: Seq<(Oid, HistoryOid)>,
    parents: Seq<Oid>,
    end: HistoryOid,
) -> Seq<(Oid, HistoryOid)> {
    pending + parents.map_values(|p: Oid| (p, end))
}

/// One commit laid out in `row`.
pub open spec fn layout_step(st: LayoutState, commit: (Oid, Seq<Oid>), row: int) -> LayoutState {
    let (lanes, lane) = merge_assign(st.lanes, commit.0, commit.1);
    let (colors, color) = color_for(st.colors, lane);
    let position = node_position(lane, row);
    let anchor = anchor_of(position);
    let (edges, colors_after) = connect(
        st.edges,
        colors,
        pending_for(st.pending, commit.0),
        anchor,
        color,
    );
    LayoutState {
        lanes,
        colors: colors_after,
        pending: register(
            st.pending,
            commit.1,
            HistoryOid { point: anchor, color: color as usize, lane: lane as usize },
        ),
        edges,
        placed: st.placed.push((commit.0, position, color)),
        max_lane: if lane > st.max_lane {
            lane as nat
        } else {
            st.max_lane
        },
    }
}

/// The state after the first `n` commits of the stream.
pub open spec fn layout_prefix(commits: Seq<(Oid, Seq<Oid>)>, n: nat) -> LayoutState
    decreases n,
{
    if n == 0 {
        initial_layout()
    } else {
        layout_step(layout_prefix(commits, (n - 1) as nat), commits[n - 1], n - 1)
    }
}

/// Rows one pass lays out: the row cap, or fewer when the stream is shorter.
pub open spec fn rows(len: nat, limit: nat) -> nat {
    if len < limit {
        len
    } else {
        limit
    }
}

/// What a pass keeps between steps.
pub open spec fn layout_wf(st: LayoutState) -> bool {
    &&& lanes_wf(st.lanes)
    &&& color_state_wf(st.colors)
    &&& st.colors.size == PALETTE_SIZE
}

/// Resolving pending ends keeps the palette state well formed.
pub proof fn lemma_connect_wf(
    edges: Seq<Edge>,
    colors: ColorState,
    ends: Seq<HistoryOid>,
    anchor: Point,
    color: nat,
)
    requires
        color_state_wf(colors),
    ensures
        color_state_wf(connect(edges, colors, ends, anchor, color).1),
        connect(edges, colors, ends, anchor, color).1.size == colors.size,
    decreases ends.len(),
{
    if ends.len() > 0 {
        lemma_connect_wf(edges, colors, ends.drop_last(), anchor, color);
        let c = connect(edges, colors, ends.drop_last(), anchor, color).1;
        lemma_release_lane_wf(c, ends.last().lane as int);
    }
}

/// A layout pass is deterministic: two graphs laid out from the same stream under the same
/// row cap hold the same nodes at the same positions in the same colors, the same edges and
/// the same widest lane.
pub proof fn lemma_layout_deterministic(g1: Garph, g2: Garph, commits: Seq<entities::commit::CommitNode>, limit: nat)
    requires
        g1.laid_out(commits, limit),
        g2.laid_out(commits, limit),
    ensures
        g1.spec_nodes().len() == g2.spec_nodes().len(),
        forall|i: int|
            0 <= i < g1.spec_nodes().len() ==> {
                &&& (#[trigger] g1.spec_nodes()[i]).oid == g2.spec_nodes()[i].oid
                &&& g1.spec_nodes()[i].position == g2.spec_nodes()[i].position
                &&& g1.spec_nodes()[i].color == g2.spec_nodes()[i].color
            },
        g1.spec_edges() == g2.spec_edges(),
        g1.spec_max_lane() == g2.spec_max_lane(),
{
    let n = rows(commits.len(), limit);
    let st = layout_prefix(shape(commits), n);
    assert forall|i: int| 0 <= i < g1.spec_nodes().len() implies {
        &&& (#[trigger] g1.spec_nodes()[i]).oid == g2.spec_nodes()[i].oid
        &&& g1.spec_nodes()[i].position == g2.spec_nodes()[i].position
        &&& g1.spec_nodes()[i].color == g2.spec_nodes()[i].color
    } by {
        let a = g1.spec_nodes()[i];
        let b = g2.spec_nodes()[i];
        assert((a.oid, a.position, a.color as nat) == st.placed[i]);
        assert((b.oid, b.position, b.color as nat) == st.placed[i]);
    }
}

/// The result of a layout pass: the placed commits and the edges between them.
pub struct Garph {
    nodes: Vec<CommitNode>,
    edges: Vec<Edge>,
    content_height: u128,
    max_lane: usize,
}

impl Garph {
    pub closed spec fn spec_nodes(&self) -> Seq<CommitNode> {
        self.nodes@
    }

    pub closed spec fn spec_edges(&self) -> Seq<Edge> {
        self.edges@
    }

    pub closed spec fn spec_content_height(&self) -> u128 {
        self.content_height
    }

    pub closed spec fn spec_max_lane(&self) -> usize {
        self.max_lane
    }

    /// A graph with nothing laid out yet.
    pub fn new() -> (r: Garph)
        ensures
            r.spec_nodes().len() == 0,
            r.spec_edges().len() == 0,
            r.spec_content_height() == 0,
            r.spec_max_lane() == 0,
    {
        Garph { nodes: Vec::new(), edges: Vec::new(), content_height: 0, max_lane: 0 }
    }

    pub fn nodes(&self) -> (r: &Vec<CommitNode>)
        ensures
            r@ == self.spec_nodes(),
    {
        &self.nodes
    }

    pub fn edges(&self) -> (r: &Vec<Edge>)
        ensures
            r@ == self.spec_edges(),
    {
        &self.edges
    }

    /// Height of the drawing: every row, and some room below.
    pub fn content_height(&self) -> (r: u128)
        ensures
            r == self.spec_content_height(),
    {
        self.content_height
    }

    /// The widest lane any commit is drawn in.
    pub fn max_lane(&self) -> (r: usize)
        ensures
            r == self.spec_max_lane(),
    {
        self.max_lane
    }

    /// Where the text of every row starts: one lane past the widest lane, and a margin.
    pub fn text_left(&self) -> (r: u128)
        ensures
            r == START_X + (self.spec_max_lane() + 1) * LANE_WIDTH + TEXT_MARGIN,
    {
        proof {
            assert((self.max_lane as u128 + 1) * LANE_WIDTH <= 0x1_0000_0000_0000_0000u128 * 15)
                by (nonlinear_arith)
                requires
                    self.max_lane <= 0xFFFF_FFFF_FFFF_FFFFu64,
            ;
        }
        START_X + (self.max_lane as u128 + 1) * LANE_WIDTH + TEXT_MARGIN
    }

    /// Lays out the first `LIMIT_ROW` commits of the stream.
    pub fn recompute(&mut self, commits: &Vec<entities::commit::CommitNode>)
        ensures
            final(self).laid_out(commits@, LIMIT_ROW as nat),
    {
        self.recompute_with_limit(commits, LIMIT_ROW);
    }

    /// The graph holds the layout of the first `rows(len, limit)` commits of `commits`.
    pub open spec fn laid_out(&self, commits: Seq<entities::commit::CommitNode>, limit: nat) -> bool {
        let n = rows(commits.len(), limit);
        let st = layout_prefix(shape(commits), n);
        &&& self.spec_nodes().len() == n
        &&& forall|i: int|
            0 <= i < n ==> {
                let node = #[trigger] self.spec_nodes()[i];
                &&& node.oid == commits[i].oid
                &&& node.message == commits[i].message
                &&& node.author == commits[i].author
                &&& node.timestamp == commits[i].timestamp
                &&& node.parents@ == commits[i].parents@
                &&& (node.oid, node.position, node.color as nat) == st.placed[i]
            }
        &&& self.spec_edges() == st.edges
        &&& self.spec_max_lane() == st.max_lane
        &&& self.spec_content_height() == n * COMMIT_HEIGHT + GAP_ROW
    }

    /// Lays out the first `limit` commits of the stream (all of them when it is shorter):
    /// each commit gets a lane, a position and a color, and each edge to a parent is drawn
    /// once that parent is reached. Any earlier layout is dropped.
    pub fn recompute_with_limit(&mut self, commits: &Vec<entities::commit::CommitNode>, limit: usize)
        ensures
            final(self).laid_out(commits@, limit as nat),
    {
        let n: usize = if commits.len() < limit {
            commits.len()
        } else {
            limit
        };
        let ghost sh = shape(commits@);
        let mut lane_manager = LaneManager::new();
        let mut edge_manager = EdgeManager::new();
        let mut color_manager = ColorManager::new(default_palette());
        let mut history_oids = HistoryOids::new();
        let mut nodes: Vec<CommitNode> = Vec::new();
        let mut max_lane: usize = 0;
        proof {
            assert(lane_manager@ =~= initial_layout().lanes);
        }

        let mut index: usize = 0;
        while index < n
            invariant
                n == rows(commits@.len(), limit as nat),
                index <= n,
                sh == shape(commits@),
                lane_manager.wf(),
                color_manager.wf(),
                color_manager.palette().len() == PALETTE_SIZE,
                layout_wf(layout_prefix(sh, index as nat)),
                lane_manager@ == layout_prefix(sh, index as nat).lanes,
                color_manager@ == layout_prefix(sh, index as nat).colors,
                history_oids@ == layout_prefix(sh, index as nat).pending,
                edge_manager@ == layout_prefix(sh, index as nat).edges,
                max_lane == layout_prefix(sh, index as nat).max_lane,
                nodes@.len() == index,
                layout_prefix(sh, index as nat).placed.len() == index,
                forall|i: int|
                    0 <= i < index ==> {
                        let node = #[trigger] nodes@[i];
                        &&& node.oid == commits@[i].oid
                        &&& node.message == commits@[i].message
                        &&& node.author == commits@[i].author
                        &&& node.timestamp == commits@[i].timestamp
                        &&& node.parents@ == commits@[i].parents@
                        &&& (node.oid, node.position, node.color as nat) == layout_prefix(
                            sh,
                            index as nat,
                        ).placed[i]
                    },
            decreases n - index,
        {
            let ghost st = layout_prefix(sh, index as nat);
            let ghost next = layout_prefix(sh, (index + 1) as nat);
            let commit = &commits[index];
            let oid = commit.oid;
            proof {
                assert(sh[index as int] == (oid, commit.parents@));
                assert(next == layout_step(st, sh[index as int], index as int));
            }
            let lane = lane_manager.assign_commit(&oid, commit.parents.as_slice());
            let color = color_manager.get_color(&lane);
            let ghost colors_mid = color_manager@;
            proof {
                lemma_color_for_wf(st.colors, lane as int);
                assert((lane as u128) * LANE_WIDTH <= 0xFFFF_FFFF_FFFF_FFFFu128 * 15) by (
                nonlinear_arith)
                    requires
                        lane <= 0xFFFF_FFFF_FFFF_FFFFu64,
                ;
                assert(COMMIT_HEIGHT * (index as u128) <= 20 * 0xFFFF_FFFF_FFFF_FFFFu128) by (
                nonlinear_arith)
                    requires
                        index <= 0xFFFF_FFFF_FFFF_FFFFu64,
                ;
            }
            let position = Point::new(
                START_X + (lane as u128) * LANE_WIDTH,
                COMMIT_HEIGHT * (index as u128),
            );
            if lane > max_lane {
                max_lane = lane;
            }
            let anchor = Point::new(position.x + SIZE / 2, position.y);
            proof {
                assert(position == node_position(lane as int, index as int));
                assert(anchor == anchor_of(position));
            }

            let ends = history_oids.get(&oid);
            let mut j: usize = 0;
            while j < ends.len()
                invariant
                    j <= ends@.len(),
                    ends@ == pending_for(st.pending, oid),
                    color_manager.wf(),
                    color_manager.palette().len() == PALETTE_SIZE,
                    color_state_wf(colors_mid),
                    (edge_manager@, color_manager@) == connect(
                        st.edges,
                        colors_mid,
                        ends@.subrange(0, j as int),
                        anchor,
                        color as nat,
                    ),
                decreases ends@.len() - j,
            {
                let end = ends[j];
                proof {
                    assert(ends@.subrange(0, j + 1).drop_last() =~= ends@.subrange(0, j as int));
                }
                if end.point.x > anchor.x {
                    edge_manager.add(end.point, anchor, end.color);
                    if end.lane > 0 {
                        color_manager.remove_lane_color(&end.lane);
                    }
                } else if end.point.x < anchor.x {
                    edge_manager.add(anchor, end.point, color);
                } else {
                    edge_manager.add(end.point, anchor, end.color);
                }
                j = j + 1;
            }
            proof {
                assert(ends@.subrange(0, ends@.len() as int) =~= ends@);
                lemma_connect_wf(st.edges, colors_mid, ends@, anchor, color as nat);
            }

            let end = HistoryOid::new(anchor, color, lane);
            let mut k: usize = 0;
            while k < commit.parents.len()
                invariant
                    k <= commit.parents@.len(),
                    history_oids@ == register(
                        st.pending,
                        commit.parents@.subrange(0, k as int),
                        end,
                    ),
                decreases commit.parents@.len() - k,
            {
                proof {
                    assert(register(st.pending, commit.parents@.subrange(0, k + 1), end)
                        =~= register(st.pending, commit.parents@.subrange(0, k as int), end).push(
                        (commit.parents@[k as int], end),
                    ));
                }
                history_oids.add_history(commit.parents[k], end);
                k = k + 1;
            }
            proof {
                assert(commit.parents@.subrange(0, commit.parents@.len() as int)
                    =~= commit.parents@);
            }

            let parents = commit.parents.clone();
            proof {
                assert(parents@ =~= commit.parents@);
            }
            nodes.push(
                CommitNode::new(
                    oid,
                    commit.message.clone(),
                    commit.author.clone(),
                    commit.timestamp,
                    parents,
                    position,
                    color,
                ),
            );
            proof {
                assert forall|i: int| 0 <= i < index + 1 implies {
                    let node = #[trigger] nodes@[i];
                    &&& node.oid == commits@[i].oid
                    &&& node.message == commits@[i].message
                    &&& node.author == commits@[i].author
                    &&& node.timestamp == commits@[i].timestamp
                    &&& node.parents@ == commits@[i].parents@
                    &&& (node.oid, node.position, node.color as nat) == next.placed[i]
                } by {
                    if i < index {
                        assert(next.placed[i] == st.placed[i]);
                    }
                }
            }
            index = index + 1;
        }
        self.nodes = nodes;
        self.edges = edge_manager.take_edges();
        self.max_lane = max_lane;
        self.content_height = (n as u128) * COMMIT_HEIGHT + GAP_ROW;
    }
}

} // verus!
