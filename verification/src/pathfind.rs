//! Best-first grid search toward a tile adjacent to a goal, plus the
//! movement budgeting that turns a full path into this turn's
//! destination.
//!
//! The search explores the walkable interior of the map, ordered by
//! the sum of the Manhattan distances from the start and to the goal,
//! and stops the moment it generates any tile at distance one from the
//! goal. The goal tile itself is never the destination: it is usually
//! occupied by the target.

use crate::grid::{on_map_spec, tile_dist, tile_distance, TilePos};
use vstd::prelude::*;

verus! {

use vstd::set_lib::{lemma_int_range, lemma_len_subset, lemma_len_union, lemma_map_size,
    set_int_range};
use vstd::set::axiom_set_insert_len;
use vstd::relations::injective_on;

/// One explored tile of a search: where it is, the node it was reached
/// from, its Manhattan distances from the start and to the goal, and
/// whether it has been expanded yet.
#[derive(PartialEq, Eq, Structural, Clone, Copy, Debug)]
pub struct SearchNode {
    pub pos: TilePos,
    /// Index of the node this one was first reached from. The start
    /// node points at itself.
    pub parent: usize,
    pub from_start: u64,
    pub to_goal: u64,
    pub visited: bool,
}

/// A node's priority in the search: distance already covered plus
/// distance still to go, lower first.
pub open spec fn node_weight(n: SearchNode) -> int {
    n.from_start as int + n.to_goal as int
}

/// A position as a pair of mathematical integers.
pub open spec fn pos_pair(p: TilePos) -> (int, int) {
    (p.0 as int, p.1 as int)
}

/// No two nodes of a search share a tile.
pub open spec fn distinct_positions(s: Seq<SearchNode>) -> bool {
    forall|i: int, j: int| 0 <= i < j < s.len() ==> s[i].pos != s[j].pos
}

/// Everything the search maintains about its node arena: the first
/// node is the start and every later node is a walkable, unblocked
/// interior tile one step away from its parent, with its two distances
/// stored correctly.
pub open spec fn search_inv(
    s: Seq<SearchNode>,
    start: TilePos,
    goal: TilePos,
    blocked: Seq<TilePos>,
    dim: (u32, u32),
) -> bool {
    &&& s.len() >= 1
    &&& s[0].pos == start
    &&& s[0].parent == 0
    &&& s[0].visited
    &&& distinct_positions(s)
    &&& forall|i: int| 0 < i < s.len() ==> (#[trigger] s[i]).parent < i
    &&& forall|i: int| 0 < i < s.len() ==> on_map_spec((#[trigger] s[i]).pos, dim)
    &&& forall|i: int| 0 < i < s.len() ==> !blocked.contains((#[trigger] s[i]).pos)
    &&& forall|i: int|
        0 < i < s.len() ==> tile_dist((#[trigger] s[i]).pos, s[s[i].parent as int].pos) == 1
    &&& forall|i: int| 0 <= i < s.len() ==> (#[trigger] s[i]).to_goal as int == tile_dist(
        s[i].pos,
        goal,
    )
    &&& forall|i: int| 0 <= i < s.len() ==> (#[trigger] s[i]).from_start as int == tile_dist(
        s[i].pos,
        start,
    )
}

/// No node except possibly the start has been generated adjacent to
/// the goal; the search stops as soon as one is.
pub open spec fn no_interior_hit(s: Seq<SearchNode>) -> bool {
    forall|i: int| 0 < i < s.len() ==> (#[trigger] s[i]).to_goal != 1
}

/// A tile the search may stand on: walkable interior, not blocked.
pub open spec fn free_tile(q: TilePos, blocked: Seq<TilePos>, dim: (u32, u32)) -> bool {
    on_map_spec(q, dim) && !blocked.contains(q)
}

/// Whether some node of the search sits on the given tile.
pub open spec fn node_at(s: Seq<SearchNode>, q: TilePos) -> bool {
    exists|j: int| 0 <= j < s.len() && (#[trigger] s[j]).pos == q
}

/// Every expanded node other than the excepted one has all its free
/// neighbors generated. The node currently being expanded is the
/// exception; pass -1 for none.
pub open spec fn expanded_closure_except(
    s: Seq<SearchNode>,
    blocked: Seq<TilePos>,
    dim: (u32, u32),
    except: int,
) -> bool {
    forall|i: int, q: TilePos|
        0 <= i < s.len() && s[i].visited && i != except && #[trigger] tile_dist(q, s[i].pos) == 1
            && free_tile(q, blocked, dim) ==> node_at(s, q)
}

/// Every expanded node has all its free neighbors generated.
pub open spec fn expanded_closure(s: Seq<SearchNode>, blocked: Seq<TilePos>, dim: (u32, u32)) -> bool {
    expanded_closure_except(s, blocked, dim, -1)
}

/// A walk over free tiles, one step at a time, starting one step away
/// from the start tile.
pub open spec fn is_step_chain(
    chain: Seq<TilePos>,
    start: TilePos,
    blocked: Seq<TilePos>,
    dim: (u32, u32),
) -> bool {
    &&& forall|k: int| 0 <= k < chain.len() ==> free_tile(#[trigger] chain[k], blocked, dim)
    &&& (chain.len() >= 1 ==> tile_dist(start, chain[0]) == 1)
    &&& forall|k: int| 1 <= k < chain.len() ==> tile_dist(#[trigger] chain[k], chain[k - 1]) == 1
}

/// Whether a walker leaving the start tile can stand on the given
/// tile.
pub open spec fn reachable_from(
    start: TilePos,
    q: TilePos,
    blocked: Seq<TilePos>,
    dim: (u32, u32),
) -> bool {
    exists|chain: Seq<TilePos>|
        #[trigger] is_step_chain(chain, start, blocked, dim) && chain.len() >= 1 && chain.last()
            == q
}

/// No free tile a walker can reach from the start (other than the
/// start itself) lies adjacent to the goal: the goal is walled off.
pub open spec fn no_reachable_adjacent(
    start: TilePos,
    goal: TilePos,
    blocked: Seq<TilePos>,
    dim: (u32, u32),
) -> bool {
    forall|q: TilePos|
        free_tile(q, blocked, dim) && q != start && #[trigger] reachable_from(
            start,
            q,
            blocked,
            dim,
        ) ==> tile_dist(q, goal) != 1
}

/// A tile with a node keeps its node when another is pushed.
proof fn lemma_node_at_push(s: Seq<SearchNode>, n: SearchNode, q: TilePos)
    requires
        node_at(s, q),
    ensures
        node_at(s.push(n), q),
{
    let j = choose|j: int| 0 <= j < s.len() && (#[trigger] s[j]).pos == q;
    assert(s.push(n)[j].pos == q);
}

/// Pushing an unexpanded node preserves the closure of the expanded
/// ones.
proof fn lemma_closure_except_push(
    s: Seq<SearchNode>,
    n: SearchNode,
    blocked: Seq<TilePos>,
    dim: (u32, u32),
    except: int,
)
    requires
        expanded_closure_except(s, blocked, dim, except),
        !n.visited,
    ensures
        expanded_closure_except(s.push(n), blocked, dim, except),
{
    let t = s.push(n);
    assert forall|i: int, q: TilePos|
        0 <= i < t.len() && t[i].visited && i != except && #[trigger] tile_dist(q, t[i].pos) == 1
            && free_tile(q, blocked, dim) implies node_at(t, q) by {
        assert(i < s.len());
        assert(t[i] == s[i]);
        assert(tile_dist(q, s[i].pos) == 1);
        lemma_node_at_push(s, n, q);
    }
}

/// Once every node is expanded and closed, any walk from the start
/// stays on tiles the search has generated.
proof fn lemma_chain_in_nodes(
    s: Seq<SearchNode>,
    start: TilePos,
    blocked: Seq<TilePos>,
    dim: (u32, u32),
    chain: Seq<TilePos>,
)
    requires
        s.len() >= 1,
        s[0].pos == start,
        forall|i: int| 0 <= i < s.len() ==> (#[trigger] s[i]).visited,
        expanded_closure(s, blocked, dim),
        is_step_chain(chain, start, blocked, dim),
    ensures
        forall|k: int| 0 <= k < chain.len() ==> node_at(s, #[trigger] chain[k]),
    decreases chain.len(),
{
    if chain.len() > 0 {
        let t = chain.drop_last();
        assert(is_step_chain(t, start, blocked, dim)) by {
            assert(forall|k: int| 0 <= k < t.len() ==> t[k] == chain[k]);
        }
        lemma_chain_in_nodes(s, start, blocked, dim, t);
        let q = chain.last();
        if chain.len() == 1 {
            assert(tile_dist(q, s[0].pos) == 1);
            assert(node_at(s, q));
        } else {
            let prev = chain[chain.len() - 2];
            assert(t[chain.len() - 2] == prev);
            assert(node_at(s, prev));
            let j = choose|j: int| 0 <= j < s.len() && (#[trigger] s[j]).pos == prev;
            assert(tile_dist(q, s[j].pos) == 1);
            assert(node_at(s, q));
        }
        assert forall|k: int| 0 <= k < chain.len() implies node_at(s, #[trigger] chain[k]) by {
            if k < chain.len() - 1 {
                assert(t[k] == chain[k]);
            }
        }
    }
}

/// When the search exhausts its open set, the goal really is walled
/// off: no reachable free tile lies adjacent to it.
proof fn lemma_exhausted_search_complete(
    s: Seq<SearchNode>,
    start: TilePos,
    goal: TilePos,
    blocked: Seq<TilePos>,
    dim: (u32, u32),
)
    requires
        search_inv(s, start, goal, blocked, dim),
        no_interior_hit(s),
        forall|i: int| 0 <= i < s.len() ==> (#[trigger] s[i]).visited,
        expanded_closure(s, blocked, dim),
    ensures
        no_reachable_adjacent(start, goal, blocked, dim),
{
    assert forall|q: TilePos|
        free_tile(q, blocked, dim) && q != start && #[trigger] reachable_from(
            start,
            q,
            blocked,
            dim,
        ) implies tile_dist(q, goal) != 1 by {
        let chain = choose|chain: Seq<TilePos>|
            #[trigger] is_step_chain(chain, start, blocked, dim) && chain.len() >= 1
                && chain.last() == q;
        lemma_chain_in_nodes(s, start, blocked, dim, chain);
        assert(node_at(s, chain[chain.len() - 1]));
        let j = choose|j: int| 0 <= j < s.len() && (#[trigger] s[j]).pos == q;
        assert(j != 0);
        assert(s[j].to_goal != 1);
        assert(s[j].to_goal as int == tile_dist(s[j].pos, goal));
    }
}

/// How many nodes have been expanded so far.
pub open spec fn visited_count(s: Seq<SearchNode>) -> int
    decreases s.len(),
{
    if s.len() == 0 {
        0
    } else {
        visited_count(s.drop_last()) + if s.last().visited {
            1int
        } else {
            0
        }
    }
}

/// The tiles of the expanded nodes.
pub open spec fn visited_positions(s: Seq<SearchNode>) -> Set<(int, int)> {
    Set::new(
        |q: (int, int)|
            exists|i: int| 0 <= i < s.len() && (#[trigger] s[i]).visited && pos_pair(s[i].pos)
                == q,
    )
}

/// All integer pairs inside a w-by-h box.
pub open spec fn box_set(w: int, h: int) -> Set<(int, int)> {
    Set::new(|q: (int, int)| 0 <= q.0 < w && 0 <= q.1 < h)
}

/// A w-by-h box holds at most w * h integer pairs.
proof fn lemma_box_set_bound(w: int, h: int)
    requires
        0 <= w,
        0 <= h,
    ensures
        box_set(w, h).finite(),
        box_set(w, h).len() <= w * h,
    decreases h,
{
    if h == 0 {
        assert(box_set(w, 0) =~= Set::<(int, int)>::empty());
    } else {
        lemma_box_set_bound(w, h - 1);
        let row = Set::new(|q: (int, int)| 0 <= q.0 < w && q.1 == h - 1);
        let f = |x: int| (x, h - 1);
        lemma_int_range(0, w);
        assert(set_int_range(0, w).map(f) =~= row) by {
            assert forall|q: (int, int)| row.contains(q) implies set_int_range(0, w).map(
                f,
            ).contains(q) by {
                assert(set_int_range(0, w).contains(q.0) && f(q.0) == q);
            }
        }
        assert(injective_on(f, set_int_range(0, w)));
        lemma_map_size(set_int_range(0, w), row, f);
        assert(box_set(w, h) =~= box_set(w, h - 1).union(row));
        lemma_len_union(box_set(w, h - 1), row);
        assert(w * (h - 1) + w == w * h) by (nonlinear_arith);
    }
}

/// With all node tiles distinct, the number of expanded nodes is the
/// cardinality of the set of expanded tiles.
proof fn lemma_visited_count_is_card(s: Seq<SearchNode>)
    requires
        distinct_positions(s),
    ensures
        visited_positions(s).finite(),
        visited_positions(s).len() == visited_count(s),
    decreases s.len(),
{
    if s.len() == 0 {
        assert(visited_positions(s) =~= Set::<(int, int)>::empty());
    } else {
        let t = s.drop_last();
        assert(distinct_positions(t)) by {
            assert(forall|i: int, j: int|
                0 <= i < j < t.len() ==> t[i] == s[i] && t[j] == s[j]);
        }
        lemma_visited_count_is_card(t);
        let lastp = pos_pair(s.last().pos);
        if s.last().visited {
            assert(visited_positions(s) =~= visited_positions(t).insert(lastp)) by {
                assert forall|q: (int, int)| visited_positions(s).contains(q) implies
                    visited_positions(t).insert(lastp).contains(q) by {
                    let i = choose|i: int|
                        0 <= i < s.len() && (#[trigger] s[i]).visited && pos_pair(s[i].pos) == q;
                    if i < s.len() - 1 {
                        assert(t[i].visited && pos_pair(t[i].pos) == q);
                    }
                }
                assert forall|q: (int, int)|
                    visited_positions(t).insert(lastp).contains(q) implies visited_positions(
                    s,
                ).contains(q) by {
                    if q == lastp {
                        assert((#[trigger] s[s.len() - 1]).visited && pos_pair(s[s.len() - 1].pos)
                            == q);
                    } else {
                        let i = choose|i: int|
                            0 <= i < t.len() && (#[trigger] t[i]).visited && pos_pair(t[i].pos)
                                == q;
                        assert((#[trigger] s[i]).visited && pos_pair(s[i].pos) == q);
                    }
                }
            }
            assert(!visited_positions(t).contains(lastp)) by {
                if visited_positions(t).contains(lastp) {
                    let i = choose|i: int|
                        0 <= i < t.len() && (#[trigger] t[i]).visited && pos_pair(t[i].pos)
                            == lastp;
                    assert(s[i].pos.0 == s.last().pos.0 && s[i].pos.1 == s.last().pos.1);
                    assert(s[i].pos == s.last().pos);
                }
            }
            axiom_set_insert_len(visited_positions(t), lastp);
        } else {
            assert(visited_positions(s) =~= visited_positions(t)) by {
                assert forall|q: (int, int)| visited_positions(s).contains(q) implies
                    visited_positions(t).contains(q) by {
                    let i = choose|i: int|
                        0 <= i < s.len() && (#[trigger] s[i]).visited && pos_pair(s[i].pos) == q;
                    assert(i < s.len() - 1);
                    assert(t[i].visited && pos_pair(t[i].pos) == q);
                }
                assert forall|q: (int, int)| visited_positions(t).contains(q) implies
                    visited_positions(s).contains(q) by {
                    let i = choose|i: int|
                        0 <= i < t.len() && (#[trigger] t[i]).visited && pos_pair(t[i].pos) == q;
                    assert((#[trigger] s[i]).visited && pos_pair(s[i].pos) == q);
                }
            }
        }
    }
}

/// The termination bound of the search: the expanded tiles all lie
/// in the map's box, except possibly the start tile, and all are
/// distinct, so a search over a finite map expands at most area-plus-
/// one nodes. The search loop's `decreases` measure rests on this
/// bound, so the search can never run forever, whatever the grid, the
/// occupancy set, the start or the goal.
pub proof fn lemma_visited_count_bound(
    s: Seq<SearchNode>,
    start: TilePos,
    goal: TilePos,
    blocked: Seq<TilePos>,
    dim: (u32, u32),
)
    requires
        search_inv(s, start, goal, blocked, dim),
    ensures
        visited_count(s) <= dim.0 as int * dim.1 as int + 1,
{
    let w = dim.0 as int;
    let h = dim.1 as int;
    lemma_visited_count_is_card(s);
    lemma_box_set_bound(w, h);
    let bound = box_set(w, h).insert(pos_pair(start));
    assert(visited_positions(s).subset_of(bound)) by {
        assert forall|q: (int, int)| visited_positions(s).contains(q) implies bound.contains(
            q,
        ) by {
            let i = choose|i: int|
                0 <= i < s.len() && (#[trigger] s[i]).visited && pos_pair(s[i].pos) == q;
            if i > 0 {
                assert(on_map_spec(s[i].pos, dim));
            }
        }
    }
    axiom_set_insert_len(box_set(w, h), pos_pair(start));
    lemma_len_subset(visited_positions(s), bound);
}

/// Expanding a node leaves the expansion count unchanged: pushed
/// neighbors start unexpanded.
proof fn lemma_visited_count_push(s: Seq<SearchNode>, n: SearchNode)
    ensures
        visited_count(s.push(n)) == visited_count(s) + if n.visited {
            1int
        } else {
            0
        },
{
    assert(s.push(n).drop_last() =~= s);
    assert(s.push(n).last() == n);
}

/// Marking one unexpanded node as expanded raises the count by one.
proof fn lemma_visited_count_update(s: Seq<SearchNode>, b: int, n: SearchNode)
    requires
        0 <= b < s.len(),
        !s[b].visited,
        n.visited,
    ensures
        visited_count(s.update(b, n)) == visited_count(s) + 1,
    decreases s.len(),
{
    let su = s.update(b, n);
    if b == s.len() - 1 {
        assert(su.drop_last() =~= s.drop_last());
        assert(su.last() == n);
    } else {
        assert(su.drop_last() =~= s.drop_last().update(b, n));
        assert(su.last() == s.last());
        lemma_visited_count_update(s.drop_last(), b, n);
    }
}

/// Whether any node already sits on the given tile.
fn has_node_at(nodes: &Vec<SearchNode>, p: &TilePos) -> (r: bool)
    ensures
        r == exists|i: int| 0 <= i < nodes@.len() && (#[trigger] nodes@[i]).pos == *p,
{
    let mut i: usize = 0;
    while i < nodes.len()
        invariant
            i <= nodes@.len(),
            forall|k: int| 0 <= k < i ==> (#[trigger] nodes@[k]).pos != *p,
        decreases nodes@.len() - i,
    {
        if nodes[i].pos == *p {
            return true;
        }
        i = i + 1;
    }
    false
}

/// Whether the given tile is in the blocked list.
pub(crate) fn contains_pos(v: &Vec<TilePos>, p: &TilePos) -> (r: bool)
    ensures
        r == v@.contains(*p),
{
    let mut i: usize = 0;
    while i < v.len()
        invariant
            i <= v@.len(),
            forall|k: int| 0 <= k < i ==> v@[k] != *p,
        decreases v@.len() - i,
    {
        if v[i] == *p {
            assert(v@.contains(*p));
            return true;
        }
        i = i + 1;
    }
    assert(!v@.contains(*p));
    false
}

/// Once all four neighbors of the node being expanded are covered,
/// the closure holds without exception.
proof fn lemma_expand_covers(s: Seq<SearchNode>, cur: int, blocked: Seq<TilePos>, dim: (u32, u32))
    requires
        0 <= cur < s.len(),
        expanded_closure_except(s, blocked, dim, cur),
        ({
            let base = s[cur].pos;
            &&& (base.1 < u32::MAX ==> (free_tile(TilePos(base.0, (base.1 + 1) as u32), blocked,
            dim) ==> node_at(s, TilePos(base.0, (base.1 + 1) as u32))))
            &&& (base.1 > 0 ==> (free_tile(TilePos(base.0, (base.1 - 1) as u32), blocked, dim)
                ==> node_at(s, TilePos(base.0, (base.1 - 1) as u32))))
            &&& (base.0 < u32::MAX ==> (free_tile(TilePos((base.0 + 1) as u32, base.1), blocked,
            dim) ==> node_at(s, TilePos((base.0 + 1) as u32, base.1))))
            &&& (base.0 > 0 ==> (free_tile(TilePos((base.0 - 1) as u32, base.1), blocked, dim)
                ==> node_at(s, TilePos((base.0 - 1) as u32, base.1))))
        }),
    ensures
        expanded_closure(s, blocked, dim),
{
    let base = s[cur].pos;
    assert forall|i: int, q: TilePos|
        0 <= i < s.len() && s[i].visited && i != -1 && #[trigger] tile_dist(q, s[i].pos) == 1
            && free_tile(q, blocked, dim) implies node_at(s, q) by {
        if i == cur {
            let bx = base.0 as int;
            let by = base.1 as int;
            if q.1 as int == by + 1 {
                assert(base.1 < u32::MAX);
                assert(q == TilePos(base.0, (base.1 + 1) as u32));
            } else if q.1 as int == by - 1 {
                assert(base.1 > 0);
                assert(q == TilePos(base.0, (base.1 - 1) as u32));
            } else if q.0 as int == bx + 1 {
                assert(base.0 < u32::MAX);
                assert(q == TilePos((base.0 + 1) as u32, base.1));
            } else {
                assert(q.0 as int == bx - 1 && q.1 as int == by);
                assert(base.0 > 0);
                assert(q == TilePos((base.0 - 1) as u32, base.1));
            }
        }
    }
}

/// What considering one neighbor does to the arena: a free, unseen
/// tile is pushed as an unexpanded child of the current node, and the
/// search ends the moment that tile lies adjacent to the goal.
pub open spec fn model_consider(
    s: Seq<SearchNode>,
    cur: int,
    c: TilePos,
    start: TilePos,
    goal: TilePos,
    blocked: Seq<TilePos>,
    dim: (u32, u32),
) -> (Seq<SearchNode>, Option<int>) {
    if free_tile(c, blocked, dim) && !node_at(s, c) {
        let n = SearchNode {
            pos: c,
            parent: cur as usize,
            from_start: tile_dist(c, start) as u64,
            to_goal: tile_dist(c, goal) as u64,
            visited: false,
        };
        if tile_dist(c, goal) == 1 {
            (s.push(n), Some(s.len() as int))
        } else {
            (s.push(n), None)
        }
    } else {
        (s, None)
    }
}

/// Considers one neighbor of the node being expanded: a walkable,
/// unblocked tile not seen before is pushed, and its index is
/// returned at once when it lies adjacent to the goal.
#[verifier::rlimit(60)]
fn consider_candidate(
    nodes: &mut Vec<SearchNode>,
    cur: usize,
    c: TilePos,
    start: TilePos,
    goal: TilePos,
    blocked: &Vec<TilePos>,
    dim: (u32, u32),
) -> (hit: Option<usize>)
    requires
        search_inv(old(nodes)@, start, goal, blocked@, dim),
        no_interior_hit(old(nodes)@),
        cur < old(nodes)@.len(),
        expanded_closure_except(old(nodes)@, blocked@, dim, cur as int),
        tile_dist(c, old(nodes)@[cur as int].pos) == 1,
    ensures
        final(nodes)@.len() >= old(nodes)@.len(),
        search_inv(final(nodes)@, start, goal, blocked@, dim),
        visited_count(final(nodes)@) == visited_count(old(nodes)@),
        expanded_closure_except(final(nodes)@, blocked@, dim, cur as int),
        final(nodes)@[cur as int].pos == old(nodes)@[cur as int].pos,
        forall|q: TilePos| node_at(old(nodes)@, q) ==> node_at(final(nodes)@, q),
        final(nodes)@ == model_consider(old(nodes)@, cur as int, c, start, goal, blocked@, dim).0,
        match hit {
            Some(f) => {
                &&& model_consider(old(nodes)@, cur as int, c, start, goal, blocked@, dim).1
                    == Some(f as int)
                &&& 0 < f == final(nodes)@.len() - 1
                &&& final(nodes)@[f as int].to_goal == 1
                &&& forall|i: int| 0 < i < f ==> (#[trigger] final(nodes)@[i]).to_goal != 1
            },
            None => {
                &&& model_consider(old(nodes)@, cur as int, c, start, goal, blocked@, dim).1
                    is None
                &&& no_interior_hit(final(nodes)@)
                &&& (free_tile(c, blocked@, dim) ==> node_at(final(nodes)@, c))
            },
        },
{
    if c.is_on_map(dim) && !contains_pos(blocked, &c) && !has_node_at(nodes, &c) {
        let to_goal = tile_distance(&c, &goal);
        let from_start = tile_distance(&c, &start);
        let node = SearchNode { pos: c, parent: cur, from_start, to_goal, visited: false };
        let ghost pre = nodes@;
        nodes.push(node);
        proof {
            lemma_visited_count_push(pre, node);
            assert forall|i: int, j: int|
                0 <= i < j < nodes@.len() implies nodes@[i].pos != nodes@[j].pos by {
                if j < nodes@.len() - 1 {
                    assert(nodes@[i] == pre[i] && nodes@[j] == pre[j]);
                } else {
                    assert(nodes@[i] == pre[i]);
                }
            }
            lemma_closure_except_push(pre, node, blocked@, dim, cur as int);
            assert forall|q: TilePos| node_at(pre, q) implies node_at(nodes@, q) by {
                lemma_node_at_push(pre, node, q);
            }
            assert(node_at(nodes@, c)) by {
                assert(nodes@[nodes@.len() - 1].pos == c);
            }
        }
        if to_goal == 1 {
            let f = nodes.len() - 1;
            return Some(f);
        }
    }
    None
}

/// What expanding one node does to the arena: its four neighbors are
/// considered in the fixed north, south, east, west order, stopping
/// at the first goal-adjacent one.
pub open spec fn model_expand(
    s: Seq<SearchNode>,
    cur: int,
    start: TilePos,
    goal: TilePos,
    blocked: Seq<TilePos>,
    dim: (u32, u32),
) -> (Seq<SearchNode>, Option<int>) {
    let base = s[cur].pos;
    let r1 = if base.1 < u32::MAX {
        model_consider(s, cur, TilePos(base.0, (base.1 + 1) as u32), start, goal, blocked, dim)
    } else {
        (s, None)
    };
    if r1.1 is Some {
        r1
    } else {
        let r2 = if base.1 > 0 {
            model_consider(r1.0, cur, TilePos(base.0, (base.1 - 1) as u32), start, goal, blocked,
            dim)
        } else {
            (r1.0, None)
        };
        if r2.1 is Some {
            r2
        } else {
            let r3 = if base.0 < u32::MAX {
                model_consider(r2.0, cur, TilePos((base.0 + 1) as u32, base.1), start, goal,
                blocked, dim)
            } else {
                (r2.0, None)
            };
            if r3.1 is Some {
                r3
            } else {
                if base.0 > 0 {
                    model_consider(r3.0, cur, TilePos((base.0 - 1) as u32, base.1), start, goal,
                    blocked, dim)
                } else {
                    (r3.0, None)
                }
            }
        }
    }
}

/// Generates the walkable, unblocked, not-yet-seen neighbors of one
/// node, in the fixed order north, south, east, west. If a neighbor
/// lies adjacent to the goal it is pushed and its index returned at
/// once: the search is over.
#[verifier::rlimit(100)]
fn expand_node(
    nodes: &mut Vec<SearchNode>,
    cur: usize,
    start: TilePos,
    goal: TilePos,
    blocked: &Vec<TilePos>,
    dim: (u32, u32),
) -> (hit: Option<usize>)
    requires
        search_inv(old(nodes)@, start, goal, blocked@, dim),
        no_interior_hit(old(nodes)@),
        cur < old(nodes)@.len(),
        expanded_closure_except(old(nodes)@, blocked@, dim, cur as int),
    ensures
        final(nodes)@.len() >= old(nodes)@.len(),
        search_inv(final(nodes)@, start, goal, blocked@, dim),
        visited_count(final(nodes)@) == visited_count(old(nodes)@),
        final(nodes)@ == model_expand(old(nodes)@, cur as int, start, goal, blocked@, dim).0,
        match hit {
            Some(f) => {
                &&& model_expand(old(nodes)@, cur as int, start, goal, blocked@, dim).1 == Some(
                    f as int,
                )
                &&& 0 < f == final(nodes)@.len() - 1
                &&& final(nodes)@[f as int].to_goal == 1
                &&& forall|i: int| 0 < i < f ==> (#[trigger] final(nodes)@[i]).to_goal != 1
            },
            None => {
                &&& model_expand(old(nodes)@, cur as int, start, goal, blocked@, dim).1 is None
                &&& no_interior_hit(final(nodes)@)
                &&& expanded_closure(final(nodes)@, blocked@, dim)
            },
        },
{
    let base = nodes[cur].pos;
    let mut hit: Option<usize> = None;
    if base.1 < u32::MAX {
        hit = consider_candidate(nodes, cur, TilePos(base.0, base.1 + 1), start, goal, blocked,
        dim);
        if hit.is_some() {
            return hit;
        }
    }
    let ghost n1 = nodes@;
    if base.1 > 0 {
        hit = consider_candidate(nodes, cur, TilePos(base.0, base.1 - 1), start, goal, blocked,
        dim);
        if hit.is_some() {
            return hit;
        }
    }
    let ghost n2 = nodes@;
    if base.0 < u32::MAX {
        hit = consider_candidate(nodes, cur, TilePos(base.0 + 1, base.1), start, goal, blocked,
        dim);
        if hit.is_some() {
            return hit;
        }
    }
    let ghost n3 = nodes@;
    if base.0 > 0 {
        hit = consider_candidate(nodes, cur, TilePos(base.0 - 1, base.1), start, goal, blocked,
        dim);
        if hit.is_some() {
            return hit;
        }
    }
    proof {
        if base.1 < u32::MAX && free_tile(TilePos(base.0, (base.1 + 1) as u32), blocked@, dim) {
            let north = TilePos(base.0, (base.1 + 1) as u32);
            assert(node_at(n1, north));
            assert(node_at(n2, north));
            assert(node_at(n3, north));
            assert(node_at(nodes@, north));
        }
        if base.1 > 0 && free_tile(TilePos(base.0, (base.1 - 1) as u32), blocked@, dim) {
            let south = TilePos(base.0, (base.1 - 1) as u32);
            assert(node_at(n2, south));
            assert(node_at(n3, south));
            assert(node_at(nodes@, south));
        }
        if base.0 < u32::MAX && free_tile(TilePos((base.0 + 1) as u32, base.1), blocked@, dim) {
            let east = TilePos((base.0 + 1) as u32, base.1);
            assert(node_at(n3, east));
            assert(node_at(nodes@, east));
        }
        lemma_expand_covers(nodes@, cur as int, blocked@, dim);
    }
    None
}

/// The node the picker settles on after scanning the first n nodes:
/// the unexpanded one with the least weight, ties broken by the
/// smaller distance to the goal and then by the smaller index.
pub open spec fn model_pick_upto(s: Seq<SearchNode>, n: int) -> Option<int>
    decreases n,
{
    if n <= 0 {
        None
    } else {
        let prev = model_pick_upto(s, n - 1);
        let i = n - 1;
        if !s[i].visited {
            match prev {
                None => Some(i),
                Some(b) => if node_weight(s[i]) < node_weight(s[b]) || (node_weight(s[i])
                    == node_weight(s[b]) && s[i].to_goal < s[b].to_goal) {
                    Some(i)
                } else {
                    Some(b)
                },
            }
        } else {
            prev
        }
    }
}

/// The picker's result over the whole arena.
pub open spec fn model_pick(s: Seq<SearchNode>) -> Option<int> {
    model_pick_upto(s, s.len() as int)
}

/// Picks the unexpanded node with the least weight, breaking ties by
/// the smaller distance to the goal and then by age. Returns `None`
/// when every node has been expanded: the search space is exhausted.
fn pick_best(nodes: &Vec<SearchNode>) -> (r: Option<usize>)
    ensures
        match r {
            Some(b) => {
                &&& model_pick(nodes@) == Some(b as int)
                &&& b < nodes@.len()
                &&& !nodes@[b as int].visited
                &&& forall|i: int|
                    0 <= i < nodes@.len() && !(#[trigger] nodes@[i]).visited ==> node_weight(
                        nodes@[b as int],
                    ) < node_weight(nodes@[i]) || (node_weight(nodes@[b as int]) == node_weight(
                        nodes@[i],
                    ) && nodes@[b as int].to_goal <= nodes@[i].to_goal)
            },
            None => {
                &&& model_pick(nodes@) is None
                &&& forall|i: int| 0 <= i < nodes@.len() ==> (#[trigger] nodes@[i]).visited
            },
        },
{
    let mut best: Option<usize> = None;
    let mut i: usize = 0;
    while i < nodes.len()
        invariant
            i <= nodes@.len(),
            match best {
                Some(b) => {
                    &&& model_pick_upto(nodes@, i as int) == Some(b as int)
                    &&& b < i
                    &&& b < nodes@.len()
                    &&& !nodes@[b as int].visited
                    &&& forall|k: int|
                        0 <= k < i && !(#[trigger] nodes@[k]).visited ==> node_weight(
                            nodes@[b as int],
                        ) < node_weight(nodes@[k]) || (node_weight(nodes@[b as int])
                            == node_weight(nodes@[k]) && nodes@[b as int].to_goal
                            <= nodes@[k].to_goal)
                },
                None => {
                    &&& model_pick_upto(nodes@, i as int) is None
                    &&& forall|k: int| 0 <= k < i ==> (#[trigger] nodes@[k]).visited
                },
            },
        decreases nodes@.len() - i,
    {
        if !nodes[i].visited {
            let take: bool = match best {
                None => true,
                Some(b) => {
                    let wb = nodes[b].from_start as u128 + nodes[b].to_goal as u128;
                    let wi = nodes[i].from_start as u128 + nodes[i].to_goal as u128;
                    wi < wb || (wi == wb && nodes[i].to_goal < nodes[b].to_goal)
                },
            };
            if take {
                best = Some(i);
            }
        }
        i = i + 1;
    }
    best
}

/// One state of the search, advanced to completion: expand the
/// current node, stop with the arena and the hit index once a
/// goal-adjacent tile is generated, otherwise mark the best remaining
/// node and continue, or give up when none is left. The fuel only
/// bounds the recursion; `lemma_visited_count_bound` shows it never
/// runs out on the states the search actually reaches.
pub open spec fn model_search(
    fuel: nat,
    s: Seq<SearchNode>,
    cur: int,
    start: TilePos,
    goal: TilePos,
    blocked: Seq<TilePos>,
    dim: (u32, u32),
) -> Option<(Seq<SearchNode>, int)>
    decreases fuel,
{
    let e = model_expand(s, cur, start, goal, blocked, dim);
    match e.1 {
        Some(f) => Some((e.0, f)),
        None => match model_pick(e.0) {
            None => None,
            Some(b) => if fuel == 0 {
                None
            } else {
                let t = e.0;
                let marked = t.update(
                    b,
                    SearchNode {
                        pos: t[b].pos,
                        parent: t[b].parent,
                        from_start: t[b].from_start,
                        to_goal: t[b].to_goal,
                        visited: true,
                    },
                );
                model_search((fuel - 1) as nat, marked, b, start, goal, blocked, dim)
            },
        },
    }
}

/// The whole search as a function of its four inputs: a single
/// expanded root node on the start tile, advanced until a
/// goal-adjacent tile appears or the open set runs dry.
pub open spec fn search_model(
    start: TilePos,
    goal: TilePos,
    blocked: Seq<TilePos>,
    dim: (u32, u32),
) -> Option<(Seq<SearchNode>, int)> {
    let root = SearchNode {
        pos: start,
        parent: 0,
        from_start: 0,
        to_goal: tile_dist(start, goal) as u64,
        visited: true,
    };
    model_search(
        (dim.0 as int * dim.1 as int) as nat,
        seq![root],
        0,
        start,
        goal,
        blocked,
        dim,
    )
}

/// Runs the search until a goal-adjacent tile is generated or the
/// reachable tiles are exhausted. On success returns the node arena
/// and the index of the goal-adjacent node.
#[verifier::rlimit(60)]
fn run_search(start: TilePos, goal: TilePos, blocked: &Vec<TilePos>, dim: (u32, u32)) -> (r:
    Option<(Vec<SearchNode>, usize)>)
    ensures
        match r {
            Some(found) => {
                &&& search_model(start, goal, blocked@, dim) == Some(
                    (found.0@, found.1 as int),
                )
                &&& search_inv(found.0@, start, goal, blocked@, dim)
                &&& 0 < found.1 == found.0@.len() - 1
                &&& found.0@[found.1 as int].to_goal == 1
                &&& forall|i: int| 0 < i < found.1 ==> (#[trigger] found.0@[i]).to_goal != 1
            },
            None => {
                &&& search_model(start, goal, blocked@, dim) is None
                &&& no_reachable_adjacent(start, goal, blocked@, dim)
            },
        },
{
    let mut nodes: Vec<SearchNode> = Vec::new();
    let to_goal = tile_distance(&start, &goal);
    let root = SearchNode { pos: start, parent: 0, from_start: 0, to_goal, visited: true };
    nodes.push(root);
    let mut cur: usize = 0;
    proof {
        assert(nodes@.drop_last() =~= Seq::<SearchNode>::empty());
        assert(visited_count(Seq::<SearchNode>::empty()) == 0);
        assert(visited_count(nodes@) == 1);
        vstd::arithmetic::mul::lemma_mul_nonnegative(dim.0 as int, dim.1 as int);
        assert(nodes@ =~= seq![
            SearchNode {
                pos: start,
                parent: 0,
                from_start: 0,
                to_goal: tile_dist(start, goal) as u64,
                visited: true,
            },
        ]);
    }
    loop
        invariant
            search_inv(nodes@, start, goal, blocked@, dim),
            no_interior_hit(nodes@),
            cur < nodes@.len(),
            visited_count(nodes@) <= dim.0 as int * dim.1 as int + 1,
            expanded_closure_except(nodes@, blocked@, dim, cur as int),
            model_search(
                (dim.0 as int * dim.1 as int + 1 - visited_count(nodes@)) as nat,
                nodes@,
                cur as int,
                start,
                goal,
                blocked@,
                dim,
            ) == search_model(start, goal, blocked@, dim),
        decreases dim.0 as int * dim.1 as int + 1 - visited_count(nodes@),
    {
        let ghost count_before = visited_count(nodes@);
        let ghost pre_nodes = nodes@;
        let ghost fuel_now = (dim.0 as int * dim.1 as int + 1 - count_before) as nat;
        let hit = expand_node(&mut nodes, cur, start, goal, blocked, dim);
        if let Some(f) = hit {
            proof {
                assert(model_search(fuel_now, pre_nodes, cur as int, start, goal, blocked@, dim)
                    == Some((nodes@, f as int)));
            }
            return Some((nodes, f));
        }
        match pick_best(&nodes) {
            None => {
                proof {
                    lemma_exhausted_search_complete(nodes@, start, goal, blocked@, dim);
                    assert(model_search(
                        fuel_now,
                        pre_nodes,
                        cur as int,
                        start,
                        goal,
                        blocked@,
                        dim,
                    ) is None);
                }
                return None;
            },
            Some(b) => {
                let ghost pre = nodes@;
                let mut n = nodes[b];
                n.visited = true;
                nodes.set(b, n);
                proof {
                    lemma_visited_count_update(pre, b as int, n);
                    assert forall|i: int, j: int|
                        0 <= i < j < nodes@.len() implies nodes@[i].pos != nodes@[j].pos by {
                        assert(pre[i].pos == nodes@[i].pos && pre[j].pos == nodes@[j].pos);
                    }
                    lemma_visited_count_bound(nodes@, start, goal, blocked@, dim);
                    assert forall|i: int, q: TilePos|
                        0 <= i < nodes@.len() && nodes@[i].visited && i != b && #[trigger]
                            tile_dist(q, nodes@[i].pos) == 1 && free_tile(q, blocked@, dim)
                        implies node_at(nodes@, q) by {
                        assert(nodes@[i] == pre[i]);
                        assert(tile_dist(q, pre[i].pos) == 1);
                        assert(node_at(pre, q));
                        let j = choose|j: int| 0 <= j < pre.len() && (#[trigger] pre[j]).pos == q;
                        assert(nodes@[j].pos == q);
                    }
                    assert(visited_count(nodes@) == count_before + 1);
                    assert(fuel_now >= 1);
                    assert(nodes@ =~= pre.update(
                        b as int,
                        SearchNode {
                            pos: pre[b as int].pos,
                            parent: pre[b as int].parent,
                            from_start: pre[b as int].from_start,
                            to_goal: pre[b as int].to_goal,
                            visited: true,
                        },
                    ));
                    assert(model_search(fuel_now, pre_nodes, cur as int, start, goal, blocked@,
                    dim) == model_search(
                        (fuel_now - 1) as nat,
                        nodes@,
                        b as int,
                        start,
                        goal,
                        blocked@,
                        dim,
                    ));
                    assert((fuel_now - 1) as nat == (dim.0 as int * dim.1 as int + 1
                        - visited_count(nodes@)) as nat);
                }
                cur = b;
            },
        }
    }
}

/// A step list produced by the search: it begins one step from the
/// start, moves one tile at a time over walkable unblocked interior
/// tiles, ends on the first tile found adjacent to the goal, and
/// touches no goal-adjacent tile before its last step.
pub open spec fn valid_search_path(
    path: Seq<TilePos>,
    start: TilePos,
    goal: TilePos,
    blocked: Seq<TilePos>,
    dim: (u32, u32),
) -> bool {
    &&& path.len() >= 1
    &&& tile_dist(start, path[0]) == 1
    &&& tile_dist(path[path.len() - 1], goal) == 1
    &&& forall|i: int| 0 <= i < path.len() - 1 ==> tile_dist(#[trigger] path[i], path[i + 1]) == 1
    &&& forall|i: int| 0 <= i < path.len() ==> on_map_spec(#[trigger] path[i], dim)
    &&& forall|i: int| 0 <= i < path.len() ==> !blocked.contains(#[trigger] path[i])
    &&& forall|i: int| 0 <= i < path.len() ==> (#[trigger] path[i]) != start
    &&& forall|i: int| 0 <= i < path.len() - 1 ==> tile_dist(#[trigger] path[i], goal) != 1
    &&& forall|i: int, j: int| 0 <= i < j < path.len() ==> path[i] != path[j]
}

/// The backward chain of tiles from one node to the root, the node's
/// own tile first. The guards only make the recursion well-founded;
/// on a well-formed arena, where every parent index is smaller, they
/// never cut the walk short.
pub open spec fn model_chain(s: Seq<SearchNode>, idx: int) -> Seq<TilePos>
    decreases idx,
{
    if idx <= 0 || idx >= s.len() || s[idx].parent as int >= idx {
        Seq::empty()
    } else {
        seq![s[idx].pos] + model_chain(s, s[idx].parent as int)
    }
}

/// The forward step list read off a finished search: the backward
/// chain from the goal-adjacent node, reversed.
pub open spec fn path_model(s: Seq<SearchNode>, f: int) -> Seq<TilePos> {
    model_chain(s, f).reverse()
}

/// Walks the parent chain back from the goal-adjacent node: the
/// found node first, its ancestors after it, ending one step from the
/// start. Each entry comes from a distinct node, so no tile repeats.
fn collect_chain(
    nodes: &Vec<SearchNode>,
    found: usize,
    Ghost(start): Ghost<TilePos>,
    Ghost(goal): Ghost<TilePos>,
    Ghost(blocked): Ghost<Seq<TilePos>>,
    Ghost(dim): Ghost<(u32, u32)>,
) -> (rev: Vec<TilePos>)
    requires
        search_inv(nodes@, start, goal, blocked, dim),
        0 < found == nodes@.len() - 1,
        nodes@[found as int].to_goal == 1,
        forall|i: int| 0 < i < found ==> (#[trigger] nodes@[i]).to_goal != 1,
    ensures
        rev@.len() >= 1,
        tile_dist(rev@[0], goal) == 1,
        tile_dist(rev@[rev@.len() - 1], start) == 1,
        forall|j: int| 0 <= j < rev@.len() - 1 ==> tile_dist(rev@[j + 1], #[trigger] rev@[j]) == 1,
        forall|j: int|
            0 <= j < rev@.len() ==> on_map_spec(#[trigger] rev@[j], dim) && !blocked.contains(
                rev@[j],
            ) && rev@[j] != start,
        forall|j: int| 1 <= j < rev@.len() ==> tile_dist(#[trigger] rev@[j], goal) != 1,
        forall|j1: int, j2: int| 0 <= j1 < j2 < rev@.len() ==> rev@[j1] != rev@[j2],
        rev@ == model_chain(nodes@, found as int),
{
    let mut rev: Vec<TilePos> = Vec::new();
    let mut idx: usize = found;
    let ghost mut idxs: Seq<int> = Seq::empty();
    proof {
        assert(Seq::<TilePos>::empty() + model_chain(nodes@, found as int) =~= model_chain(
            nodes@,
            found as int,
        ));
    }
    while idx != 0
        invariant
            model_chain(nodes@, found as int) == rev@ + model_chain(nodes@, idx as int),
            forall|i: int| 0 < i < nodes@.len() ==> (#[trigger] nodes@[i]).parent < i,
            0 < found < nodes@.len(),
            idx < nodes@.len(),
            idxs.len() == rev@.len(),
            forall|j: int|
                0 <= j < idxs.len() ==> 0 < (#[trigger] idxs[j]) < nodes@.len() && rev@[j]
                    == nodes@[idxs[j]].pos,
            idxs.len() == 0 ==> idx == found,
            idxs.len() >= 1 ==> idxs[0] == found,
            forall|j: int| 0 <= j < idxs.len() - 1 ==> idxs[j + 1] == nodes@[#[trigger] idxs[j]].parent,
            forall|j1: int, j2: int| 0 <= j1 < j2 < idxs.len() ==> idxs[j2] < idxs[j1],
            idxs.len() >= 1 ==> idx as int == nodes@[idxs[idxs.len() - 1]].parent && idx
                < idxs[idxs.len() - 1],
        decreases idx,
    {
        proof {
            assert(model_chain(nodes@, idx as int) == seq![nodes@[idx as int].pos]
                + model_chain(nodes@, nodes@[idx as int].parent as int));
            assert(rev@ + (seq![nodes@[idx as int].pos] + model_chain(
                nodes@,
                nodes@[idx as int].parent as int,
            )) =~= rev@.push(nodes@[idx as int].pos) + model_chain(
                nodes@,
                nodes@[idx as int].parent as int,
            ));
        }
        rev.push(nodes[idx].pos);
        proof {
            idxs = idxs.push(idx as int);
        }
        idx = nodes[idx].parent;
    }
    proof {
        assert(model_chain(nodes@, 0) =~= Seq::<TilePos>::empty());
        assert(rev@ + Seq::<TilePos>::empty() =~= rev@);
        assert(idxs.len() >= 1);
        assert(rev@[0] == nodes@[found as int].pos);
        assert forall|j: int|
            0 <= j < rev@.len() implies on_map_spec(#[trigger] rev@[j], dim) && !blocked.contains(
            rev@[j],
        ) && rev@[j] != start by {
            assert(rev@[j] == nodes@[idxs[j]].pos && 0 < idxs[j] < nodes@.len());
            assert(nodes@[idxs[j]].pos != nodes@[0].pos);
        }
        assert forall|j: int| 1 <= j < rev@.len() implies tile_dist(#[trigger] rev@[j], goal)
            != 1 by {
            assert(idxs[j] < idxs[0]);
            assert(nodes@[idxs[j]].to_goal != 1);
            assert(nodes@[idxs[j]].to_goal as int == tile_dist(nodes@[idxs[j]].pos, goal));
        }
        assert forall|j: int| 0 <= j < rev@.len() - 1 implies tile_dist(
            rev@[j + 1],
            #[trigger] rev@[j],
        ) == 1 by {
            assert(idxs[j + 1] == nodes@[idxs[j]].parent);
            assert(tile_dist(nodes@[idxs[j]].pos, nodes@[nodes@[idxs[j]].parent as int].pos)
                == 1);
        }
        assert forall|j1: int, j2: int| 0 <= j1 < j2 < rev@.len() implies rev@[j1] != rev@[j2] by {
            assert(idxs[j2] < idxs[j1]);
            assert(nodes@[idxs[j2]].pos != nodes@[idxs[j1]].pos);
        }
        let last = idxs[idxs.len() - 1];
        assert(nodes@[last].parent == 0);
        assert(tile_dist(nodes@[last].pos, nodes@[0].pos) == 1);
    }
    rev
}

/// Reverses the collected chain into a forward step list.
fn extract_path(
    nodes: &Vec<SearchNode>,
    found: usize,
    Ghost(start): Ghost<TilePos>,
    Ghost(goal): Ghost<TilePos>,
    Ghost(blocked): Ghost<Seq<TilePos>>,
    Ghost(dim): Ghost<(u32, u32)>,
) -> (path: Vec<TilePos>)
    requires
        search_inv(nodes@, start, goal, blocked, dim),
        0 < found == nodes@.len() - 1,
        nodes@[found as int].to_goal == 1,
        forall|i: int| 0 < i < found ==> (#[trigger] nodes@[i]).to_goal != 1,
    ensures
        valid_search_path(path@, start, goal, blocked, dim),
        path@ == path_model(nodes@, found as int),
{
    let rev = collect_chain(nodes, found, Ghost(start), Ghost(goal), Ghost(blocked), Ghost(dim));
    let n = rev.len();
    let mut path: Vec<TilePos> = Vec::new();
    let mut k: usize = n;
    while k > 0
        invariant
            n == rev@.len(),
            k <= n,
            path@.len() == n - k,
            forall|i: int| 0 <= i < path@.len() ==> path@[i] == rev@[n - 1 - i],
        decreases k,
    {
        k = k - 1;
        path.push(rev[k]);
    }
    proof {
        assert(path@.len() == n);
        assert(path@[0] == rev@[n - 1]);
        assert(path@[n - 1] == rev@[0]);
        assert forall|i: int| 0 <= i < path@.len() - 1 implies tile_dist(
            #[trigger] path@[i],
            path@[i + 1],
        ) == 1 by {
            assert(path@[i] == rev@[n - 1 - i] && path@[i + 1] == rev@[n - 2 - i]);
        }
        assert forall|i: int| 0 <= i < path@.len() - 1 implies tile_dist(
            #[trigger] path@[i],
            goal,
        ) != 1 by {
            assert(path@[i] == rev@[n - 1 - i] && n - 1 - i >= 1);
        }
        assert forall|i: int, j: int| 0 <= i < j < path@.len() implies path@[i] != path@[j] by {
            assert(path@[i] == rev@[n - 1 - i] && path@[j] == rev@[n - 1 - j]);
            assert(rev@[n - 1 - j] != rev@[n - 1 - i]);
        }
        assert(path@ =~= rev@.reverse());
    }
    path
}

/// The search's answer as a function of its four inputs alone: the
/// step list read off the modeled search, or nothing when it runs
/// dry. The public search function is proved equal to this model, so
/// two calls on the same inputs return the same answer, with the
/// lowest-f, then lowest-h, then oldest tie-break pinned down.
pub open spec fn a_star_model(
    start: TilePos,
    goal: TilePos,
    blocked: Seq<TilePos>,
    dim: (u32, u32),
) -> Option<Seq<TilePos>> {
    match search_model(start, goal, blocked, dim) {
        Some(m) => Some(path_model(m.0, m.1)),
        None => None,
    }
}

/// Searches for a step sequence from (but not including) the start to
/// the first tile found adjacent to the goal. Returns `None` when no
/// goal-adjacent tile is reachable; callers treat that as "stay put",
/// never as an error.
///
/// The search always terminates: every one of its loops carries a
/// `decreases` measure, the main one bounded by
/// `lemma_visited_count_bound` (a finite map admits only finitely
/// many expansions), so for every finite grid, occupancy set, start
/// and goal the call returns a finite step list or `None`.
///
/// The result is pinned to `a_star_model`, a function of the four
/// arguments alone: nodes are expanded lowest weight first, ties
/// broken by the smaller distance to the goal and then by age, and
/// neighbors are generated in a fixed order, so the search is
/// deterministic by contract.
pub fn simple_a_star(
    start: TilePos,
    goal: TilePos,
    blocked: &Vec<TilePos>,
    map_dim: (u32, u32),
) -> (r: Option<Vec<TilePos>>)
    ensures
        match r {
            Some(path) => a_star_model(start, goal, blocked@, map_dim) == Some(path@)
                && valid_search_path(path@, start, goal, blocked@, map_dim),
            None => a_star_model(start, goal, blocked@, map_dim) is None
                && no_reachable_adjacent(start, goal, blocked@, map_dim),
        },
{
    match run_search(start, goal, blocked, map_dim) {
        Some((nodes, found)) => {
            let path = extract_path(
                &nodes,
                found,
                Ghost(start),
                Ghost(goal),
                Ghost(blocked@),
                Ghost(map_dim),
            );
            Some(path)
        },
        None => None,
    }
}

/// This turn's destination along a path: the whole path when the
/// movement speed covers it, otherwise the tile reached after exactly
/// `speed` steps.
pub fn movement_budget(path: &Vec<TilePos>, speed: u32) -> (dest: TilePos)
    requires
        path@.len() >= 1,
        speed >= 1,
    ensures
        speed >= path@.len() ==> dest == path@[path@.len() - 1],
        speed < path@.len() ==> dest == path@[speed as int - 1],
{
    if speed as u64 >= path.len() as u64 {
        path[path.len() - 1]
    } else {
        path[(speed - 1) as usize]
    }
}

/// Movement budgeting reaches the goal exactly when the speed covers
/// the whole path: the path's last tile is the only goal-adjacent tile
/// on it, so the budgeted destination is adjacent to the goal if and
/// only if the speed is at least the path's length.
pub proof fn lemma_movement_budget_reaches(
    path: Seq<TilePos>,
    goal: TilePos,
    speed: u32,
    dest: TilePos,
)
    requires
        path.len() >= 1,
        speed >= 1,
        tile_dist(path[path.len() - 1], goal) == 1,
        forall|i: int| 0 <= i < path.len() - 1 ==> tile_dist(path[i], goal) != 1,
        dest == if speed >= path.len() {
            path[path.len() - 1]
        } else {
            path[speed as int - 1]
        },
    ensures
        (tile_dist(dest, goal) == 1) <==> speed >= path.len(),
{
}

/// A step list the search produced is itself a walk over free tiles,
/// so each of its tiles (in particular the budgeted destination) is
/// reachable from the start.
pub proof fn lemma_search_path_reaches(
    path: Seq<TilePos>,
    start: TilePos,
    goal: TilePos,
    blocked: Seq<TilePos>,
    dim: (u32, u32),
    k: int,
)
    requires
        valid_search_path(path, start, goal, blocked, dim),
        0 <= k < path.len(),
    ensures
        reachable_from(start, path[k], blocked, dim),
{
    let chain = path.take(k + 1);
    assert(is_step_chain(chain, start, blocked, dim)) by {
        assert(forall|j: int| 0 <= j < chain.len() ==> chain[j] == path[j]);
    }
    assert(chain.last() == path[k]);
}

/// A step of a path is never farther from the start than its index
/// allows: unit steps cover at most one tile of Manhattan distance
/// each.
pub proof fn lemma_path_distance_bound(
    path: Seq<TilePos>,
    start: TilePos,
    goal: TilePos,
    blocked: Seq<TilePos>,
    dim: (u32, u32),
    k: int,
)
    requires
        valid_search_path(path, start, goal, blocked, dim),
        0 <= k < path.len(),
    ensures
        tile_dist(start, path[k]) <= k + 1,
    decreases k,
{
    if k > 0 {
        lemma_path_distance_bound(path, start, goal, blocked, dim, k - 1);
        assert(tile_dist(path[k - 1], path[k]) == 1);
    }
}

/// What planning a move produces: the destination is the budgeted
/// tile of a step list the search could have found — the whole path
/// when the movement speed covers it, the speed-th step otherwise —
/// and the reached flag says exactly whether the speed covered it.
pub open spec fn budgeted_search_result(
    dest: TilePos,
    reached: bool,
    start: TilePos,
    goal: TilePos,
    speed: u32,
    blocked: Seq<TilePos>,
    dim: (u32, u32),
) -> bool {
    exists|path: Seq<TilePos>|
        {
            &&& #[trigger] valid_search_path(path, start, goal, blocked, dim)
            &&& reached == (speed >= path.len())
            &&& dest == if speed >= path.len() {
                path[path.len() - 1]
            } else {
                path[speed as int - 1]
            }
        }
}

/// Plans this turn's move toward a goal tile. Returns `None` when the
/// mover already stands on the goal or no goal-adjacent tile is
/// reachable; otherwise the destination tile for this turn and whether
/// it is adjacent to the goal, in which case an attack may follow at
/// once. A mover already adjacent to the goal stays put with the flag
/// set.
pub fn get_move(
    start: &TilePos,
    goal: &TilePos,
    speed: u32,
    blocked: &Vec<TilePos>,
    map_dim: (u32, u32),
) -> (r: Option<(TilePos, bool)>)
    requires
        speed >= 1,
    ensures
        *start == *goal ==> r is None,
        tile_dist(*start, *goal) == 1 ==> r == Some((*start, true)),
        match r {
            Some(p) => {
                &&& p.1 == (tile_dist(p.0, *goal) == 1)
                &&& (tile_dist(*start, *goal) != 1 ==> {
                    &&& on_map_spec(p.0, map_dim)
                    &&& !blocked@.contains(p.0)
                    &&& p.0 != *start
                    &&& reachable_from(*start, p.0, blocked@, map_dim)
                    &&& tile_dist(*start, p.0) <= speed
                    &&& !no_reachable_adjacent(*start, *goal, blocked@, map_dim)
                    &&& budgeted_search_result(p.0, p.1, *start, *goal, speed, blocked@, map_dim)
                    &&& ({
                        let m = a_star_model(*start, *goal, blocked@, map_dim);
                        m matches Some(mp) && p.1 == (speed >= mp.len()) && p.0 == (if speed
                            >= mp.len() {
                            mp[mp.len() - 1]
                        } else {
                            mp[speed as int - 1]
                        })
                    })
                })
            },
            None => *start == *goal || (a_star_model(*start, *goal, blocked@, map_dim) is None
                && no_reachable_adjacent(*start, *goal, blocked@, map_dim)),
        },
{
    if start == goal {
        return None;
    }
    if tile_distance(start, goal) == 1 {
        return Some((*start, true));
    }
    match simple_a_star(*start, *goal, blocked, map_dim) {
        Some(path) => {
            let dest = movement_budget(&path, speed);
            let reached = tile_distance(&dest, goal) == 1;
            proof {
                let k: int = if speed >= path@.len() {
                    path@.len() - 1
                } else {
                    speed as int - 1
                };
                lemma_search_path_reaches(path@, *start, *goal, blocked@, map_dim, k);
                lemma_path_distance_bound(path@, *start, *goal, blocked@, map_dim, k);
                lemma_movement_budget_reaches(path@, *goal, speed, dest);
                let last = path@[path@.len() - 1];
                lemma_search_path_reaches(
                    path@,
                    *start,
                    *goal,
                    blocked@,
                    map_dim,
                    path@.len() - 1,
                );
                assert(free_tile(last, blocked@, map_dim) && last != *start && reachable_from(
                    *start,
                    last,
                    blocked@,
                    map_dim,
                ) && tile_dist(last, *goal) == 1);
                assert(budgeted_search_result(
                    dest,
                    reached,
                    *start,
                    *goal,
                    speed,
                    blocked@,
                    map_dim,
                )) by {
                    assert(valid_search_path(path@, *start, *goal, blocked@, map_dim));
                }
            }
            Some((dest, reached))
        },
        None => None,
    }
}

} // verus!
