//! Shortest-path search over character states (cell and key inventory).
use vstd::prelude::*;
use crate::maze::{
    adjacent, keys_after, manhattan, manhattan_distance, passable, Maze, Pos, TileKind,
};

verus! {

/// A node of the search: where the character stands and which keys it holds.
#[derive(PartialEq, Eq, Clone, Copy, Debug, Hash)]
pub struct State {
    pub pos: Pos,
    pub keys: [bool; 3],
}

/// Whether a character in state `s` may step onto `target`.
pub open spec fn legal_move(m: &Maze, s: State, target: Pos) -> bool {
    m.in_bounds(target) && passable(s.keys@, m.kind_at(target))
}

/// One transition of the search graph: `t` is an in-bounds neighbour of `s` that `s` may
/// enter, holding the keys that `s` holds plus the one picked up there.
pub open spec fn is_step(m: &Maze, s: State, t: State) -> bool {
    &&& m.neighbors_spec(s.pos).contains(t.pos)
    &&& legal_move(m, s, t.pos)
    &&& t.keys@ == keys_after(s.keys@, m.kind_at(t.pos))
}

/// A non-empty sequence of states, each a step from the one before.
pub open spec fn is_walk(m: &Maze, w: Seq<State>) -> bool {
    &&& w.len() >= 1
    &&& forall|i: int| 0 <= i < w.len() - 1 ==> #[trigger] is_step(m, w[i], w[i + 1])
}

/// A walk from `start` to a state standing on `goal`.
pub open spec fn is_route(m: &Maze, w: Seq<State>, start: State, goal: Pos) -> bool {
    &&& is_walk(m, w)
    &&& w[0] == start
    &&& w.last().pos == goal
}

pub open spec fn reachable(m: &Maze, start: State, goal: Pos) -> bool {
    exists|w: Seq<State>| is_route(m, w, start, goal)
}

/// No state stands on a gate whose key it lacks.
pub open spec fn gate_open(m: &Maze, s: State) -> bool {
    match m.kind_at(s.pos) {
        TileKind::Gate(k) => s.keys@[k as int],
        _ => true,
    }
}

/// The cells among `ns` that a character holding `keys` may enter, in order.
pub open spec fn successor_cells(m: &Maze, keys: Seq<bool>, ns: Seq<Pos>) -> Seq<Pos>
    decreases ns.len(),
{
    if ns.len() == 0 {
        seq![]
    } else {
        let rest = successor_cells(m, keys, ns.drop_last());
        if passable(keys, m.kind_at(ns.last())) {
            rest.push(ns.last())
        } else {
            rest
        }
    }
}

proof fn lemma_successor_cells_members(m: &Maze, keys: Seq<bool>, ns: Seq<Pos>, q: Pos)
    ensures
        successor_cells(m, keys, ns).contains(q) <==> (ns.contains(q) && passable(
            keys,
            m.kind_at(q),
        )),
    decreases ns.len(),
{
    if ns.len() > 0 {
        let init = ns.drop_last();
        let x = ns.last();
        lemma_successor_cells_members(m, keys, init, q);
        let rest = successor_cells(m, keys, init);
        assert(ns =~= init.push(x));
        assert(ns.contains(q) <==> (init.contains(q) || q == x)) by {
            if ns.contains(q) && q != x {
                let i = choose|i: int| 0 <= i < ns.len() && ns[i] == q;
                assert(init[i] == q);
            }
            if init.contains(q) {
                let i = choose|i: int| 0 <= i < init.len() && init[i] == q;
                assert(ns[i] == q);
            }
            if q == x {
                assert(ns[ns.len() - 1] == q);
            }
        }
        if passable(keys, m.kind_at(x)) {
            let r = rest.push(x);
            assert(r.contains(q) <==> (rest.contains(q) || q == x)) by {
                if r.contains(q) && q != x {
                    let i = choose|i: int| 0 <= i < r.len() && r[i] == q;
                    assert(rest[i] == q);
                }
                if rest.contains(q) {
                    let i = choose|i: int| 0 <= i < rest.len() && rest[i] == q;
                    assert(r[i] == q);
                }
                if q == x {
                    assert(r[rest.len() as int] == q);
                }
            }
        }
    }
}

/// The successors of `s` in the search graph, each with cost 1: for each in-bounds
/// neighbour (up, down, left, right) that `s` may enter, the state there, with the key of
/// that cell added to the inventory.
pub fn successors(maze: &Maze, s: &State) -> (r: Vec<(State, u64)>)
    requires
        maze.wf(),
        maze.in_bounds(s.pos),
    ensures
        r@.len() == successor_cells(maze, s.keys@, maze.neighbors_spec(s.pos)).len(),
        forall|i: int|
            0 <= i < r@.len() ==> {
                &&& (#[trigger] r@[i]).0.pos == successor_cells(
                    maze,
                    s.keys@,
                    maze.neighbors_spec(s.pos),
                )[i]
                &&& r@[i].0.keys@ == keys_after(s.keys@, maze.kind_at(r@[i].0.pos))
                &&& r@[i].1 == 1
            },
        forall|t: State|
            is_step(maze, *s, t) <==> exists|i: int|
                0 <= i < r@.len() && (#[trigger] r@[i]).0.pos == t.pos && r@[i].0.keys@
                    == t.keys@,
{
    let ns = maze.neighbors4(s.pos);
    let ghost nspec = maze.neighbors_spec(s.pos);
    let mut r: Vec<(State, u64)> = Vec::new();
    let mut i: usize = 0;
    while i < ns.len()
        invariant
            maze.wf(),
            ns@ == nspec,
            nspec == maze.neighbors_spec(s.pos),
            forall|j: int| 0 <= j < nspec.len() ==> maze.in_bounds(#[trigger] nspec[j]),
            0 <= i <= ns@.len(),
            r@.len() == successor_cells(maze, s.keys@, nspec.take(i as int)).len(),
            forall|j: int|
                0 <= j < r@.len() ==> {
                    &&& (#[trigger] r@[j]).0.pos == successor_cells(
                        maze,
                        s.keys@,
                        nspec.take(i as int),
                    )[j]
                    &&& r@[j].0.keys@ == keys_after(s.keys@, maze.kind_at(r@[j].0.pos))
                    &&& r@[j].1 == 1
                },
        decreases ns@.len() - i,
    {
        let q = ns[i];
        let kind = maze.classify(q);
        assert(nspec.take(i + 1).drop_last() =~= nspec.take(i as int));
        assert(nspec.take(i + 1).last() == q);
        let ghost before = r@;
        match kind {
            TileKind::Wall => {},
            TileKind::Gate(k) => {
                if s.keys[k] {
                    r.push((State { pos: q, keys: s.keys }, 1));
                }
            },
            TileKind::Key(k) => {
                let mut keys = s.keys;
                keys[k] = true;
                r.push((State { pos: q, keys }, 1));
            },
            _ => {
                r.push((State { pos: q, keys: s.keys }, 1));
            },
        }
        proof {
            let cells = successor_cells(maze, s.keys@, nspec.take(i + 1));
            assert forall|j: int| 0 <= j < r@.len() implies (#[trigger] r@[j]).0.pos == cells[j]
                by {
                if j < before.len() {
                    assert(r@[j] == before[j]);
                }
            }
        }
        i = i + 1;
    }
    proof {
        assert(nspec.take(nspec.len() as int) =~= nspec);
        let cells = successor_cells(maze, s.keys@, nspec);
        assert forall|t: State| is_step(maze, *s, t) <==> exists|i: int|
            0 <= i < r@.len() && (#[trigger] r@[i]).0.pos == t.pos && r@[i].0.keys@
                == t.keys@ by {
            lemma_successor_cells_members(maze, s.keys@, nspec, t.pos);
            if is_step(maze, *s, t) {
                let j = choose|j: int| 0 <= j < cells.len() && cells[j] == t.pos;
                assert(r@[j].0.pos == t.pos);
            }
            if exists|i: int|
                0 <= i < r@.len() && (#[trigger] r@[i]).0.pos == t.pos && r@[i].0.keys@
                    == t.keys@ {
                let j = choose|i: int|
                    0 <= i < r@.len() && (#[trigger] r@[i]).0.pos == t.pos && r@[i].0.keys@
                        == t.keys@;
                assert(cells[j] == t.pos);
                assert(cells.contains(t.pos));
            }
        }
    }
    r
}

/// Whether a character in `state` may step onto `target`: not a wall, and a gate only with
/// its key.
pub fn is_legal_move(maze: &Maze, state: &State, target: Pos) -> (r: bool)
    requires
        maze.wf(),
        maze.in_bounds(target),
    ensures
        r == legal_move(maze, *state, target),
{
    match maze.classify(target) {
        TileKind::Wall => false,
        TileKind::Gate(k) => state.keys[k],
        _ => true,
    }
}

/// The goal test of the search: the character stands on `goal`, whatever keys it holds.
pub fn at_goal(s: &State, goal: Pos) -> (r: bool)
    ensures
        r == (s.pos == goal),
{
    s.pos == goal
}

/// The heuristic of the search: grid distance from the state's cell to `goal`.
pub fn heuristic(s: &State, goal: Pos) -> (r: u64)
    ensures
        r == manhattan(s.pos, goal),
{
    manhattan_distance(s.pos, goal)
}

/// The path that the A* search of `pathfinding` returns for this maze, start and goal,
/// or `None`.
pub uninterp spec fn astar_route(
    cells: Seq<Option<u16>>,
    width: u32,
    height: u32,
    start: State,
    goal: Pos,
) -> Option<Seq<State>>;

/// Relies on `pathfinding::directed::astar::astar`, called with `successors` (whose edges are
/// exactly `is_step`), `heuristic` (which never overestimates, see
/// `lemma_heuristic_admissible`) and `at_goal`: it returns a shortest path of the successor
/// graph from `start` to a node that passes the goal test, start and end included, with its
/// total cost (here one per step), or `None` when no such node can be reached; the graph
/// reachable from an in-bounds state is finite. Its result depends on its arguments alone: a
/// binary heap and an insertion-ordered map drive the search.
#[verifier::external_body]
fn astar_search(maze: &Maze, start: State, goal: Pos) -> (r: Option<(Vec<State>, u64)>)
    requires
        maze.wf(),
        maze.in_bounds(start.pos),
    ensures
        match r {
            Some((path, cost)) => {
                &&& astar_route(maze.cells@, maze.width, maze.height, start, goal) == Some(path@)
                &&& is_route(maze, path@, start, goal)
                &&& cost == path@.len() - 1
                &&& forall|w: Seq<State>| #[trigger]
                    is_route(maze, w, start, goal) ==> path@.len() <= w.len()
            },
            None => {
                &&& astar_route(maze.cells@, maze.width, maze.height, start, goal) is None
                &&& forall|w: Seq<State>| !(#[trigger] is_route(maze, w, start, goal))
            },
        },
{
    pathfinding::directed::astar::astar(
        &start,
        |s: &State| successors(maze, s),
        |s: &State| heuristic(s, goal),
        |s: &State| at_goal(s, goal),
    )
}

/// What the search yields: its path, or the empty sequence when it found none.
pub open spec fn route_found(m: &Maze, start: State, goal: Pos) -> Seq<State> {
    match astar_route(m.cells@, m.width, m.height, start, goal) {
        Some(p) => p,
        None => seq![],
    }
}

/// `r` is a route from `start` to `goal` and no route is shorter.
pub open spec fn is_shortest_route(m: &Maze, r: Seq<State>, start: State, goal: Pos) -> bool {
    &&& is_route(m, r, start, goal)
    &&& forall|w: Seq<State>| #[trigger] is_route(m, w, start, goal) ==> r.len() <= w.len()
}

/// `r` answers the search: a shortest route when the goal is reachable, else empty.
pub open spec fn solves(m: &Maze, start: State, goal: Pos, r: Seq<State>) -> bool {
    if reachable(m, start, goal) {
        is_shortest_route(m, r, start, goal)
    } else {
        r.len() == 0
    }
}

/// `t` is one orthogonal step away from `s`, and `s` may enter its cell.
pub open spec fn legal_pair(m: &Maze, s: State, t: State) -> bool {
    adjacent(s.pos, t.pos) && legal_move(m, s, t.pos)
}

/// Every consecutive pair is one orthogonal step apart and the move is legal for the
/// inventory held before it.
pub open spec fn moves_legal(m: &Maze, r: Seq<State>) -> bool {
    forall|i: int| 0 <= i < r.len() - 1 ==> #[trigger] legal_pair(m, r[i], r[i + 1])
}

/// A key held at some point of `r` is held at every later point.
pub open spec fn keys_monotone(r: Seq<State>) -> bool {
    forall|i: int, j: int, k: int|
        0 <= i <= j < r.len() && 0 <= k < 3 && #[trigger] r[i].keys@[k] ==> #[trigger] r[j].keys@[k]
}

/// No state after the first stands on a gate whose key it lacks.
pub open spec fn gates_respected(m: &Maze, r: Seq<State>) -> bool {
    forall|i: int| 1 <= i < r.len() ==> #[trigger] gate_open(m, r[i])
}

/// A step goes to an in-bounds cell one orthogonal step away.
pub proof fn lemma_step_adjacent(m: &Maze, s: State, t: State)
    requires
        is_step(m, s, t),
    ensures
        adjacent(s.pos, t.pos),
        m.in_bounds(t.pos),
{
    let ns = m.neighbors_spec(s.pos);
    let i = choose|i: int| 0 <= i < ns.len() && ns[i] == t.pos;
}

/// A step keeps every key and enters a gate only with its key.
pub proof fn lemma_step_keys(m: &Maze, s: State, t: State)
    requires
        m.wf(),
        is_step(m, s, t),
    ensures
        forall|k: int| 0 <= k < 3 && s.keys@[k] ==> t.keys@[k],
        gate_open(m, t),
{
    lemma_step_adjacent(m, s, t);
}

/// A walk that starts in bounds stays in bounds.
pub proof fn lemma_walk_in_bounds(m: &Maze, w: Seq<State>)
    requires
        is_walk(m, w),
        m.in_bounds(w[0].pos),
    ensures
        forall|i: int| 0 <= i < w.len() ==> m.in_bounds(#[trigger] w[i].pos),
{
    assert forall|i: int| 0 <= i < w.len() implies m.in_bounds(#[trigger] w[i].pos) by {
        if i > 0 {
            assert(is_step(m, w[i - 1], w[(i - 1) + 1]));
            lemma_step_adjacent(m, w[i - 1], w[i]);
        }
    }
}

/// Along a walk, keys are never lost.
pub proof fn lemma_walk_keys_monotone(m: &Maze, w: Seq<State>)
    requires
        m.wf(),
        is_walk(m, w),
    ensures
        keys_monotone(w),
{
    assert forall|i: int, j: int, k: int|
        0 <= i <= j < w.len() && 0 <= k < 3 && #[trigger] w[i].keys@[k] implies #[trigger] w[j].keys@[k] by {
        lemma_walk_keys_between(m, w, i, j, k);
    }
}

proof fn lemma_walk_keys_between(m: &Maze, w: Seq<State>, i: int, j: int, k: int)
    requires
        m.wf(),
        is_walk(m, w),
        0 <= i <= j < w.len(),
        0 <= k < 3,
        w[i].keys@[k],
    ensures
        w[j].keys@[k],
    decreases j - i,
{
    if i < j {
        assert(is_step(m, w[i], w[i + 1]));
        lemma_step_keys(m, w[i], w[i + 1]);
        lemma_walk_keys_between(m, w, i + 1, j, k);
    }
}

/// Along a walk every move is one legal orthogonal step, and no state after the first
/// stands on a locked gate.
pub proof fn lemma_walk_legal(m: &Maze, w: Seq<State>)
    requires
        m.wf(),
        is_walk(m, w),
    ensures
        moves_legal(m, w),
        gates_respected(m, w),
{
    assert forall|i: int| 0 <= i < w.len() - 1 implies #[trigger] legal_pair(m, w[i], w[i + 1]) by {
        assert(is_step(m, w[i], w[i + 1]));
        lemma_step_adjacent(m, w[i], w[i + 1]);
    }
    assert forall|i: int| 1 <= i < w.len() implies #[trigger] gate_open(m, w[i]) by {
        assert(is_step(m, w[i - 1], w[(i - 1) + 1]));
        lemma_step_keys(m, w[i - 1], w[i]);
    }
}

/// The heuristic never overestimates: every walk is at least as long, in steps, as the grid
/// distance between its ends.
pub proof fn lemma_heuristic_admissible(m: &Maze, w: Seq<State>)
    requires
        is_walk(m, w),
    ensures
        manhattan(w[0].pos, w.last().pos) <= w.len() - 1,
    decreases w.len(),
{
    if w.len() > 1 {
        let v = w.drop_last();
        assert forall|i: int| 0 <= i < v.len() - 1 implies #[trigger] is_step(m, v[i], v[i + 1]) by {
            assert(is_step(m, w[i], w[i + 1]));
        }
        lemma_heuristic_admissible(m, v);
        assert(is_step(m, w[w.len() - 2], w[(w.len() - 2) + 1]));
        lemma_step_adjacent(m, w[w.len() - 2], w.last());
    }
}

/// Finds a shortest legal sequence of states from `start` to a state standing on `goal`,
/// `start` and the final state included; the sequence is empty when no route exists.
pub fn solve(maze: &Maze, start: State, goal: Pos) -> (r: Vec<State>)
    requires
        maze.wf(),
        maze.in_bounds(start.pos),
    ensures
        r@ == route_found(maze, start, goal),
        solves(maze, start, goal, r@),
        r@.len() > 0 <==> reachable(maze, start, goal),
        forall|i: int| 0 <= i < r@.len() ==> maze.in_bounds(#[trigger] r@[i].pos),
        moves_legal(maze, r@),
        keys_monotone(r@),
        gates_respected(maze, r@),
{
    match astar_search(maze, start, goal) {
        Some((path, _cost)) => {
            proof {
                lemma_walk_legal(maze, path@);
                lemma_walk_keys_monotone(maze, path@);
                lemma_walk_in_bounds(maze, path@);
            }
            path
        },
        None => {
            let r: Vec<State> = Vec::new();
            proof {
                assert(r@ =~= seq![]);
            }
            r
        },
    }
}

/// Solving twice on the same maze, start and goal gives the same sequence.
pub proof fn lemma_solve_deterministic(
    m: &Maze,
    start: State,
    goal: Pos,
    r1: Seq<State>,
    r2: Seq<State>,
)
    requires
        r1 == route_found(m, start, goal),
        r2 == route_found(m, start, goal),
    ensures
        r1 == r2,
{
}

/// Any two answers to the same search have the same length, whichever shortest route each
/// picked.
pub proof fn lemma_solutions_same_length(
    m: &Maze,
    start: State,
    goal: Pos,
    r1: Seq<State>,
    r2: Seq<State>,
)
    requires
        solves(m, start, goal, r1),
        solves(m, start, goal, r2),
    ensures
        r1.len() == r2.len(),
{
    if reachable(m, start, goal) {
        assert(is_route(m, r1, start, goal));
        assert(is_route(m, r2, start, goal));
    }
}

} // verus!
