//! The live game state: the character, the level, and the queued auto-solve playback.
use vstd::prelude::*;
use std::collections::VecDeque;
use crate::maze::{keys_after, Maze, Pos, TileKind, END_TILE, START_TILE};
use crate::solver::{is_legal_move, is_step, legal_move, route_found, solve, State};

verus! {

/// One discrete input event of a tick.
#[derive(PartialEq, Eq, Structural, Clone, Copy, Debug)]
pub enum Input {
    Up,
    Down,
    Left,
    Right,
    Solve,
}

/// `q` comes before `p` in row-major order (rows from `y == 0`).
pub open spec fn row_major_before(q: Pos, p: Pos) -> bool {
    q.y < p.y || (q.y == p.y && q.x < p.x)
}

/// The first cell, in row-major order, holding texture `texture`.
pub open spec fn is_first_with(m: &Maze, texture: u16, p: Pos) -> bool {
    &&& m.in_bounds(p)
    &&& m.cell(p) == Some(texture)
    &&& forall|q: Pos|
        m.in_bounds(q) && row_major_before(q, p) ==> #[trigger] m.cell(q) != Some(texture)
}

/// Where the level places a tile: its first cell with `texture`, or `(0, 0)` when it has none.
pub open spec fn placed_at(m: &Maze, texture: u16, p: Pos) -> bool {
    if exists|q: Pos| m.in_bounds(q) && #[trigger] m.cell(q) == Some(texture) {
        is_first_with(m, texture, p)
    } else {
        p == Pos { x: 0, y: 0 }
    }
}

/// Whether entering a cell of this kind removes its tile.
pub open spec fn consumed_on_entry(kind: TileKind) -> bool {
    kind is Key || kind is Gate
}

/// `(maze1, s1)` is what `(maze0, s0)` becomes when the character tries to enter `target`:
/// when the move is legal it stands there with the cell's key added, and a key or gate tile
/// there is removed; otherwise nothing changes.
pub open spec fn moved(maze0: &Maze, s0: State, target: Pos, maze1: &Maze, s1: State) -> bool {
    let kind = maze0.kind_at(target);
    &&& maze1.width == maze0.width
    &&& maze1.height == maze0.height
    &&& if legal_move(maze0, s0, target) {
        &&& s1.pos == target
        &&& s1.keys@ == keys_after(s0.keys@, kind)
        &&& maze1.cells@ == if consumed_on_entry(kind) {
            maze0.cells@.update(maze0.index_of(target), None)
        } else {
            maze0.cells@
        }
    } else {
        s1 == s0 && maze1.cells@ == maze0.cells@
    }
}

/// Manual movement and the solver follow one rule: a manual move onto the cell of a solver
/// step is legal and leaves the character in exactly the step's state.
pub proof fn lemma_step_matches_manual_move(
    maze0: &Maze,
    s: State,
    t: State,
    maze1: &Maze,
    s1: State,
)
    requires
        is_step(maze0, s, t),
        moved(maze0, s, t.pos, maze1, s1),
    ensures
        legal_move(maze0, s, t.pos),
        s1.pos == t.pos,
        s1.keys@ == t.keys@,
{
}

/// The queue played back after a solve: the solver's sequence without the current state.
pub open spec fn pending(r: Seq<State>) -> Seq<State> {
    if r.len() == 0 {
        r
    } else {
        r.drop_first()
    }
}

/// Net horizontal displacement asked for by a tick's events.
pub open spec fn input_dx(events: Seq<Input>) -> int
    decreases events.len(),
{
    if events.len() == 0 {
        0
    } else {
        input_dx(events.drop_last()) + match events.last() {
            Input::Left => -1int,
            Input::Right => 1int,
            _ => 0int,
        }
    }
}

/// Net vertical displacement asked for by a tick's events (up is `y + 1`).
pub open spec fn input_dy(events: Seq<Input>) -> int
    decreases events.len(),
{
    if events.len() == 0 {
        0
    } else {
        input_dy(events.drop_last()) + match events.last() {
            Input::Up => 1int,
            Input::Down => -1int,
            _ => 0int,
        }
    }
}

pub open spec fn clamp_spec(v: int, hi: int) -> int {
    if v < 0 {
        0
    } else if v > hi {
        hi
    } else {
        v
    }
}

/// The cell a tick's events aim at from `p`, clamped to the grid.
pub open spec fn input_target(m: &Maze, p: Pos, events: Seq<Input>) -> Pos {
    Pos {
        x: clamp_spec(p.x + input_dx(events), m.width - 1) as u32,
        y: clamp_spec(p.y + input_dy(events), m.height - 1) as u32,
    }
}

/// The game state that the main loop owns.
#[derive(Clone, Debug)]
pub struct Game {
    pub maze: Maze,
    pub ferris: State,
    pub goal: Pos,
    pub solution: VecDeque<State>,
}

/// The first cell, in row-major order, whose tile has texture index `texture`.
pub fn find_tile(maze: &Maze, texture: u16) -> (r: Option<Pos>)
    requires
        maze.wf(),
    ensures
        r matches Some(p) ==> is_first_with(maze, texture, p),
        r is None ==> forall|q: Pos| maze.in_bounds(q) ==> #[trigger] maze.cell(q) != Some(texture),
{
    let mut y: u32 = 0;
    while y < maze.height
        invariant
            maze.wf(),
            y <= maze.height,
            forall|q: Pos|
                maze.in_bounds(q) && q.y < y ==> #[trigger] maze.cell(q) != Some(texture),
        decreases maze.height - y,
    {
        let mut x: u32 = 0;
        while x < maze.width
            invariant
                maze.wf(),
                y < maze.height,
                x <= maze.width,
                forall|q: Pos|
                    maze.in_bounds(q) && (q.y < y || (q.y == y && q.x < x)) ==> #[trigger] maze.cell(
                        q,
                    ) != Some(texture),
            decreases maze.width - x,
        {
            let p = Pos { x, y };
            if maze.texture_at(p) == Some(texture) {
                return Some(p);
            }
            x = x + 1;
        }
        y = y + 1;
    }
    None
}

/// Where a tile of `texture` is placed: its first cell, or `(0, 0)` when the level has none.
fn placement(maze: &Maze, texture: u16) -> (r: Pos)
    requires
        maze.wf(),
    ensures
        placed_at(maze, texture, r),
        maze.in_bounds(r),
{
    match find_tile(maze, texture) {
        Some(p) => p,
        None => Pos { x: 0, y: 0 },
    }
}

/// Steps a walking animation: the next frame, kept in frames `0..4` when facing left and
/// in `4..8` otherwise (wrapping to the range's first frame).
pub fn advance_frame(index: usize, facing_left: bool) -> (r: usize)
    ensures
        facing_left ==> r == (if index + 1 < 4 { index + 1 } else { 0 }),
        !facing_left ==> r == (if 4 <= index + 1 < 8 { index + 1 } else { 4 }),
{
    if facing_left {
        if index < 3 {
            index + 1
        } else {
            0
        }
    } else {
        if 3 <= index && index < 7 {
            index + 1
        } else {
            4
        }
    }
}

impl Game {
    /// The character stands in the grid, and so does every queued state.
    pub open spec fn wf(&self) -> bool {
        &&& self.maze.wf()
        &&& self.maze.in_bounds(self.ferris.pos)
        &&& forall|i: int|
            0 <= i < self.solution@.len() ==> self.maze.in_bounds(#[trigger] self.solution@[i].pos)
    }

    /// Starts a level: the character stands on the start tile holding no key, the goal is
    /// the goal tile (each `(0, 0)` when the level lacks it), and nothing is queued.
    pub fn on_level_loaded(maze: Maze) -> (r: Game)
        requires
            maze.wf(),
        ensures
            r.wf(),
            r.maze == maze,
            placed_at(&maze, START_TILE, r.ferris.pos),
            r.ferris.keys@ == seq![false, false, false],
            placed_at(&maze, END_TILE, r.goal),
            r.solution@.len() == 0,
    {
        let start = placement(&maze, START_TILE);
        let goal = placement(&maze, END_TILE);
        let ferris = State { pos: start, keys: [false, false, false] };
        proof {
            assert(ferris.keys@ =~= seq![false, false, false]);
        }
        Game { maze, ferris, goal, solution: VecDeque::new() }
    }

    /// Solves from the current state and queues the result, without the current state
    /// itself; the queue is empty when the goal cannot be reached.
    pub fn request_solve(&mut self)
        requires
            old(self).wf(),
        ensures
            final(self).wf(),
            final(self).maze == old(self).maze,
            final(self).ferris == old(self).ferris,
            final(self).goal == old(self).goal,
            final(self).solution@ == pending(
                route_found(&old(self).maze, old(self).ferris, old(self).goal),
            ),
    {
        let path = solve(&self.maze, self.ferris, self.goal);
        let ghost r = path@;
        let mut queue: VecDeque<State> = VecDeque::new();
        let mut i: usize = 1;
        while i < path.len()
            invariant
                path@ == r,
                1 <= i,
                r.len() == 0 ==> queue@.len() == 0,
                r.len() > 0 ==> i <= r.len() && queue@ == r.subrange(1, i as int),
                forall|j: int| 0 <= j < r.len() ==> self.maze.in_bounds(#[trigger] r[j].pos),
            decreases path@.len() - i,
        {
            queue.push_back(path[i]);
            proof {
                assert(queue@ =~= r.subrange(1, i + 1));
            }
            i = i + 1;
        }
        proof {
            if r.len() > 0 {
                assert(queue@ =~= r.drop_first());
            } else {
                assert(queue@ =~= r);
            }
            assert forall|j: int| 0 <= j < queue@.len() implies self.maze.in_bounds(
                #[trigger] queue@[j].pos,
            ) by {
                assert(queue@[j] == r[j + 1]);
            }
        }
        self.solution = queue;
    }

    /// Tries to move the character onto `target`: a legal move puts it there, picks up the
    /// cell's key and removes a key or gate tile; an illegal one changes nothing.
    pub fn move_to(&mut self, target: Pos)
        requires
            old(self).wf(),
            old(self).maze.in_bounds(target),
        ensures
            final(self).wf(),
            moved(&old(self).maze, old(self).ferris, target, &final(self).maze, final(self).ferris),
            final(self).goal == old(self).goal,
            final(self).solution@ == old(self).solution@,
    {
        if is_legal_move(&self.maze, &self.ferris, target) {
            match self.maze.classify(target) {
                TileKind::Key(k) => {
                    self.ferris.keys[k] = true;
                    self.maze.consume_tile(target);
                },
                TileKind::Gate(_) => {
                    self.maze.consume_tile(target);
                },
                _ => {},
            }
            self.ferris.pos = target;
        }
    }

    /// One playback tick: the next queued state, if any, becomes the character's state, and
    /// a key or gate tile under it is removed.
    pub fn play_tick(&mut self)
        requires
            old(self).wf(),
        ensures
            final(self).wf(),
            final(self).goal == old(self).goal,
            old(self).solution@.len() == 0 ==> final(self).ferris == old(self).ferris
                && final(self).maze == old(self).maze && final(self).solution@.len() == 0,
            old(self).solution@.len() > 0 ==> {
                let next = old(self).solution@[0];
                &&& final(self).ferris == next
                &&& final(self).solution@ == old(self).solution@.drop_first()
                &&& final(self).maze.width == old(self).maze.width
                &&& final(self).maze.height == old(self).maze.height
                &&& final(self).maze.cells@ == if consumed_on_entry(
                    old(self).maze.kind_at(next.pos),
                ) {
                    old(self).maze.cells@.update(old(self).maze.index_of(next.pos), None)
                } else {
                    old(self).maze.cells@
                }
            },
    {
        let ghost before = self.solution@;
        match self.solution.pop_front() {
            Some(next) => {
                proof {
                    assert(self.solution@ =~= before.drop_first());
                    assert(self.maze.in_bounds(before[0].pos));
                    assert forall|i: int| 0 <= i < self.solution@.len() implies self.maze.in_bounds(
                        #[trigger] self.solution@[i].pos,
                    ) by {
                        assert(self.solution@[i] == before[i + 1]);
                    }
                }
                match self.maze.classify(next.pos) {
                    TileKind::Key(_) => self.maze.consume_tile(next.pos),
                    TileKind::Gate(_) => self.maze.consume_tile(next.pos),
                    _ => {},
                }
                self.ferris = next;
            },
            None => {},
        }
    }

    /// Handles one tick of input: each `Solve` event queues a fresh solution from the current
    /// state, and the directional events, summed, move the character once towards the
    /// resulting cell, clamped to the grid.
    pub fn handle_input(&mut self, events: &Vec<Input>)
        requires
            old(self).wf(),
        ensures
            final(self).wf(),
            final(self).goal == old(self).goal,
            final(self).solution@ == if events@.contains(Input::Solve) {
                pending(route_found(&old(self).maze, old(self).ferris, old(self).goal))
            } else {
                old(self).solution@
            },
            moved(
                &old(self).maze,
                old(self).ferris,
                input_target(&old(self).maze, old(self).ferris.pos, events@),
                &final(self).maze,
                final(self).ferris,
            ),
    {
        let ghost g0 = *self;
        let mut dx: i128 = 0;
        let mut dy: i128 = 0;
        let mut i: usize = 0;
        while i < events.len()
            invariant
                0 <= i <= events@.len(),
                self.wf(),
                self.maze == g0.maze,
                self.ferris == g0.ferris,
                self.goal == g0.goal,
                self.solution@ == if events@.take(i as int).contains(Input::Solve) {
                    pending(route_found(&g0.maze, g0.ferris, g0.goal))
                } else {
                    g0.solution@
                },
                dx == input_dx(events@.take(i as int)),
                dy == input_dy(events@.take(i as int)),
                -(i as int) <= dx <= i,
                -(i as int) <= dy <= i,
            decreases events@.len() - i,
        {
            let e = events[i];
            proof {
                assert(events@.take(i + 1).drop_last() =~= events@.take(i as int));
                assert(events@.take(i + 1).last() == e);
                assert(events@.take(i + 1).contains(Input::Solve) <==> (events@.take(
                    i as int,
                ).contains(Input::Solve) || e == Input::Solve)) by {
                    let t = events@.take(i + 1);
                    let s = events@.take(i as int);
                    if t.contains(Input::Solve) && e != Input::Solve {
                        let j = choose|j: int| 0 <= j < t.len() && t[j] == Input::Solve;
                        assert(s[j] == Input::Solve);
                    }
                    if s.contains(Input::Solve) {
                        let j = choose|j: int| 0 <= j < s.len() && s[j] == Input::Solve;
                        assert(t[j] == Input::Solve);
                    }
                    if e == Input::Solve {
                        assert(t[i as int] == Input::Solve);
                    }
                }
            }
            match e {
                Input::Up => dy = dy + 1,
                Input::Down => dy = dy - 1,
                Input::Left => dx = dx - 1,
                Input::Right => dx = dx + 1,
                Input::Solve => self.request_solve(),
            }
            i = i + 1;
        }
        proof {
            assert(events@.take(events@.len() as int) =~= events@);
        }
        let target = Pos {
            x: clamp_coord(self.ferris.pos.x as i128 + dx, self.maze.width),
            y: clamp_coord(self.ferris.pos.y as i128 + dy, self.maze.height),
        };
        self.move_to(target);
    }
}

/// Clamps `v` to `0 ..= side - 1`.
fn clamp_coord(v: i128, side: u32) -> (r: u32)
    requires
        side > 0,
    ensures
        r == clamp_spec(v as int, side - 1),
{
    if v < 0 {
        0
    } else if v > (side - 1) as i128 {
        side - 1
    } else {
        v as u32
    }
}

} // verus!
