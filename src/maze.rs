//! The maze: a rectangular grid of texture indices, each classified into a tile role.
use vstd::prelude::*;

verus! {

/// Texture index of the spawn tile.
pub const START_TILE: u16 = 18;

/// Texture index of the goal tile.
pub const END_TILE: u16 = 19;

/// Texture index of the first of the three gate tiles.
pub const GATE_BASE: u16 = 2;

/// Texture index of the first of the three key tiles.
pub const KEY_BASE: u16 = 5;

/// Side length of the game's levels, in tiles.
pub const LEVEL_SIDE: u32 = 16;

/// Size of one tile in world units.
pub const TILE_SIZE: u32 = 16;

/// A cell coordinate on the grid.
#[derive(PartialEq, Eq, Structural, Clone, Copy, Debug, Hash)]
pub struct Pos {
    pub x: u32,
    pub y: u32,
}

/// The role of a cell.
#[derive(PartialEq, Eq, Structural, Clone, Copy, Debug)]
pub enum TileKind {
    Empty,
    Wall,
    Start,
    Goal,
    Key(usize),
    Gate(usize),
}

/// What a texture index (or the absence of a tile) means.
pub open spec fn kind_of(index: Option<u16>) -> TileKind {
    match index {
        None => TileKind::Empty,
        Some(i) => if i == START_TILE {
            TileKind::Start
        } else if i == END_TILE {
            TileKind::Goal
        } else if GATE_BASE <= i < GATE_BASE + 3 {
            TileKind::Gate((i - GATE_BASE) as usize)
        } else if KEY_BASE <= i < KEY_BASE + 3 {
            TileKind::Key((i - KEY_BASE) as usize)
        } else {
            TileKind::Wall
        },
    }
}

/// Classifies a texture index; `None` stands for a cell without a tile.
pub fn classify_index(index: Option<u16>) -> (r: TileKind)
    ensures
        r == kind_of(index),
{
    match index {
        None => TileKind::Empty,
        Some(i) => if i == START_TILE {
            TileKind::Start
        } else if i == END_TILE {
            TileKind::Goal
        } else if GATE_BASE <= i && i < GATE_BASE + 3 {
            TileKind::Gate((i - GATE_BASE) as usize)
        } else if KEY_BASE <= i && i < KEY_BASE + 3 {
            TileKind::Key((i - KEY_BASE) as usize)
        } else {
            TileKind::Wall
        },
    }
}

/// Whether a tile with this texture index can be walked onto without a key:
/// the keys, the start and the goal.
pub fn is_walkable_tile(texture_index: u16) -> (r: bool)
    ensures
        r == (KEY_BASE <= texture_index < KEY_BASE + 3 || texture_index == START_TILE
            || texture_index == END_TILE),
{
    (KEY_BASE <= texture_index && texture_index < KEY_BASE + 3) || texture_index == START_TILE
        || texture_index == END_TILE
}

/// Whether a character holding `keys` may enter a cell of kind `kind`.
pub open spec fn passable(keys: Seq<bool>, kind: TileKind) -> bool {
    match kind {
        TileKind::Wall => false,
        TileKind::Gate(k) => keys[k as int],
        _ => true,
    }
}

/// The key inventory after entering a cell of kind `kind` with `keys`.
pub open spec fn keys_after(keys: Seq<bool>, kind: TileKind) -> Seq<bool> {
    match kind {
        TileKind::Key(k) => keys.update(k as int, true),
        _ => keys,
    }
}

/// The tile grid: `cells[y * width + x]` is the texture index at `(x, y)`,
/// `None` where the level has no tile.
#[derive(Clone, Debug)]
pub struct Maze {
    pub width: u32,
    pub height: u32,
    pub cells: Vec<Option<u16>>,
}

impl Maze {
    /// The grid is non-empty and holds one cell per coordinate.
    pub open spec fn wf(&self) -> bool {
        &&& self.width > 0
        &&& self.height > 0
        &&& self.cells@.len() == self.width * self.height
    }

    pub open spec fn in_bounds(&self, p: Pos) -> bool {
        p.x < self.width && p.y < self.height
    }

    pub open spec fn index_of(&self, p: Pos) -> int {
        p.y * self.width + p.x
    }

    /// The texture index stored at `p`.
    pub open spec fn cell(&self, p: Pos) -> Option<u16> {
        self.cells@[self.index_of(p)]
    }

    /// The role of the cell at `p`.
    pub open spec fn kind_at(&self, p: Pos) -> TileKind {
        kind_of(self.cell(p))
    }

    /// Builds a maze of `width` by `height` cells, given row by row from `y == 0`;
    /// `None` when either side is zero or the cell count does not match.
    pub fn new(width: u32, height: u32, cells: Vec<Option<u16>>) -> (r: Option<Maze>)
        ensures
            r is Some <==> (width > 0 && height > 0 && cells@.len() == width * height),
            r matches Some(m) ==> (m.width == width && m.height == height && m.cells@ == cells@
                && m.wf()),
    {
        if width == 0 || height == 0 {
            return None;
        }
        assert((width as u64) * (height as u64) <= 0xffff_ffffu64 * 0xffff_ffffu64) by (nonlinear_arith)
            requires
                width <= 0xffff_ffffu32,
                height <= 0xffff_ffffu32,
        ;
        let n: u64 = (width as u64) * (height as u64);
        if cells.len() as u64 != n {
            return None;
        }
        Some(Maze { width, height, cells })
    }

    proof fn lemma_index_in_range(&self, p: Pos)
        requires
            self.wf(),
            self.in_bounds(p),
        ensures
            0 <= p.y * self.width <= self.index_of(p) < self.cells@.len(),
    {
        assert(0 <= p.y * self.width) by (nonlinear_arith);
        assert(p.y * self.width + p.x < self.width * self.height) by (nonlinear_arith)
            requires
                p.x < self.width,
                p.y < self.height,
        ;
    }

    fn index(&self, p: Pos) -> (r: usize)
        requires
            self.wf(),
            self.in_bounds(p),
        ensures
            r == self.index_of(p),
            r < self.cells@.len(),
    {
        proof {
            self.lemma_index_in_range(p);
        }
        let len = self.cells.len();
        assert(self.index_of(p) < len);
        (p.y as usize) * (self.width as usize) + (p.x as usize)
    }

    /// The texture index at `p`.
    pub fn texture_at(&self, p: Pos) -> (r: Option<u16>)
        requires
            self.wf(),
            self.in_bounds(p),
        ensures
            r == self.cell(p),
    {
        let i = self.index(p);
        self.cells[i]
    }

    /// The role of the cell at `p`.
    pub fn classify(&self, p: Pos) -> (r: TileKind)
        requires
            self.wf(),
            self.in_bounds(p),
        ensures
            r == self.kind_at(p),
    {
        classify_index(self.texture_at(p))
    }

    /// Removes the tile at `p`, which then classifies as `Empty`.
    pub fn consume_tile(&mut self, p: Pos)
        requires
            old(self).wf(),
            old(self).in_bounds(p),
        ensures
            final(self).width == old(self).width,
            final(self).height == old(self).height,
            final(self).cells@ == old(self).cells@.update(old(self).index_of(p), None),
            final(self).wf(),
            final(self).kind_at(p) == TileKind::Empty,
    {
        let i = self.index(p);
        self.cells.set(i, None);
    }

    /// The in-bounds orthogonal neighbours of `p`, in the order up, down, left, right.
    pub open spec fn neighbors_spec(&self, p: Pos) -> Seq<Pos> {
        let up = if p.y + 1 < self.height {
            seq![Pos { x: p.x, y: (p.y + 1) as u32 }]
        } else {
            seq![]
        };
        let down = if p.y > 0 {
            seq![Pos { x: p.x, y: (p.y - 1) as u32 }]
        } else {
            seq![]
        };
        let left = if p.x > 0 {
            seq![Pos { x: (p.x - 1) as u32, y: p.y }]
        } else {
            seq![]
        };
        let right = if p.x + 1 < self.width {
            seq![Pos { x: (p.x + 1) as u32, y: p.y }]
        } else {
            seq![]
        };
        up + down + left + right
    }

    /// The in-bounds orthogonal neighbours of `p`: up (`y + 1`), down, left (`x - 1`),
    /// right; a direction that leaves the grid is omitted.
    pub fn neighbors4(&self, p: Pos) -> (r: Vec<Pos>)
        requires
            self.in_bounds(p),
        ensures
            r@ == self.neighbors_spec(p),
    {
        let mut r: Vec<Pos> = Vec::new();
        if p.y + 1 < self.height {
            r.push(Pos { x: p.x, y: p.y + 1 });
        }
        if p.y > 0 {
            r.push(Pos { x: p.x, y: p.y - 1 });
        }
        if p.x > 0 {
            r.push(Pos { x: p.x - 1, y: p.y });
        }
        if p.x + 1 < self.width {
            r.push(Pos { x: p.x + 1, y: p.y });
        }
        proof {
            let s = self.neighbors_spec(p);
            assert(r@ =~= s);
        }
        r
    }
}

/// Grid distance between two cells.
pub open spec fn manhattan(a: Pos, b: Pos) -> int {
    (if a.x >= b.x { a.x - b.x } else { b.x - a.x }) + (if a.y >= b.y { a.y - b.y } else { b.y
        - a.y })
}

/// Whether two cells are one orthogonal step apart.
pub open spec fn adjacent(a: Pos, b: Pos) -> bool {
    manhattan(a, b) == 1
}

/// Grid distance between two cells.
pub fn manhattan_distance(a: Pos, b: Pos) -> (r: u64)
    ensures
        r == manhattan(a, b),
{
    let dx: u64 = if a.x >= b.x { (a.x - b.x) as u64 } else { (b.x - a.x) as u64 };
    let dy: u64 = if a.y >= b.y { (a.y - b.y) as u64 } else { (b.y - a.y) as u64 };
    dx + dy
}

/// World coordinates of the centre of a cell: `cell * TILE_SIZE + TILE_SIZE / 2` on each axis.
pub fn pos_to_translation(p: Pos) -> (r: (u64, u64))
    ensures
        r.0 == p.x * TILE_SIZE + TILE_SIZE / 2,
        r.1 == p.y * TILE_SIZE + TILE_SIZE / 2,
{
    ((p.x as u64) * (TILE_SIZE as u64) + (TILE_SIZE / 2) as u64, (p.y as u64) * (TILE_SIZE as u64)
        + (TILE_SIZE / 2) as u64)
}

} // verus!
