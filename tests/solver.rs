use ferris_lab::maze::{
    classify_index, is_walkable_tile, manhattan_distance, pos_to_translation, Maze, Pos, TileKind,
};
use ferris_lab::solver::{at_goal, heuristic, is_legal_move, solve, successors, State};

/// Builds a maze from rows given from `y == 0` upwards:
/// `.` no tile, `#` wall, `S` start, `G` goal, `a`..`c` keys, `A`..`C` gates.
fn maze_of(rows: &[&str]) -> Maze {
    let height = rows.len() as u32;
    let width = rows[0].len() as u32;
    let mut cells = Vec::new();
    for row in rows {
        for c in row.chars() {
            cells.push(match c {
                '.' => None,
                '#' => Some(0),
                'S' => Some(18),
                'G' => Some(19),
                'A' => Some(2),
                'B' => Some(3),
                'C' => Some(4),
                'a' => Some(5),
                'b' => Some(6),
                'c' => Some(7),
                _ => panic!("bad cell"),
            });
        }
    }
    Maze::new(width, height, cells).expect("rectangular maze")
}

fn at(x: u32, y: u32) -> Pos {
    Pos { x, y }
}

fn fresh(p: Pos) -> State {
    State { pos: p, keys: [false; 3] }
}

fn assert_legal_solution(maze: &Maze, path: &[State]) {
    for w in path.windows(2) {
        let (a, b) = (w[0], w[1]);
        let d = a.pos.x.abs_diff(b.pos.x) + a.pos.y.abs_diff(b.pos.y);
        assert_eq!(d, 1);
        assert!(is_legal_move(maze, &a, b.pos));
        for k in 0..3 {
            if a.keys[k] {
                assert!(b.keys[k]);
            }
        }
    }
    for s in &path[1..] {
        if let TileKind::Gate(k) = maze.classify(s.pos) {
            assert!(s.keys[k]);
        }
    }
}

#[test]
fn classify_texture_indices() {
    assert_eq!(classify_index(None), TileKind::Empty);
    assert_eq!(classify_index(Some(18)), TileKind::Start);
    assert_eq!(classify_index(Some(19)), TileKind::Goal);
    assert_eq!(classify_index(Some(2)), TileKind::Gate(0));
    assert_eq!(classify_index(Some(4)), TileKind::Gate(2));
    assert_eq!(classify_index(Some(5)), TileKind::Key(0));
    assert_eq!(classify_index(Some(7)), TileKind::Key(2));
    assert_eq!(classify_index(Some(0)), TileKind::Wall);
    assert_eq!(classify_index(Some(1)), TileKind::Wall);
    assert_eq!(classify_index(Some(8)), TileKind::Wall);
    assert_eq!(classify_index(Some(20)), TileKind::Wall);
}

#[test]
fn walkable_tiles() {
    assert!(is_walkable_tile(5));
    assert!(is_walkable_tile(7));
    assert!(is_walkable_tile(18));
    assert!(is_walkable_tile(19));
    assert!(!is_walkable_tile(2));
    assert!(!is_walkable_tile(8));
    assert!(!is_walkable_tile(0));
}

#[test]
fn maze_new_checks_dimensions() {
    assert!(Maze::new(2, 2, vec![None; 4]).is_some());
    assert!(Maze::new(2, 2, vec![None; 3]).is_none());
    assert!(Maze::new(0, 2, vec![]).is_none());
    assert!(Maze::new(3, 0, vec![]).is_none());
}

#[test]
fn neighbors_in_fixed_order() {
    let m = maze_of(&["...", "...", "..."]);
    assert_eq!(m.neighbors4(at(1, 1)), vec![at(1, 2), at(1, 0), at(0, 1), at(2, 1)]);
    assert_eq!(m.neighbors4(at(0, 0)), vec![at(0, 1), at(1, 0)]);
    assert_eq!(m.neighbors4(at(2, 2)), vec![at(2, 1), at(1, 2)]);
}

#[test]
fn consume_tile_empties_cell() {
    let mut m = maze_of(&["Sa"]);
    assert_eq!(m.classify(at(1, 0)), TileKind::Key(0));
    m.consume_tile(at(1, 0));
    assert_eq!(m.classify(at(1, 0)), TileKind::Empty);
    assert_eq!(m.classify(at(0, 0)), TileKind::Start);
}

#[test]
fn legal_moves_follow_keys() {
    let m = maze_of(&["#AaG"]);
    let s = fresh(at(0, 0));
    assert!(!is_legal_move(&m, &s, at(0, 0)));
    assert!(!is_legal_move(&m, &s, at(1, 0)));
    assert!(is_legal_move(&m, &s, at(2, 0)));
    assert!(is_legal_move(&m, &s, at(3, 0)));
    let k = State { pos: at(2, 0), keys: [true, false, false] };
    assert!(is_legal_move(&m, &k, at(1, 0)));
}

#[test]
fn successor_rule() {
    let m = maze_of(&["a.A", "#S.", "..."]);
    let s = fresh(at(1, 1));
    // up is (1,2), down (1,0), left (0,1) is a wall, right (2,1).
    let succ = successors(&m, &s);
    assert_eq!(
        succ,
        vec![(fresh(at(1, 2)), 1), (fresh(at(1, 0)), 1), (fresh(at(2, 1)), 1)]
    );
    let from_key_side = fresh(at(1, 0));
    let succ = successors(&m, &from_key_side);
    assert_eq!(
        succ,
        vec![
            (fresh(at(1, 1)), 1),
            (State { pos: at(0, 0), keys: [true, false, false] }, 1)
        ]
    );
    let holding = State { pos: at(1, 0), keys: [true, false, false] };
    let succ = successors(&m, &holding);
    assert_eq!(succ.len(), 3);
    assert_eq!(succ[2], (State { pos: at(2, 0), keys: [true, false, false] }, 1));
}

#[test]
fn heuristic_is_grid_distance() {
    assert_eq!(manhattan_distance(at(0, 0), at(3, 3)), 6);
    assert_eq!(manhattan_distance(at(5, 1), at(2, 4)), 6);
    assert_eq!(heuristic(&fresh(at(1, 2)), at(4, 0)), 5);
    assert!(at_goal(&fresh(at(3, 3)), at(3, 3)));
    assert!(at_goal(&State { pos: at(3, 3), keys: [true, true, false] }, at(3, 3)));
    assert!(!at_goal(&fresh(at(3, 2)), at(3, 3)));
}

#[test]
fn world_translation() {
    assert_eq!(pos_to_translation(at(0, 0)), (8, 8));
    assert_eq!(pos_to_translation(at(3, 5)), (56, 88));
    assert_eq!(pos_to_translation(at(15, 15)), (248, 248));
}

#[test]
fn open_four_by_four() {
    let m = maze_of(&["S...", "....", "....", "...G"]);
    let path = solve(&m, fresh(at(0, 0)), at(3, 3));
    assert_eq!(path.len(), 7);
    assert_eq!(path[0], fresh(at(0, 0)));
    assert_eq!(path[6].pos, at(3, 3));
    assert_legal_solution(&m, &path);
}

#[test]
fn key_before_gate() {
    let m = maze_of(&["SaAG", "####"]);
    let path = solve(&m, fresh(at(0, 0)), at(3, 0));
    let positions: Vec<Pos> = path.iter().map(|s| s.pos).collect();
    assert_eq!(positions, vec![at(0, 0), at(1, 0), at(2, 0), at(3, 0)]);
    assert!(path[1].keys[0]);
    assert!(path[2].keys[0]);
    assert_legal_solution(&m, &path);
}

#[test]
fn detour_for_key() {
    // The key lies behind the start; the shortest route fetches it first.
    let m = maze_of(&["a.S.AG", "######"]);
    let path = solve(&m, fresh(at(2, 0)), at(5, 0));
    assert_eq!(path.len(), 8);
    assert_eq!(path[2], State { pos: at(0, 0), keys: [true, false, false] });
    assert_eq!(path.last().unwrap().pos, at(5, 0));
    assert_legal_solution(&m, &path);
}

#[test]
fn sealed_goal_is_unreachable() {
    // The goal is walled in behind gate A; key a sits behind gate B, whose key does not exist.
    let m = maze_of(&["S.#Ba", "..###", "#A###", "#G###"]);
    let path = solve(&m, fresh(at(0, 0)), at(1, 3));
    assert!(path.is_empty());
}

#[test]
fn goal_outside_walls_is_unreachable() {
    let m = maze_of(&["S#G"]);
    assert!(solve(&m, fresh(at(0, 0)), at(2, 0)).is_empty());
}

#[test]
fn start_on_goal() {
    let m = maze_of(&["G.."]);
    let path = solve(&m, fresh(at(0, 0)), at(0, 0));
    assert_eq!(path, vec![fresh(at(0, 0))]);
}

#[test]
fn solving_twice_gives_same_path() {
    let m = maze_of(&["S.....", ".#.##.", ".#a.#.", "....#.", "###A#G"]);
    let a = solve(&m, fresh(at(0, 0)), at(5, 4));
    let b = solve(&m, fresh(at(0, 0)), at(5, 4));
    assert_eq!(a, b);
    assert!(!a.is_empty());
    assert_legal_solution(&m, &a);
}

#[test]
fn shortest_matches_breadth_first_search() {
    let m = maze_of(&[
        "S..#....",
        ".#.#.##.",
        ".#a..#B.",
        ".####.#.",
        "..b.#.#.",
        "#.#.A.#G",
    ]);
    let start = fresh(at(0, 0));
    let goal = at(7, 5);
    let path = solve(&m, start, goal);
    // breadth-first search over (cell, keys)
    let mut dist = std::collections::HashMap::new();
    let mut queue = std::collections::VecDeque::new();
    dist.insert(start, 0usize);
    queue.push_back(start);
    let mut best = None;
    while let Some(s) = queue.pop_front() {
        let d = dist[&s];
        if s.pos == goal {
            best = Some(d);
            break;
        }
        for (t, _) in successors(&m, &s) {
            if !dist.contains_key(&t) {
                dist.insert(t, d + 1);
                queue.push_back(t);
            }
        }
    }
    let best = best.expect("reachable");
    assert_eq!(path.len(), best + 1);
    assert_legal_solution(&m, &path);
}
