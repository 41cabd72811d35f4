use ferris_lab::game::{advance_frame, find_tile, Game, Input};
use ferris_lab::maze::{Maze, Pos, TileKind};
use ferris_lab::solver::{solve, State};

fn maze_of(rows: &[&str]) -> Maze {
    let height = rows.len() as u32;
    let width = rows[0].len() as u32;
    let mut cells = Vec::new();
    for row in rows {
        for c in row.chars() {
            cells.push(match c {
                '.' => None,
                '#' => Some(1),
                'S' => Some(18),
                'G' => Some(19),
                'A' => Some(2),
                'a' => Some(5),
                'b' => Some(6),
                _ => panic!("bad cell"),
            });
        }
    }
    Maze::new(width, height, cells).expect("rectangular maze")
}

fn at(x: u32, y: u32) -> Pos {
    Pos { x, y }
}

#[test]
fn level_load_places_start_and_goal() {
    let g = Game::on_level_loaded(maze_of(&["...", ".#G", "S.."]));
    assert_eq!(g.ferris, State { pos: at(0, 2), keys: [false; 3] });
    assert_eq!(g.goal, at(2, 1));
    assert!(g.solution.is_empty());
}

#[test]
fn level_without_start_defaults_to_origin() {
    let g = Game::on_level_loaded(maze_of(&["..", ".G"]));
    assert_eq!(g.ferris.pos, at(0, 0));
    assert_eq!(g.goal, at(1, 1));
}

#[test]
fn find_tile_takes_first_in_row_order() {
    let m = maze_of(&["..G", "G..", "S.G"]);
    assert_eq!(find_tile(&m, 19), Some(at(2, 0)));
    assert_eq!(find_tile(&m, 18), Some(at(0, 2)));
    assert_eq!(find_tile(&m, 5), None);
}

#[test]
fn manual_moves_respect_walls_and_bounds() {
    let mut g = Game::on_level_loaded(maze_of(&["S#", "..", ".G"]));
    g.handle_input(&vec![Input::Right]);
    assert_eq!(g.ferris.pos, at(0, 0));
    g.handle_input(&vec![Input::Down]);
    assert_eq!(g.ferris.pos, at(0, 0));
    g.handle_input(&vec![Input::Left]);
    assert_eq!(g.ferris.pos, at(0, 0));
    g.handle_input(&vec![Input::Up]);
    assert_eq!(g.ferris.pos, at(0, 1));
    g.handle_input(&vec![Input::Up, Input::Up, Input::Up]);
    assert_eq!(g.ferris.pos, at(0, 2));
    g.handle_input(&vec![Input::Right]);
    assert_eq!(g.ferris.pos, at(1, 2));
    g.handle_input(&vec![]);
    assert_eq!(g.ferris.pos, at(1, 2));
}

#[test]
fn keys_open_gates_and_are_consumed() {
    let mut g = Game::on_level_loaded(maze_of(&["SaAG"]));
    g.move_to(at(2, 0));
    assert_eq!(g.ferris.pos, at(0, 0));
    g.move_to(at(1, 0));
    assert_eq!(g.ferris, State { pos: at(1, 0), keys: [true, false, false] });
    assert_eq!(g.maze.classify(at(1, 0)), TileKind::Empty);
    g.move_to(at(2, 0));
    assert_eq!(g.ferris.pos, at(2, 0));
    assert_eq!(g.maze.classify(at(2, 0)), TileKind::Empty);
    g.move_to(at(3, 0));
    assert_eq!(g.ferris.pos, at(3, 0));
    assert_eq!(g.maze.classify(at(3, 0)), TileKind::Goal);
}

#[test]
fn solve_request_queues_without_current_state() {
    let maze = maze_of(&["S.aAG"]);
    let mut g = Game::on_level_loaded(maze.clone());
    g.handle_input(&vec![Input::Solve]);
    let full = solve(&maze, g.ferris, g.goal);
    assert_eq!(full.len(), 5);
    let queued: Vec<State> = g.solution.iter().cloned().collect();
    assert_eq!(queued, full[1..].to_vec());
    assert_eq!(g.ferris.pos, at(0, 0));
}

#[test]
fn playback_moves_and_consumes() {
    let mut g = Game::on_level_loaded(maze_of(&["S.aAG"]));
    g.request_solve();
    assert_eq!(g.solution.len(), 4);
    g.play_tick();
    assert_eq!(g.ferris.pos, at(1, 0));
    g.play_tick();
    assert_eq!(g.ferris, State { pos: at(2, 0), keys: [true, false, false] });
    assert_eq!(g.maze.classify(at(2, 0)), TileKind::Empty);
    g.play_tick();
    g.play_tick();
    assert_eq!(g.ferris.pos, at(4, 0));
    assert_eq!(g.maze.classify(at(3, 0)), TileKind::Empty);
    assert!(g.solution.is_empty());
    let before = g.ferris;
    g.play_tick();
    assert_eq!(g.ferris, before);
}

#[test]
fn unreachable_solve_queues_nothing() {
    let mut g = Game::on_level_loaded(maze_of(&["S#G"]));
    g.request_solve();
    assert!(g.solution.is_empty());
    assert_eq!(g.ferris.pos, at(0, 0));
}

#[test]
fn walking_frames() {
    assert_eq!(advance_frame(0, true), 1);
    assert_eq!(advance_frame(2, true), 3);
    assert_eq!(advance_frame(3, true), 0);
    assert_eq!(advance_frame(5, true), 0);
    assert_eq!(advance_frame(0, false), 4);
    assert_eq!(advance_frame(3, false), 4);
    assert_eq!(advance_frame(4, false), 5);
    assert_eq!(advance_frame(6, false), 7);
    assert_eq!(advance_frame(7, false), 4);
    assert_eq!(advance_frame(usize::MAX, false), 4);
}
