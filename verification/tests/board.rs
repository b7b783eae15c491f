use itertools::Itertools;
use minesweeper::{BoardError, Coord, TileMap, TileState, TileView};

fn sorted_coords(views: Vec<TileView>) -> Vec<[i32; 2]> {
    views
        .into_iter()
        .map(|tile| tile.coord().to_array())
        .sorted()
        .collect_vec()
}

/// A board with mines at the given places and the counts derived from them.
fn board_with_mines(width: u32, height: u32, mines: &[[i32; 2]]) -> TileMap {
    let mut board = TileMap::empty(width, height).unwrap();
    for &[x, y] in mines {
        let view = board.get_tile(Coord::new(x, y)).unwrap();
        view.set_state(&mut board, TileState::Mine);
    }
    board.derive_counts();
    board
}

fn states_of(board: &TileMap) -> Vec<TileState> {
    board
        .all_tiles()
        .into_iter()
        .map(|tile| tile.state(board))
        .collect()
}

fn mines_in(board: &TileMap) -> usize {
    states_of(board)
        .into_iter()
        .filter(|state| *state == TileState::Mine)
        .count()
}

#[test]
fn board_test_neighbors() {
    let tiles = TileMap::empty(8, 8).unwrap();

    let tile = tiles.tile(Coord::new(1, 1));
    let actual = tile
        .neighbors()
        .into_iter()
        .map(|tile| tile.coord().to_array())
        .sorted()
        .collect_vec();

    let expected = [
        [0, 0],
        [1, 0],
        [2, 0],
        [0, 1],
        [2, 1],
        [0, 2],
        [1, 2],
        [2, 2],
    ]
    .into_iter()
    .sorted()
    .collect_vec();

    assert_eq!(actual, expected);
}

#[test]
fn game_setup_test_neighbors() {
    let tiles = TileMap::empty(8, 8).unwrap();

    let tile = tiles.get(Coord::new(1, 1));
    let actual = tile
        .neighbors()
        .into_iter()
        .map(|tile| tile.coordinate().to_array())
        .sorted()
        .collect_vec();

    let expected = [
        [0, 0],
        [1, 0],
        [2, 0],
        [0, 1],
        [2, 1],
        [0, 2],
        [1, 2],
        [2, 2],
    ]
    .into_iter()
    .sorted()
    .collect_vec();

    assert_eq!(actual, expected);
}

#[test]
fn test_random() {
    let board = TileMap::random(30, 16, 99).unwrap();
    println!("{}", board.to_text());
}

#[test]
fn neighbors_come_in_the_fixed_order() {
    let tiles = TileMap::empty(8, 8).unwrap();
    let actual: Vec<[i32; 2]> = tiles
        .tile(Coord::new(1, 1))
        .neighbors()
        .into_iter()
        .map(|tile| tile.coord().to_array())
        .collect();
    assert_eq!(
        actual,
        vec![
            [0, 0],
            [1, 0],
            [2, 0],
            [0, 1],
            [2, 1],
            [0, 2],
            [1, 2],
            [2, 2]
        ]
    );
}

#[test]
fn neighbors_of_corner_edge_and_inner_tiles() {
    let tiles = TileMap::empty(5, 4).unwrap();
    for tile in tiles.all_tiles() {
        let c = tile.coord();
        let side = c.x == 0 || c.x == 4;
        let level = c.y == 0 || c.y == 3;
        let expected = if side && level {
            3
        } else if side || level {
            5
        } else {
            8
        };
        assert_eq!(tile.neighbors().len(), expected, "at {:?}", c);
    }
    assert_eq!(
        sorted_coords(tiles.tile(Coord::new(0, 0)).neighbors()),
        vec![[0, 1], [1, 0], [1, 1]]
    );
    assert_eq!(
        sorted_coords(tiles.tile(Coord::new(4, 3)).neighbors()),
        vec![[3, 2], [3, 3], [4, 2]]
    );
    assert_eq!(
        sorted_coords(tiles.tile(Coord::new(2, 0)).neighbors()),
        vec![[1, 0], [1, 1], [2, 1], [3, 0], [3, 1]]
    );
}

#[test]
fn single_cell_has_no_neighbors() {
    let tiles = TileMap::empty(1, 1).unwrap();
    assert_eq!(tiles.width(), 1);
    assert_eq!(tiles.height(), 1);
    let tile = tiles.tile(Coord::new(0, 0));
    assert!(tile.neighbors().is_empty());
    assert_eq!(tile.state(&tiles), TileState::Clear(0));
}

#[test]
fn narrow_grids_have_fewer_neighbors() {
    let row = TileMap::empty(4, 1).unwrap();
    assert_eq!(
        sorted_coords(row.tile(Coord::new(0, 0)).neighbors()),
        vec![[1, 0]]
    );
    assert_eq!(
        sorted_coords(row.tile(Coord::new(2, 0)).neighbors()),
        vec![[1, 0], [3, 0]]
    );
}

#[test]
fn empty_board_is_all_clear() {
    let board = TileMap::empty(3, 2).unwrap();
    assert_eq!(board.width(), 3);
    assert_eq!(board.height(), 2);
    assert_eq!(board.dim(), Coord::new(3, 2));
    assert_eq!(board.n_mines(), 0);
    assert_eq!(states_of(&board), vec![TileState::Clear(0); 6]);
}

#[test]
fn degenerate_grids_hold_no_tiles() {
    for (w, h) in [(0, 0), (0, 5), (7, 0)] {
        let board = TileMap::empty(w, h).unwrap();
        assert_eq!(board.width(), w);
        assert_eq!(board.height(), h);
        assert!(board.coords().is_empty());
        assert!(board.all_tiles().is_empty());
        assert!(board.get_tile(Coord::new(0, 0)).is_none());
        let random = TileMap::random(w, h, 0).unwrap();
        assert!(random.all_tiles().is_empty());
        assert_eq!(
            TileMap::random(w, h, 1).unwrap_err(),
            BoardError::TooManyMines
        );
    }
}

#[test]
fn oversized_dimensions_are_rejected() {
    let too_wide = (i32::MAX as u32) + 1;
    assert_eq!(
        TileMap::empty(too_wide, 1).unwrap_err(),
        BoardError::InvalidDimensions
    );
    assert_eq!(
        TileMap::empty(1, u32::MAX).unwrap_err(),
        BoardError::InvalidDimensions
    );
    assert_eq!(
        TileMap::random(too_wide, 0, 0).unwrap_err(),
        BoardError::InvalidDimensions
    );
    // The dimensions are judged before the mines.
    assert_eq!(
        TileMap::random(u32::MAX, u32::MAX, u32::MAX).unwrap_err(),
        BoardError::InvalidDimensions
    );
}

#[test]
fn too_many_mines_are_rejected() {
    assert_eq!(
        TileMap::random(2, 2, 5).unwrap_err(),
        BoardError::TooManyMines
    );
    assert_eq!(
        TileMap::random(30, 16, 481).unwrap_err(),
        BoardError::TooManyMines
    );
    assert!(TileMap::random(2, 2, 4).is_ok());
}

#[test]
fn coords_are_row_major() {
    let board = TileMap::empty(3, 2).unwrap();
    let coords: Vec<[i32; 2]> = board.coords().iter().map(|c| c.to_array()).collect();
    assert_eq!(
        coords,
        vec![[0, 0], [1, 0], [2, 0], [0, 1], [1, 1], [2, 1]]
    );
    assert_eq!(board.coords(), board.coords());
}

#[test]
fn coords_list_each_cell_once() {
    let board = TileMap::empty(7, 5).unwrap();
    let coords = board.coords();
    assert_eq!(coords.len(), 35);
    for y in 0..5 {
        for x in 0..7 {
            let at = (y * 7 + x) as usize;
            assert_eq!(coords[at], Coord::new(x, y));
        }
    }
    let views = board.all_tiles();
    assert_eq!(views.len(), 35);
    for (view, coord) in views.iter().zip(coords.iter()) {
        assert_eq!(view.coord(), *coord);
        assert_eq!(view.dim(), Coord::new(7, 5));
    }
}

#[test]
fn get_tile_is_absent_exactly_outside_the_grid() {
    let board = TileMap::empty(4, 3).unwrap();
    for y in -2..6 {
        for x in -2..7 {
            let found = board.get_tile(Coord::new(x, y));
            let inside = 0 <= x && x < 4 && 0 <= y && y < 3;
            assert_eq!(found.is_some(), inside, "at ({}, {})", x, y);
            if let Some(view) = found {
                assert_eq!(view.coord(), Coord::new(x, y));
                assert_eq!(view.dim(), Coord::new(4, 3));
            }
        }
    }
    assert!(board.get_tile(Coord::new(i32::MIN, 0)).is_none());
    assert!(board.get_tile(Coord::new(0, i32::MAX)).is_none());
}

#[test]
fn get_tiles_checks_each_coordinate() {
    let board = TileMap::empty(2, 2).unwrap();
    let asked = [
        Coord::new(1, 1),
        Coord::new(2, 0),
        Coord::new(0, 0),
        Coord::new(0, -1),
        Coord::new(1, 1),
    ];
    let found = board.get_tiles(&asked);
    let seen: Vec<Option<[i32; 2]>> = found
        .iter()
        .map(|view| view.map(|v| v.coord().to_array()))
        .collect();
    assert_eq!(
        seen,
        vec![Some([1, 1]), None, Some([0, 0]), None, Some([1, 1])]
    );
    assert!(board.get_tiles(&[]).is_empty());
}

#[test]
fn a_write_is_read_through_another_cursor() {
    let mut board = TileMap::empty(4, 4).unwrap();
    let writer = board.tile(Coord::new(2, 1));
    let reader = board.tile(Coord::new(2, 1));
    let bystander = board.tile(Coord::new(1, 2));
    assert_eq!(reader.state(&board), TileState::Clear(0));

    writer.set_state(&mut board, TileState::Mine);
    assert_eq!(reader.state(&board), TileState::Mine);
    assert!(reader.is_mine(&board));
    assert!(!bystander.is_mine(&board));

    writer.set_state(&mut board, TileState::Clear(5));
    assert_eq!(reader.state(&board), TileState::Clear(5));
    assert_eq!(board.get_tile(Coord::new(2, 1)).unwrap().state(&board), TileState::Clear(5));
    assert!(!reader.is_mine(&board));

    let changed = states_of(&board)
        .into_iter()
        .filter(|state| *state != TileState::Clear(0))
        .count();
    assert_eq!(changed, 1);
    assert_eq!(board.n_mines(), 0);
}

#[test]
fn every_valid_state_can_be_stored() {
    let mut board = TileMap::empty(1, 1).unwrap();
    let view = board.tile(Coord::new(0, 0));
    for n in 0..=8u8 {
        view.set_state(&mut board, TileState::Clear(n));
        assert_eq!(view.state(&board), TileState::Clear(n));
    }
    view.set_state(&mut board, TileState::Mine);
    assert_eq!(view.state(&board), TileState::Mine);
}

#[test]
fn cursor_moves() {
    let board = TileMap::empty(3, 3).unwrap();
    let view = board.tile(Coord::new(1, 1));
    assert_eq!(view.with_coordinate(Coord::new(2, 0)).coord(), Coord::new(2, 0));
    assert_eq!(view.with_coordinate(Coord::new(2, 0)).dim(), Coord::new(3, 3));
    assert_eq!(
        view.try_with_coordinate(Coord::new(0, 2)).map(|v| v.coord()),
        Some(Coord::new(0, 2))
    );
    assert!(view.try_with_coordinate(Coord::new(3, 0)).is_none());
    assert!(view.try_with_coordinate(Coord::new(0, -1)).is_none());
    assert_eq!(
        view.step(Coord::new(1, -1)).map(|v| v.coord()),
        Some(Coord::new(2, 0))
    );
    assert_eq!(
        view.step(Coord::new(0, 0)).map(|v| v.coord()),
        Some(Coord::new(1, 1))
    );
    assert!(view.step(Coord::new(2, 0)).is_none());
    assert!(view.step(Coord::new(0, -2)).is_none());
}

#[test]
fn a_step_too_long_for_a_coordinate_leaves_the_grid() {
    let board = TileMap::empty(3, 3).unwrap();
    let view = board.tile(Coord::new(1, 1));
    assert!(view.step(Coord::new(i32::MAX, 0)).is_none());
    assert!(view.step(Coord::new(0, i32::MAX)).is_none());
    assert!(view.step(Coord::new(i32::MIN, i32::MIN)).is_none());
}

#[test]
fn counts_are_derived_from_the_mines() {
    // * . . .
    // . . * .
    // . . * .
    let board = board_with_mines(4, 3, &[[0, 0], [2, 1], [2, 2]]);
    let m = TileState::Mine;
    let c = TileState::Clear;
    assert_eq!(
        states_of(&board),
        vec![
            m, c(2), c(1), c(1),
            c(1), c(3), m, c(2),
            c(0), c(2), m, c(2),
        ]
    );
    assert_eq!(board.tile(Coord::new(1, 1)).mines_around(&board), 3);
    assert_eq!(board.tile(Coord::new(2, 1)).mines_around(&board), 1);
    assert_eq!(board.tile(Coord::new(0, 2)).mines_around(&board), 0);
}

#[test]
fn a_tile_can_have_eight_mines_around_it() {
    let ring = [
        [0, 0],
        [1, 0],
        [2, 0],
        [0, 1],
        [2, 1],
        [0, 2],
        [1, 2],
        [2, 2],
    ];
    let board = board_with_mines(3, 3, &ring);
    assert_eq!(board.tile(Coord::new(1, 1)).state(&board), TileState::Clear(8));
    assert_eq!(mines_in(&board), 8);
}

#[test]
fn deriving_twice_changes_nothing() {
    let mut board = board_with_mines(5, 5, &[[0, 0], [4, 4], [2, 2], [2, 3]]);
    let once = states_of(&board);
    board.derive_counts();
    assert_eq!(states_of(&board), once);
}

#[test]
fn deriving_overwrites_stale_counts() {
    let mut board = TileMap::empty(2, 1).unwrap();
    let left = board.tile(Coord::new(0, 0));
    let right = board.tile(Coord::new(1, 0));
    left.set_state(&mut board, TileState::Clear(7));
    right.set_state(&mut board, TileState::Mine);
    board.derive_counts();
    assert_eq!(left.state(&board), TileState::Clear(1));
    assert_eq!(right.state(&board), TileState::Mine);
}

#[test]
fn random_board_has_the_mines_asked_for() {
    let board = TileMap::random(30, 16, 99).unwrap();
    assert_eq!(board.width(), 30);
    assert_eq!(board.height(), 16);
    assert_eq!(board.n_mines(), 99);
    let states = states_of(&board);
    assert_eq!(states.len(), 480);
    let mines = states.iter().filter(|s| **s == TileState::Mine).count();
    assert_eq!(mines, 99);
    assert_eq!(states.len() - mines, 381);
    for state in states {
        if let TileState::Clear(n) = state {
            assert!(n <= 8);
        }
    }
}

#[test]
fn random_board_counts_match_the_mines_around() {
    for (w, h, n) in [(9, 9, 10), (16, 16, 40), (30, 16, 99), (1, 7, 3), (5, 1, 2)] {
        let board = TileMap::random(w, h, n).unwrap();
        assert_eq!(mines_in(&board), n as usize);
        for tile in board.all_tiles() {
            let around = tile
                .neighbors()
                .into_iter()
                .filter(|other| other.is_mine(&board))
                .count();
            assert_eq!(tile.mines_around(&board) as usize, around);
            if let TileState::Clear(k) = tile.state(&board) {
                assert_eq!(k as usize, around, "at {:?}", tile.coord());
            }
        }
    }
}

#[test]
fn random_board_full_of_mines() {
    let board = TileMap::random(6, 4, 24).unwrap();
    assert_eq!(board.n_mines(), 24);
    assert_eq!(states_of(&board), vec![TileState::Mine; 24]);
}

#[test]
fn random_board_without_mines() {
    let board = TileMap::random(6, 4, 0).unwrap();
    assert_eq!(board.n_mines(), 0);
    assert_eq!(states_of(&board), vec![TileState::Clear(0); 24]);
}

#[test]
fn random_boards_are_shuffled() {
    // Before the shuffle the mines fill the first cells; a shuffled board
    // that still has them all there is next to impossible.
    let mut moved = false;
    for _ in 0..8 {
        let board = TileMap::random(30, 16, 99).unwrap();
        let states = states_of(&board);
        if states[..99].iter().any(|s| *s != TileState::Mine) {
            moved = true;
        }
    }
    assert!(moved);
}

#[test]
fn random_boards_differ() {
    let first = states_of(&TileMap::random(30, 16, 99).unwrap());
    let mut differs = false;
    for _ in 0..8 {
        if states_of(&TileMap::random(30, 16, 99).unwrap()) != first {
            differs = true;
        }
    }
    assert!(differs);
}

#[test]
fn cursors_carry_the_extent_and_mine_count_of_their_board() {
    let board = TileMap::random(9, 9, 10).unwrap();
    let view = board.tile(Coord::new(4, 4));
    assert_eq!(view.dim(), Coord::new(9, 9));
    assert_eq!(view.n_mines(), 10);
    assert_eq!(view.coord().to_array(), [4, 4]);
    for other in view.neighbors() {
        assert_eq!(other.dim(), Coord::new(9, 9));
        assert_eq!(other.n_mines(), 10);
    }
    let moved = view.step(Coord::new(-4, 4)).unwrap();
    assert_eq!(moved.coord(), Coord::new(0, 8));
    assert_eq!(moved.n_mines(), 10);
}
