//! The board and the cursors into it.

use crate::adjacency::{
    adjacent_mines, derived_cells, derived_state, lemma_adjacent_bound, lemma_adjacent_same,
    lemma_mines_among_none, mines_among,
};
use crate::board_options::{BoardOptions, Difficulty, GridSize};
use crate::coord::{
    area, bound_check, coord_at, grid_coords, in_grid, lemma_coord_at_index, lemma_index_coord_at,
    lemma_index_in_range, lemma_index_injective, linear_index, row_major, Coord,
};
use crate::error::BoardError;
use crate::neighbors::{lemma_neighbors_inside, neighbor_coords, neighbor_offset, neighbors_upto};
use crate::shuffle::shuffle_cells;
use crate::state::{
    clear_total, decode_all, lemma_all_mines, lemma_no_mines, lemma_prefix_total,
    lemma_rearranged_total, lemma_same_mines_same_total, lemma_totals_partition, mine_total,
    TileState, MINE_CELL,
};
use vstd::prelude::*;

verus! {

/// A grid of tiles, stored row by row in one buffer of signed bytes: a
/// negative byte is a mine, any other byte is the number of mines around
/// the tile.
#[derive(Debug, Clone)]
pub struct TileMap {
    n_mines: u32,
    // (width, height)
    dim: Coord,
    // number of adjacent mines, negative if the tile itself is a mine
    tiles: Vec<i8>,
}

/// A cursor on one cell of a board. It holds the cell's coordinate and the
/// extent and mine count of the board it was made for, but not the board:
/// any number of cursors can stand on one board, and each reads and writes
/// its cell in the board that it is handed.
#[derive(Debug, Clone, Copy)]
pub struct TileView {
    coord: Coord,
    n_mines: u32,
    // (width, height)
    dim: Coord,
}

/// The widths and heights a board can have: each fits a signed coordinate,
/// and the number of cells is one that a buffer can have.
pub open spec fn valid_dimensions(width: u32, height: u32) -> bool {
    width <= i32::MAX && height <= i32::MAX && width * height <= isize::MAX
}

/// What generating a board of `width` by `height` tiles with `n_mines`
/// mines may give.
///
/// It fails exactly when the dimensions are not valid or the mines do not
/// fit the grid, and the dimensions are judged first. Otherwise the board
/// has the extent and the mine count asked for, holds exactly `n_mines`
/// mines, and every clear tile holds the number of mines around it. With
/// no mines every tile holds a zero; with as many mines as cells every
/// tile is a mine.
pub open spec fn generated(
    made: Result<TileMap, BoardError>,
    width: u32,
    height: u32,
    n_mines: u32,
) -> bool {
    &&& made is Ok <==> valid_dimensions(width, height) && n_mines <= width * height
    &&& made matches Err(e) ==> e == if valid_dimensions(width, height) {
        BoardError::TooManyMines
    } else {
        BoardError::InvalidDimensions
    }
    &&& made matches Ok(map) ==> {
        &&& map.wf()
        &&& map.spec_dim() == (Coord { x: width as i32, y: height as i32 })
        &&& map.spec_n_mines() == n_mines
        &&& mine_total(map@) == n_mines
        &&& clear_total(map@) == width * height - n_mines
        &&& map.settled()
        &&& n_mines == 0 ==> forall|i: int|
            0 <= i < map@.len() ==> #[trigger] map@[i] == TileState::Clear(0)
        &&& n_mines == width * height ==> forall|i: int|
            0 <= i < map@.len() ==> #[trigger] map@[i] == TileState::Mine
    }
}

impl View for TileMap {
    type V = Seq<TileState>;

    /// The states of all tiles, row by row.
    closed spec fn view(&self) -> Seq<TileState> {
        decode_all(self.tiles@)
    }
}

impl TileMap {
    pub closed spec fn spec_dim(&self) -> Coord {
        self.dim
    }

    pub closed spec fn spec_n_mines(&self) -> u32 {
        self.n_mines
    }

    pub open spec fn spec_width(&self) -> u32 {
        self.spec_dim().x as u32
    }

    pub open spec fn spec_height(&self) -> u32 {
        self.spec_dim().y as u32
    }

    /// A board is well formed when its extent is not negative, it holds one
    /// state for each cell of the grid, and every state is a mine or a count
    /// of at most eight.
    pub open spec fn wf(&self) -> bool {
        &&& 0 <= self.spec_dim().x
        &&& 0 <= self.spec_dim().y
        &&& area(self.spec_dim()) <= isize::MAX
        &&& self@.len() == area(self.spec_dim())
        &&& forall|i: int| 0 <= i < self@.len() ==> (#[trigger] self@[i]).valid()
    }

    /// The state of the tile at a coordinate of the grid.
    pub open spec fn state_at(&self, coord: Coord) -> TileState {
        self@[coord.index_in(self.spec_dim())]
    }

    /// A board of `width` by `height` tiles without mines: every tile is
    /// clear with a count of zero.
    pub fn empty(width: u32, height: u32) -> (made: Result<TileMap, BoardError>)
        ensures
            made is Ok <==> valid_dimensions(width, height),
            made matches Err(e) ==> e == BoardError::InvalidDimensions,
            made matches Ok(map) ==> {
                &&& map.wf()
                &&& map.spec_dim() == (Coord { x: width as i32, y: height as i32 })
                &&& map.spec_n_mines() == 0
                &&& forall|i: int| 0 <= i < map@.len() ==> #[trigger] map@[i] == TileState::Clear(0)
            },
    {
        if width > i32::MAX as u32 || height > i32::MAX as u32 {
            return Err(BoardError::InvalidDimensions);
        }
        assert(width * height <= u64::MAX) by (nonlinear_arith)
            requires
                width <= 0x7fff_ffff,
                height <= 0x7fff_ffff,
        ;
        let cells: u64 = width as u64 * height as u64;
        if cells > isize::MAX as u64 {
            return Err(BoardError::InvalidDimensions);
        }
        let tiles: Vec<i8> = vec![0i8; cells as usize];
        let map = TileMap { n_mines: 0, dim: Coord { x: width as i32, y: height as i32 }, tiles };
        assert forall|i: int| 0 <= i < map@.len() implies #[trigger] map@[i] == TileState::Clear(
            0,
        ) by {
            assert(map.tiles@[i] == 0i8);
        }
        Ok(map)
    }

    /// Whether every clear tile holds the number of mines around it.
    pub open spec fn settled(&self) -> bool {
        forall|c: Coord|
            c.within(self.spec_dim()) ==> (#[trigger] self.state_at(c) matches TileState::Clear(k)
                ==> k == adjacent_mines(self@, self.spec_dim(), c))
    }

    /// A board of `width` by `height` tiles with `n_mines` mines at places
    /// chosen at random, every other tile holding the number of mines
    /// around it.
    ///
    /// The first `n_mines` cells of an empty board are made mines, the
    /// buffer is shuffled, and the counts are derived from where the mines
    /// came to lie. Which tiles are mines is the generator's choice; how
    /// many there are is not.
    pub fn random(width: u32, height: u32, n_mines: u32) -> (made: Result<TileMap, BoardError>)
        ensures
            generated(made, width, height, n_mines),
    {
        let mut board = match Self::empty(width, height) {
            Ok(board) => board,
            Err(e) => {
                return Err(e);
            },
        };
        if n_mines as u64 > board.tiles.len() as u64 {
            return Err(BoardError::TooManyMines);
        }
        assert(board.tiles@.len() == width * height);
        assert forall|i: int| 0 <= i < board.tiles@.len() implies board.tiles@[i] == 0i8 by {
            assert(board@[i] == TileState::Clear(0));
        }
        let count = n_mines as usize;
        for k in 0..count
            invariant
                count == n_mines,
                board.tiles@.len() == width * height,
                count <= board.tiles@.len(),
                board.dim == (Coord { x: width as i32, y: height as i32 }),
                valid_dimensions(width, height),
                forall|i: int|
                    0 <= i < board.tiles@.len() ==> board.tiles@[i] == if i < k {
                        MINE_CELL
                    } else {
                        0i8
                    },
        {
            board.tiles[k] = MINE_CELL;
        }
        let ghost placed = board.tiles@;
        let mut rng = nanorand::tls_rng();
        shuffle_cells(&mut rng, &mut board.tiles);
        board.n_mines = n_mines;
        let ghost mixed = board@;
        proof {
            lemma_prefix_total(placed, n_mines as nat);
            lemma_rearranged_total(placed, board.tiles@);
            assert forall|i: int| 0 <= i < board@.len() implies (#[trigger] board@[i]).valid() by {
                assert(board.tiles@[i] == 0 || board.tiles@[i] == MINE_CELL);
            }
        }
        board.derive_counts();
        proof {
            lemma_same_mines_same_total(mixed, board@);
            lemma_totals_partition(board@);
            lemma_all_mines(board@);
            lemma_no_mines(board@);
            if n_mines == 0 {
                assert forall|i: int| 0 <= i < board@.len() implies #[trigger] board@[i]
                    == TileState::Clear(0) by {
                    board.lemma_settled_without_mines(i);
                }
            }
        }
        Ok(board)
    }

    /// A random board of the size and with the number of mines that
    /// `options` asks for.
    pub fn from_options(options: &BoardOptions) -> (made: Result<TileMap, BoardError>)
        ensures
            generated(
                made,
                options.difficulty.dim.x,
                options.difficulty.dim.y,
                options.difficulty.n_mines,
            ),
    {
        let Difficulty { dim: GridSize { x, y }, n_mines } = options.difficulty;
        Self::random(x, y, n_mines)
    }

    /// Sets every clear tile to the number of mines around it. The mines
    /// stay where they are.
    pub fn derive_counts(&mut self)
        requires
            old(self).wf(),
        ensures
            final(self).wf(),
            final(self).spec_dim() == old(self).spec_dim(),
            final(self).spec_n_mines() == old(self).spec_n_mines(),
            final(self)@ == derived_cells(old(self)@, old(self).spec_dim()),
            forall|i: int|
                0 <= i < old(self)@.len() ==> (#[trigger] final(self)@[i] is Mine <==> old(
                    self,
                )@[i] is Mine),
            final(self).settled(),
    {
        let ghost start = self@;
        let ghost dim = self.dim;
        let views = self.all_tiles();
        for k in 0..views.len()
            invariant
                self.wf(),
                self.dim == dim,
                self.spec_n_mines() == old(self).spec_n_mines(),
                start == old(self)@,
                dim == old(self).spec_dim(),
                views@.len() == area(dim),
                self@.len() == start.len(),
                start.len() == area(dim),
                forall|i: int|
                    0 <= i < views@.len() ==> (#[trigger] views@[i]).coord() == coord_at(i, dim)
                        && views@[i].wf() && views@[i].spec_dim() == dim
                        && views@[i].spec_n_mines() == old(self).spec_n_mines(),
                forall|i: int|
                    0 <= i < k ==> #[trigger] self@[i] == derived_state(
                        start,
                        dim,
                        coord_at(i, dim),
                    ),
                forall|i: int| k <= i < start.len() ==> #[trigger] self@[i] == start[i],
        {
            let view = views[k];
            proof {
                lemma_coord_at_index(k as int, dim);
                assert forall|i: int| 0 <= i < start.len() implies (self@[i] is Mine
                    <==> start[i] is Mine) by {
                    if i < k {
                        lemma_coord_at_index(i, dim);
                        assert(self@[i] == derived_state(start, dim, coord_at(i, dim)));
                    } else {
                        assert(self@[i] == start[i]);
                    }
                }
                lemma_adjacent_same(self@, start, dim, view.coord());
                assert(self@[k as int] == start[k as int]);
            }
            if !view.is_mine(self) {
                let around = view.mines_around(self);
                view.set_state(self, TileState::Clear(around));
            }
        }
        proof {
            assert(self@ =~= derived_cells(start, dim));
            assert forall|i: int| 0 <= i < start.len() implies (#[trigger] self@[i] is Mine
                <==> start[i] is Mine) by {
                lemma_coord_at_index(i, dim);
            }
            assert forall|c: Coord| c.within(dim) implies (#[trigger] self.state_at(
                c,
            ) matches TileState::Clear(n) ==> n == adjacent_mines(self@, dim, c)) by {
                lemma_index_coord_at(c, dim);
                lemma_adjacent_same(self@, start, dim, c);
                lemma_adjacent_bound(start, dim, c);
                assert(self@[c.index_in(dim)] == derived_state(start, dim, c));
            }
        }
    }

    /// On a settled board without a mine every tile holds a zero.
    proof fn lemma_settled_without_mines(&self, i: int)
        requires
            self.wf(),
            self.settled(),
            0 <= i < self@.len(),
            forall|j: int| 0 <= j < self@.len() ==> !(self@[j] is Mine),
        ensures
            self@[i] == TileState::Clear(0),
    {
        let dim = self.spec_dim();
        let c = coord_at(i, dim);
        lemma_coord_at_index(i, dim);
        assert(self.state_at(c) == self@[i]);
        lemma_neighbors_inside(c, dim, 8);
        let at = neighbor_coords(c, dim);
        assert forall|j: int| 0 <= j < at.len() implies !(self@[(#[trigger] at[j]).index_in(
            dim,
        )] is Mine) by {
            lemma_index_in_range(at[j].x as int, at[j].y as int, dim);
        }
        lemma_mines_among_none(self@, dim, at);
    }

    /// The number of columns.
    #[verifier::when_used_as_spec(spec_width)]
    pub fn width(&self) -> (width: u32)
        requires
            self.wf(),
        ensures
            width == self.spec_width(),
            width == self.spec_dim().x,
    {
        self.dim.x as u32
    }

    /// The number of rows.
    #[verifier::when_used_as_spec(spec_height)]
    pub fn height(&self) -> (height: u32)
        requires
            self.wf(),
        ensures
            height == self.spec_height(),
            height == self.spec_dim().y,
    {
        self.dim.y as u32
    }

    /// The extent of the grid: `x` is the width, `y` the height.
    #[verifier::when_used_as_spec(spec_dim)]
    pub fn dim(&self) -> (dim: Coord)
        ensures
            dim == self.spec_dim(),
    {
        self.dim
    }

    /// The number of mines the board was made with.
    #[verifier::when_used_as_spec(spec_n_mines)]
    pub fn n_mines(&self) -> (n: u32)
        ensures
            n == self.spec_n_mines(),
    {
        self.n_mines
    }

    /// A cursor on the tile at `coord`, or `None` where `coord` lies outside
    /// the grid.
    pub fn get_tile(&self, coord: Coord) -> (found: Option<TileView>)
        ensures
            found is Some <==> coord.within(self.dim()),
            found matches Some(view) ==> view.coord() == coord && view.made_by(self),
    {
        if bound_check(coord, self.dim) {
            Some(TileView { coord, n_mines: self.n_mines, dim: self.dim })
        } else {
            None
        }
    }

    /// For each of `coords`, in their order, what `get_tile` gives for it.
    pub fn get_tiles(&self, coords: &[Coord]) -> (found: Vec<Option<TileView>>)
        ensures
            found@.len() == coords@.len(),
            forall|i: int|
                0 <= i < found@.len() ==> (#[trigger] found@[i] is Some <==> coords@[i].within(
                    self.dim(),
                )),
            forall|i: int|
                0 <= i < found@.len() ==> (#[trigger] found@[i] matches Some(view)
                    ==> view.coord() == coords@[i] && view.made_by(self)),
    {
        let mut found: Vec<Option<TileView>> = Vec::new();
        for k in 0..coords.len()
            invariant
                found@.len() == k,
                forall|i: int|
                    0 <= i < k ==> (#[trigger] found@[i] is Some <==> coords@[i].within(
                        self.dim(),
                    )),
                forall|i: int|
                    0 <= i < k ==> (#[trigger] found@[i] matches Some(view) ==> view.coord()
                        == coords@[i] && view.made_by(self)),
        {
            found.push(self.get_tile(coords[k]));
        }
        found
    }

    /// Every coordinate of the grid, once, in row-major order.
    pub fn coords(&self) -> (coords: Vec<Coord>)
        requires
            self.wf(),
        ensures
            coords@ == row_major(self.dim()),
    {
        grid_coords(self.dim)
    }

    /// A cursor on every tile of the grid, in row-major order.
    pub fn all_tiles(&self) -> (views: Vec<TileView>)
        requires
            self.wf(),
        ensures
            views@.len() == area(self.dim()),
            forall|i: int|
                0 <= i < views@.len() ==> (#[trigger] views@[i]).coord() == coord_at(
                    i,
                    self.dim(),
                ) && views@[i].made_by(self),
    {
        let coords = self.coords();
        let found = self.get_tiles(coords.as_slice());
        let mut views: Vec<TileView> = Vec::new();
        for k in 0..found.len()
            invariant
                self.wf(),
                coords@ == row_major(self.dim()),
                found@.len() == coords@.len(),
                forall|i: int|
                    0 <= i < found@.len() ==> (#[trigger] found@[i] is Some
                        <==> coords@[i].within(self.dim())),
                forall|i: int|
                    0 <= i < found@.len() ==> (#[trigger] found@[i] matches Some(view)
                        ==> view.coord() == coords@[i] && view.made_by(self)),
                views@.len() == k,
                forall|i: int|
                    0 <= i < k ==> (#[trigger] views@[i]).coord() == coord_at(i, self.dim())
                        && views@[i].made_by(self),
        {
            proof {
                lemma_coord_at_index(k as int, self.dim());
            }
            match found[k] {
                Some(view) => {
                    views.push(view);
                },
                None => {
                    assert(false);
                },
            }
        }
        views
    }

    /// A cursor on the tile at `coord`, which must lie inside the grid:
    /// another name for `tile`.
    pub fn get(&self, coord: Coord) -> (view: TileView)
        requires
            coord.within(self.dim()),
        ensures
            view.coord() == coord,
            view.made_by(self),
    {
        self.tile(coord)
    }

    /// A cursor on the tile at `coord`, which must lie inside the grid.
    pub fn tile(&self, coord: Coord) -> (view: TileView)
        requires
            coord.within(self.dim()),
        ensures
            view.coord() == coord,
            view.made_by(self),
    {
        TileView { coord, n_mines: self.n_mines, dim: self.dim }
    }
}

impl TileView {
    pub closed spec fn spec_coord(&self) -> Coord {
        self.coord
    }

    pub closed spec fn spec_dim(&self) -> Coord {
        self.dim
    }

    /// The mine count of the board that the cursor was made for.
    pub closed spec fn spec_n_mines(&self) -> u32 {
        self.n_mines
    }

    /// A cursor is well formed when it stands inside its grid.
    pub open spec fn wf(&self) -> bool {
        self.spec_coord().within(self.spec_dim())
    }

    /// Whether the cursor stands on a cell of `map`: it lies inside its grid,
    /// and its grid has the extent of `map`.
    pub open spec fn belongs_to(&self, map: &TileMap) -> bool {
        &&& self.wf()
        &&& self.spec_dim() == map.spec_dim()
    }

    /// Whether the cursor is as `map` makes it: it stands on a cell of `map`
    /// and carries the mine count of `map`.
    pub open spec fn made_by(&self, map: &TileMap) -> bool {
        &&& self.belongs_to(map)
        &&& self.spec_n_mines() == map.spec_n_mines()
    }

    /// Whether two cursors carry the same extent and mine count.
    pub open spec fn same_board(&self, other: &TileView) -> bool {
        self.spec_dim() == other.spec_dim() && self.spec_n_mines() == other.spec_n_mines()
    }

    /// The coordinate the cursor stands on.
    #[verifier::when_used_as_spec(spec_coord)]
    pub fn coord(&self) -> (coord: Coord)
        ensures
            coord == self.spec_coord(),
    {
        self.coord
    }

    /// The coordinate the cursor stands on: another name for `coord`.
    pub fn coordinate(&self) -> (coord: Coord)
        ensures
            coord == self.spec_coord(),
    {
        self.coord
    }

    /// The extent of the cursor's grid.
    #[verifier::when_used_as_spec(spec_dim)]
    pub fn dim(&self) -> (dim: Coord)
        ensures
            dim == self.spec_dim(),
    {
        self.dim
    }

    /// The cursor moved to `coord`, which must lie inside the grid.
    pub fn with_coordinate(self, coord: Coord) -> (moved: TileView)
        requires
            coord.within(self.dim()),
        ensures
            moved.coord() == coord,
            moved.same_board(&self),
    {
        TileView { coord, n_mines: self.n_mines, dim: self.dim }
    }

    /// The cursor moved to `coord`, or `None` where `coord` lies outside
    /// the grid.
    pub fn try_with_coordinate(self, coord: Coord) -> (moved: Option<TileView>)
        ensures
            moved is Some <==> coord.within(self.dim()),
            moved matches Some(view) ==> view.coord() == coord && view.same_board(&self),
    {
        if bound_check(coord, self.dim) {
            Some(TileView { coord, n_mines: self.n_mines, dim: self.dim })
        } else {
            None
        }
    }

    /// The cursor moved by `delta`, or `None` where that leaves the grid.
    /// The sum is taken in the integers: a step too long for a coordinate
    /// leaves the grid, it does not wrap around.
    pub fn step(self, delta: Coord) -> (moved: Option<TileView>)
        ensures
            moved is Some <==> in_grid(
                self.coord().x + delta.x,
                self.coord().y + delta.y,
                self.dim(),
            ),
            moved matches Some(view) ==> {
                &&& view.coord().x == self.coord().x + delta.x
                &&& view.coord().y == self.coord().y + delta.y
                &&& view.same_board(&self)
            },
    {
        let x: i64 = self.coord.x as i64 + delta.x as i64;
        let y: i64 = self.coord.y as i64 + delta.y as i64;
        if 0 <= x && x < self.dim.x as i64 && 0 <= y && y < self.dim.y as i64 {
            self.try_with_coordinate(Coord { x: x as i32, y: y as i32 })
        } else {
            None
        }
    }

    /// A cursor on each neighbour of the cursor's tile: the tiles one step
    /// away in the eight directions, in the fixed order of the offsets,
    /// without those that would lie outside the grid.
    pub fn neighbors(self) -> (around: Vec<TileView>)
        ensures
            around@.len() == neighbor_coords(self.coord(), self.dim()).len(),
            forall|i: int|
                0 <= i < around@.len() ==> {
                    &&& (#[trigger] around@[i]).coord() == neighbor_coords(
                        self.coord(),
                        self.dim(),
                    )[i]
                    &&& around@[i].wf()
                    &&& around@[i].same_board(&self)
                },
    {
        let mut around: Vec<TileView> = Vec::new();
        for k in 0..8usize
            invariant
                around@.len() == neighbors_upto(self.coord(), self.dim(), k as nat).len(),
                forall|i: int|
                    0 <= i < around@.len() ==> {
                        &&& (#[trigger] around@[i]).coord() == neighbors_upto(
                            self.coord(),
                            self.dim(),
                            k as nat,
                        )[i]
                        &&& around@[i].wf()
                        &&& around@[i].same_board(&self)
                    },
        {
            match self.step(neighbor_offset(k)) {
                Some(view) => {
                    around.push(view);
                },
                None => {},
            }
        }
        around
    }

    /// The mine count of the board that the cursor was made for.
    #[verifier::when_used_as_spec(spec_n_mines)]
    pub fn n_mines(&self) -> (n: u32)
        ensures
            n == self.spec_n_mines(),
    {
        self.n_mines
    }

    /// The state of the cursor's tile in `map`.
    pub fn state(&self, map: &TileMap) -> (state: TileState)
        requires
            map.wf(),
            self.belongs_to(map),
        ensures
            state == map.state_at(self.coord()),
            state.valid(),
    {
        let index = linear_index(self.coord, self.dim);
        assert(map@[index as int].valid());
        TileState::from_cell(map.tiles[index])
    }

    /// Whether the cursor's tile in `map` is a mine.
    pub fn is_mine(&self, map: &TileMap) -> (mine: bool)
        requires
            map.wf(),
            self.belongs_to(map),
        ensures
            mine == (map.state_at(self.coord()) is Mine),
    {
        self.state(map) == TileState::Mine
    }

    /// The number of mines among the neighbours of the cursor's tile in
    /// `map`.
    pub fn mines_around(&self, map: &TileMap) -> (count: u8)
        requires
            map.wf(),
            self.belongs_to(map),
        ensures
            count == adjacent_mines(map@, self.dim(), self.coord()),
            count <= 8,
    {
        let around = self.neighbors();
        let ghost at = neighbor_coords(self.coord(), self.dim());
        proof {
            lemma_neighbors_inside(self.coord(), self.dim(), 8);
        }
        let mut count: u8 = 0;
        for k in 0..around.len()
            invariant
                map.wf(),
                self.belongs_to(map),
                at == neighbor_coords(self.coord(), self.dim()),
                around@.len() == at.len(),
                at.len() <= 8,
                forall|i: int|
                    0 <= i < around@.len() ==> {
                        &&& (#[trigger] around@[i]).coord() == at[i]
                        &&& around@[i].wf()
                        &&& around@[i].same_board(self)
                    },
                count == mines_among(map@, self.dim(), at.take(k as int)),
                count <= k,
        {
            proof {
                assert(at.take(k + 1).drop_last() =~= at.take(k as int));
                assert(at.take(k + 1).last() == at[k as int]);
            }
            if around[k].is_mine(map) {
                count = count + 1;
            }
        }
        proof {
            assert(at.take(at.len() as int) =~= at);
        }
        count
    }

    /// Writes `state` to the cursor's tile in `map`. No other tile changes,
    /// and every cursor on the same coordinate reads the new state.
    pub fn set_state(&self, map: &mut TileMap, state: TileState)
        requires
            old(map).wf(),
            self.belongs_to(old(map)),
            state.valid(),
        ensures
            final(map).wf(),
            final(map).spec_dim() == old(map).spec_dim(),
            final(map).spec_n_mines() == old(map).spec_n_mines(),
            final(map)@ == old(map)@.update(self.coord().index_in(self.dim()), state),
    {
        let index = linear_index(self.coord, self.dim);
        let cell = state.to_cell();
        map.tiles[index] = cell;
        assert(map@ =~= old(map)@.update(index as int, state));
    }
}

/// A state written through one cursor is read through every cursor that
/// stands on the same coordinate of the same board, and a cursor on any
/// other coordinate reads what it read before.
///
/// `after` is the board `before` once `writer` has written `state` to it.
pub proof fn write_is_seen_by_every_cursor(
    before: TileMap,
    after: TileMap,
    writer: TileView,
    reader: TileView,
    state: TileState,
)
    requires
        before.wf(),
        writer.belongs_to(&before),
        reader.belongs_to(&before),
        after.spec_dim() == before.spec_dim(),
        after@ == before@.update(writer.spec_coord().index_in(writer.spec_dim()), state),
    ensures
        reader.spec_coord() == writer.spec_coord() ==> after.state_at(reader.spec_coord())
            == state,
        reader.spec_coord() != writer.spec_coord() ==> after.state_at(reader.spec_coord())
            == before.state_at(reader.spec_coord()),
{
    let dim = before.spec_dim();
    let w = writer.spec_coord();
    let r = reader.spec_coord();
    lemma_index_in_range(w.x as int, w.y as int, dim);
    lemma_index_in_range(r.x as int, r.y as int, dim);
    if r != w {
        if r.index_in(dim) == w.index_in(dim) {
            lemma_index_injective(r.x as int, r.y as int, w.x as int, w.y as int, dim);
        }
    }
}

} // verus!
