//! The state of one tile and the signed byte that stores it.

use vstd::prelude::*;

verus! {

/// What a tile holds: a mine, or the number of mines among its neighbours.
#[derive(Debug, Clone, Copy, PartialEq, Eq, Structural)]
pub enum TileState {
    Mine,
    Clear(u8),
}

/// The byte that stands for a mine in a board's buffer.
pub const MINE_CELL: i8 = -1;

/// The largest number of neighbours a tile can have.
pub const MAX_NEIGHBORS: u8 = 8;

/// The state that a stored byte stands for: a negative byte is a mine, any
/// other byte is the count it holds.
pub open spec fn decode(cell: i8) -> TileState {
    if cell < 0 {
        TileState::Mine
    } else {
        TileState::Clear(cell as u8)
    }
}

/// The byte that stores a state.
pub open spec fn encode(state: TileState) -> i8 {
    match state {
        TileState::Mine => MINE_CELL,
        TileState::Clear(n) => n as i8,
    }
}

/// The states that a buffer of stored bytes stands for.
pub open spec fn decode_all(cells: Seq<i8>) -> Seq<TileState> {
    cells.map_values(|cell: i8| decode(cell))
}

impl TileState {
    /// A state that a board may hold: a mine, or a count of at most eight.
    pub open spec fn valid(self) -> bool {
        match self {
            TileState::Mine => true,
            TileState::Clear(n) => n <= MAX_NEIGHBORS,
        }
    }

    /// Reads a stored byte.
    pub fn from_cell(cell: i8) -> (state: TileState)
        ensures
            state == decode(cell),
    {
        if cell < 0 {
            TileState::Mine
        } else {
            TileState::Clear(cell as u8)
        }
    }

    /// The byte that stores this state.
    pub fn to_cell(self) -> (cell: i8)
        requires
            self.valid(),
        ensures
            cell == encode(self),
            decode(cell) == self,
    {
        match self {
            TileState::Mine => MINE_CELL,
            TileState::Clear(n) => n as i8,
        }
    }
}

/// The number of mines in a sequence of states.
pub open spec fn mine_total(cells: Seq<TileState>) -> nat
    decreases cells.len(),
{
    if cells.len() == 0 {
        0
    } else {
        mine_total(cells.drop_last()) + if cells.last() is Mine {
            1nat
        } else {
            0nat
        }
    }
}

/// The number of clear tiles in a sequence of states.
pub open spec fn clear_total(cells: Seq<TileState>) -> nat
    decreases cells.len(),
{
    if cells.len() == 0 {
        0
    } else {
        clear_total(cells.drop_last()) + if cells.last() is Mine {
            0nat
        } else {
            1nat
        }
    }
}

/// Every tile is a mine or clear: the two totals add up to the length.
pub proof fn lemma_totals_partition(cells: Seq<TileState>)
    ensures
        mine_total(cells) + clear_total(cells) == cells.len(),
    decreases cells.len(),
{
    if cells.len() > 0 {
        lemma_totals_partition(cells.drop_last());
    }
}

/// Two sequences with mines at the same places hold the same number of mines.
pub proof fn lemma_same_mines_same_total(a: Seq<TileState>, b: Seq<TileState>)
    requires
        a.len() == b.len(),
        forall|i: int| 0 <= i < a.len() ==> (a[i] is Mine <==> b[i] is Mine),
    ensures
        mine_total(a) == mine_total(b),
    decreases a.len(),
{
    if a.len() > 0 {
        lemma_same_mines_same_total(a.drop_last(), b.drop_last());
    }
}

/// A sequence in which every tile is a mine, and only such a sequence, holds
/// as many mines as it is long.
pub proof fn lemma_all_mines(cells: Seq<TileState>)
    ensures
        mine_total(cells) <= cells.len(),
        mine_total(cells) == cells.len() <==> forall|i: int|
            0 <= i < cells.len() ==> cells[i] is Mine,
    decreases cells.len(),
{
    if cells.len() > 0 {
        let front = cells.drop_last();
        lemma_all_mines(front);
        if mine_total(cells) == cells.len() {
            assert forall|i: int| 0 <= i < cells.len() implies cells[i] is Mine by {
                if i < front.len() {
                    assert(front[i] is Mine);
                }
            }
        }
        if forall|i: int| 0 <= i < cells.len() ==> cells[i] is Mine {
            assert forall|i: int| 0 <= i < front.len() implies front[i] is Mine by {
                assert(cells[i] is Mine);
            }
        }
    }
}

/// A sequence without a mine, and only such a sequence, has a mine total of
/// zero.
pub proof fn lemma_no_mines(cells: Seq<TileState>)
    ensures
        mine_total(cells) == 0 <==> forall|i: int|
            0 <= i < cells.len() ==> !(cells[i] is Mine),
    decreases cells.len(),
{
    if cells.len() > 0 {
        let front = cells.drop_last();
        lemma_no_mines(front);
        if mine_total(cells) == 0 {
            assert forall|i: int| 0 <= i < cells.len() implies !(cells[i] is Mine) by {
                if i < front.len() {
                    assert(!(front[i] is Mine));
                }
            }
        }
        if forall|i: int| 0 <= i < cells.len() ==> !(cells[i] is Mine) {
            assert forall|i: int| 0 <= i < front.len() implies !(front[i] is Mine) by {
                assert(!(cells[i] is Mine));
            }
        }
    }
}

/// In a buffer that holds only zeros and mine bytes, the mines are as many
/// as the mine byte occurs.
pub proof fn lemma_total_is_occurrences(cells: Seq<i8>)
    requires
        forall|i: int| 0 <= i < cells.len() ==> cells[i] == 0 || cells[i] == MINE_CELL,
    ensures
        mine_total(decode_all(cells)) == cells.to_multiset().count(MINE_CELL),
    decreases cells.len(),
{
    let states = decode_all(cells);
    if cells.len() == 0 {
        assert(cells.to_multiset().len() == 0) by {
            cells.to_multiset_ensures();
        }
    } else {
        let front = cells.drop_last();
        lemma_total_is_occurrences(front);
        assert(states.drop_last() =~= decode_all(front));
        assert(cells =~= front.push(cells.last()));
        assert(cells.to_multiset() =~= front.to_multiset().insert(cells.last())) by {
            front.to_multiset_ensures();
        }
    }
}

/// A buffer whose first `n` bytes are mine bytes and whose other bytes are
/// zero holds `n` mines.
pub proof fn lemma_prefix_total(cells: Seq<i8>, n: nat)
    requires
        n <= cells.len(),
        forall|i: int|
            0 <= i < cells.len() ==> cells[i] == if i < n {
                MINE_CELL
            } else {
                0i8
            },
    ensures
        mine_total(decode_all(cells)) == n,
    decreases cells.len(),
{
    let states = decode_all(cells);
    if cells.len() > 0 {
        let front = cells.drop_last();
        assert(states.drop_last() =~= decode_all(front));
        if n == cells.len() {
            lemma_prefix_total(front, (n - 1) as nat);
        } else {
            lemma_prefix_total(front, n);
        }
    }
}

/// A rearrangement of a buffer of zeros and mine bytes holds only zeros and
/// mine bytes, and as many mines as the buffer.
pub proof fn lemma_rearranged_total(before: Seq<i8>, after: Seq<i8>)
    requires
        before.to_multiset() == after.to_multiset(),
        forall|i: int| 0 <= i < before.len() ==> before[i] == 0 || before[i] == MINE_CELL,
    ensures
        forall|i: int| 0 <= i < after.len() ==> after[i] == 0 || after[i] == MINE_CELL,
        mine_total(decode_all(after)) == mine_total(decode_all(before)),
{
    assert forall|i: int| 0 <= i < after.len() implies after[i] == 0 || after[i] == MINE_CELL by {
        let cell = after[i];
        after.to_multiset_ensures();
        before.to_multiset_ensures();
        assert(after.contains(cell));
        assert(before.to_multiset().count(cell) > 0);
        assert(before.contains(cell));
        let j = choose|j: int| 0 <= j < before.len() && before[j] == cell;
        assert(before[j] == cell);
    }
    lemma_total_is_occurrences(before);
    lemma_total_is_occurrences(after);
}

} // verus!
