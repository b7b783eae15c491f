//! A plain-text picture of a board, for diagnostics.

use crate::board::TileMap;
use crate::coord::{cell_index, lemma_index_in_range, Coord};
use crate::state::TileState;
use vstd::prelude::*;

verus! {

/// The colour in which a tile is drawn.
#[derive(Debug, Clone, Copy, PartialEq, Eq, Structural)]
pub enum Tint {
    Plain,
    Cyan,
    Green,
    Yellow,
    Red,
    BrightRed,
}

/// The character that stands for a tile: a blank for a tile without mines
/// around it, the digit for any other count, a star for a mine.
pub open spec fn glyph_of(state: TileState) -> char {
    match state {
        TileState::Mine => '*',
        TileState::Clear(n) => if n == 0 {
            ' '
        } else if n == 1 {
            '1'
        } else if n == 2 {
            '2'
        } else if n == 3 {
            '3'
        } else if n == 4 {
            '4'
        } else if n == 5 {
            '5'
        } else if n == 6 {
            '6'
        } else if n == 7 {
            '7'
        } else {
            '8'
        },
    }
}

/// The colour of a tile: none for a count of zero, cyan, green and yellow
/// for one, two and three, red for any higher count, bright red for a mine.
pub open spec fn tint_of(state: TileState) -> Tint {
    match state {
        TileState::Mine => Tint::BrightRed,
        TileState::Clear(n) => if n == 0 {
            Tint::Plain
        } else if n == 1 {
            Tint::Cyan
        } else if n == 2 {
            Tint::Green
        } else if n == 3 {
            Tint::Yellow
        } else {
            Tint::Red
        },
    }
}

/// The given characters with one blank between each two of them.
pub open spec fn spaced(glyphs: Seq<char>) -> Seq<char> {
    Seq::new(
        if glyphs.len() == 0 {
            0nat
        } else {
            (2 * glyphs.len() - 1) as nat
        },
        |i: int|
            if i % 2 == 0 {
                glyphs[i / 2]
            } else {
                ' '
            },
    )
}

/// The characters of the tiles of row `y`, from left to right.
pub open spec fn row_glyphs(cells: Seq<TileState>, dim: Coord, y: int) -> Seq<char> {
    Seq::new(dim.x as nat, |x: int| glyph_of(cells[cell_index(x, y, dim)]))
}

/// The line that shows row `y`: a bar, the row's characters with blanks
/// between them, and a bar, the bars set off by a blank each.
pub open spec fn row_line(cells: Seq<TileState>, dim: Coord, y: int) -> Seq<char> {
    seq!['|', ' '] + spaced(row_glyphs(cells, dim, y)) + seq![' ', '|']
}

/// The lines of the first `rows` rows, each closed by a line feed.
pub open spec fn lines_upto(cells: Seq<TileState>, dim: Coord, rows: nat) -> Seq<char>
    decreases rows,
{
    if rows == 0 {
        Seq::empty()
    } else {
        lines_upto(cells, dim, (rows - 1) as nat) + row_line(cells, dim, rows - 1) + seq!['\n']
    }
}

/// `String::from_iter` over the characters of a vector: the string made of
/// these characters in their order.
#[verifier::external_body]
fn string_of(chars: &Vec<char>) -> (text: String)
    ensures
        text@ == chars@,
{
    String::from_iter(chars)
}

/// The character that stands for a tile.
pub fn glyph(state: TileState) -> (c: char)
    requires
        state.valid(),
    ensures
        c == glyph_of(state),
{
    match state {
        TileState::Mine => '*',
        TileState::Clear(n) => match n {
            0 => ' ',
            1 => '1',
            2 => '2',
            3 => '3',
            4 => '4',
            5 => '5',
            6 => '6',
            7 => '7',
            _ => '8',
        },
    }
}

/// The colour in which a tile is drawn.
pub fn tint(state: TileState) -> (t: Tint)
    ensures
        t == tint_of(state),
{
    match state {
        TileState::Mine => Tint::BrightRed,
        TileState::Clear(n) => match n {
            0 => Tint::Plain,
            1 => Tint::Cyan,
            2 => Tint::Green,
            3 => Tint::Yellow,
            _ => Tint::Red,
        },
    }
}

impl TileMap {
    /// The characters of the line that shows row `y`.
    fn row_chars(&self, y: u32) -> (line: Vec<char>)
        requires
            self.wf(),
            y < self.spec_dim().y,
        ensures
            line@ == row_line(self@, self.spec_dim(), y as int),
    {
        let width = self.width();
        let ghost glyphs = row_glyphs(self@, self.spec_dim(), y as int);
        let mut line: Vec<char> = Vec::new();
        line.push('|');
        line.push(' ');
        for x in 0..width
            invariant
                self.wf(),
                y < self.spec_dim().y,
                width == self.spec_dim().x,
                glyphs == row_glyphs(self@, self.spec_dim(), y as int),
                line@ == seq!['|', ' '] + spaced(glyphs.take(x as int)),
        {
            let ghost before = line@;
            if x > 0 {
                line.push(' ');
            }
            let at = Coord { x: x as i32, y: y as i32 };
            let view = self.tile(at);
            line.push(glyph(view.state(self)));
            assert(line@ =~= seq!['|', ' '] + spaced(glyphs.take(x + 1)));
        }
        line.push(' ');
        line.push('|');
        assert(glyphs.take(width as int) =~= glyphs);
        assert(line@ =~= row_line(self@, self.spec_dim(), y as int));
        line
    }

    /// The line that shows row `y`.
    pub fn row_text(&self, y: u32) -> (text: String)
        requires
            self.wf(),
            y < self.spec_dim().y,
        ensures
            text@ == row_line(self@, self.spec_dim(), y as int),
    {
        let line = self.row_chars(y);
        string_of(&line)
    }

    /// The whole board as text: one line for each row, from the top.
    pub fn to_text(&self) -> (text: String)
        requires
            self.wf(),
        ensures
            text@ == lines_upto(self@, self.spec_dim(), self.spec_dim().y as nat),
    {
        let height = self.height();
        let mut all: Vec<char> = Vec::new();
        for y in 0..height
            invariant
                self.wf(),
                height == self.spec_dim().y,
                all@ == lines_upto(self@, self.spec_dim(), y as nat),
        {
            let line = self.row_chars(y);
            let ghost before = all@;
            all.extend_from_slice(line.as_slice());
            all.push('\n');
            assert(all@ =~= before + line@ + seq!['\n']);
        }
        string_of(&all)
    }
}

} // verus!
