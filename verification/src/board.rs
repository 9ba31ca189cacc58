//! The 6x5 board state machine.
//!
//! The board holds six rows of five cells and a cursor at the first free
//! cell.  Letters are appended and removed in the cursor row; submitting a
//! full row scores it against the solution and advances the cursor.  All
//! operations are total: a call that is not valid in the current state is
//! a silent no-op.  The outcome is derived from the board itself: Won once
//! a submitted row is all Green, Lost once all six rows are submitted
//! without a win.

use vstd::prelude::*;

use crate::cell::WordleBox;
use crate::score::check_word;
use crate::score::is_ascii_letter;
use crate::score::is_letter;
use crate::score::lower_char;
use crate::score::lower_seq;
use crate::score::to_lowercase_char;
use crate::score::verdict_at;
use crate::score::Color;

verus! {

/// The session result as read off the board.
#[derive(Clone, Copy, Debug, PartialEq, Eq, Structural)]
pub enum Outcome {
    InProgress,
    Won,
    Lost,
}

/// A cell that was never written.
pub open spec fn empty_cell() -> WordleBox {
    WordleBox { letter: None, color: Color::Blank }
}

/// The board: a 6x5 grid of cells and the cursor at the first free cell.
pub struct WordleGrid {
    pub grid: [[WordleBox; 5]; 6],
    first_free: (usize, usize),
}

impl WordleGrid {
    /// Row of the cursor: the number of submitted rows.
    pub closed spec fn cursor_row(&self) -> int {
        self.first_free.0 as int
    }

    /// Column of the cursor: the number of letters typed in the current
    /// row.
    pub closed spec fn cursor_col(&self) -> int {
        self.first_free.1 as int
    }

    /// The cell at row `r`, column `c`.
    pub closed spec fn cell(&self, r: int, c: int) -> WordleBox {
        self.grid[r][c]
    }

    /// Every cell of row `r` is Green.
    pub open spec fn row_won(&self, r: int) -> bool {
        forall|c: int| 0 <= c < 5 ==> (#[trigger] self.cell(r, c)).color == Color::Green
    }

    /// Some submitted row is all Green.
    pub open spec fn spec_won(&self) -> bool {
        exists|r: int| 0 <= r < self.cursor_row() && self.row_won(r)
    }

    /// The outcome derived from the board.
    pub open spec fn spec_outcome(&self) -> Outcome {
        if self.spec_won() {
            Outcome::Won
        } else if self.cursor_row() == 6 {
            Outcome::Lost
        } else {
            Outcome::InProgress
        }
    }

    /// The letters of row `r`, in order.
    pub open spec fn row_word(&self, r: int) -> Seq<char> {
        Seq::new(5, |c: int| self.cell(r, c).letter->0)
    }

    /// Board invariant: the cursor is in range and at column zero once the
    /// board is full; submitted rows hold scored letters; the cursor row
    /// holds unscored letters exactly up to the cursor; everything after
    /// the cursor is untouched.
    pub open spec fn wf(&self) -> bool {
        &&& 0 <= self.cursor_row() <= 6
        &&& 0 <= self.cursor_col() <= 5
        &&& (self.cursor_row() == 6 ==> self.cursor_col() == 0)
        &&& (forall|r: int, c: int|
            0 <= r < self.cursor_row() && 0 <= c < 5 ==> (#[trigger] self.cell(r, c)).letter
                is Some && self.cell(r, c).color != Color::Blank)
        &&& (forall|c: int|
            self.cursor_row() < 6 && 0 <= c < self.cursor_col() ==> (#[trigger] self.cell(
                self.cursor_row(),
                c,
            )).letter is Some && self.cell(self.cursor_row(), c).color == Color::Blank)
        &&& (forall|c: int|
            self.cursor_row() < 6 && self.cursor_col() <= c < 5 ==> (#[trigger] self.cell(
                self.cursor_row(),
                c,
            )) == empty_cell())
        &&& (forall|r: int, c: int|
            self.cursor_row() < r < 6 && 0 <= c < 5 ==> (#[trigger] self.cell(r, c))
                == empty_cell())
    }

    /// The cursor as (row, column).
    pub fn cursor(&self) -> (rc: (usize, usize))
        ensures
            rc.0 as int == self.cursor_row(),
            rc.1 as int == self.cursor_col(),
    {
        self.first_free
    }

    /// True when row `r` was scored all Green.
    fn row_is_won(&self, r: usize) -> (b: bool)
        requires
            r < 6,
        ensures
            b == self.row_won(r as int),
    {
        let mut c: usize = 0;
        while c < 5
            invariant
                r < 6,
                c <= 5,
                forall|k: int|
                    0 <= k < c as int ==> (#[trigger] self.cell(r as int, k)).color
                        == Color::Green,
            decreases 5 - c,
        {
            if !(self.grid[r][c].color == Color::Green) {
                proof {
                    assert(self.cell(r as int, c as int).color != Color::Green);
                }
                return false;
            }
            c = c + 1;
        }
        true
    }

    /// The outcome of the session so far.
    pub fn outcome(&self) -> (o: Outcome)
        requires
            self.wf(),
        ensures
            o == self.spec_outcome(),
    {
        let limit = self.first_free.0;
        let mut r: usize = 0;
        while r < limit
            invariant
                self.wf(),
                limit as int == self.cursor_row(),
                r <= limit,
                forall|k: int| 0 <= k < r as int ==> !(#[trigger] self.row_won(k)),
            decreases limit - r,
        {
            if self.row_is_won(r) {
                return Outcome::Won;
            }
            r = r + 1;
        }
        if limit == 6 {
            Outcome::Lost
        } else {
            Outcome::InProgress
        }
    }

    /// Types one letter at the cursor, lowercased.  Silently ignored when
    /// the game is over, the row is already full, or `c` is not an ASCII
    /// letter.
    pub fn append_char(&mut self, c: char)
        requires
            old(self).wf(),
        ensures
            final(self).wf(),
            !(old(self).spec_outcome() == Outcome::InProgress && old(self).cursor_col() < 5
                && is_ascii_letter(c)) ==> *final(self) == *old(self),
            (old(self).spec_outcome() == Outcome::InProgress && old(self).cursor_col() < 5
                && is_ascii_letter(c)) ==> {
                &&& final(self).cursor_row() == old(self).cursor_row()
                &&& final(self).cursor_col() == old(self).cursor_col() + 1
                &&& final(self).cell(old(self).cursor_row(), old(self).cursor_col()) == (WordleBox {
                    letter: Some(lower_char(c)),
                    color: Color::Blank,
                })
                &&& (forall|r: int, k: int|
                    0 <= r < 6 && 0 <= k < 5 && !(r == old(self).cursor_row() && k == old(
                        self,
                    ).cursor_col()) ==> #[trigger] final(self).cell(r, k) == old(self).cell(r, k))
                &&& final(self).spec_outcome() == Outcome::InProgress
            },
    {
        let o = self.outcome();
        if o == Outcome::InProgress && self.first_free.1 < 5 && is_letter(c) {
            let row = self.first_free.0;
            let col = self.first_free.1;
            let b = WordleBox { letter: Some(to_lowercase_char(c)), color: Color::Blank };
            let mut row_arr = self.grid[row];
            row_arr[col] = b;
            self.grid[row] = row_arr;
            self.first_free = (row, col + 1);
            proof {
                assert(forall|r: int, k: int|
                    0 <= r < 6 && 0 <= k < 5 && !(r == row as int && k == col as int)
                        ==> #[trigger] self.cell(r, k) == old(self).cell(r, k));
                assert forall|r: int|
                    0 <= r < self.cursor_row() implies (#[trigger] self.row_won(r)) == old(
                    self,
                ).row_won(r) by {
                    if old(self).row_won(r) {
                        assert forall|k: int|
                            0 <= k < 5 implies (#[trigger] self.cell(r, k)).color
                            == Color::Green by {
                            assert(old(self).cell(r, k).color == Color::Green);
                        }
                    }
                    if self.row_won(r) {
                        assert forall|k: int|
                            0 <= k < 5 implies (#[trigger] old(self).cell(r, k)).color
                            == Color::Green by {
                            assert(self.cell(r, k).color == Color::Green);
                        }
                    }
                }
            }
        }
    }

    /// Deletes the letter before the cursor.  Silently ignored when the
    /// game is over or the cursor row is empty.
    pub fn remove_char(&mut self)
        requires
            old(self).wf(),
        ensures
            final(self).wf(),
            !(old(self).spec_outcome() == Outcome::InProgress && old(self).cursor_col() > 0)
                ==> *final(self) == *old(self),
            (old(self).spec_outcome() == Outcome::InProgress && old(self).cursor_col() > 0) ==> {
                &&& final(self).cursor_row() == old(self).cursor_row()
                &&& final(self).cursor_col() == old(self).cursor_col() - 1
                &&& final(self).cell(old(self).cursor_row(), old(self).cursor_col() - 1)
                    == empty_cell()
                &&& (forall|r: int, k: int|
                    0 <= r < 6 && 0 <= k < 5 && !(r == old(self).cursor_row() && k == old(
                        self,
                    ).cursor_col() - 1) ==> #[trigger] final(self).cell(r, k) == old(self).cell(
                        r,
                        k,
                    ))
                &&& final(self).spec_outcome() == Outcome::InProgress
            },
    {
        let o = self.outcome();
        if o == Outcome::InProgress && self.first_free.1 > 0 {
            let row = self.first_free.0;
            let col = self.first_free.1 - 1;
            let mut row_arr = self.grid[row];
            row_arr[col] = WordleBox { letter: None, color: Color::Blank };
            self.grid[row] = row_arr;
            self.first_free = (row, col);
            proof {
                assert(forall|r: int, k: int|
                    0 <= r < 6 && 0 <= k < 5 && !(r == row as int && k == col as int)
                        ==> #[trigger] self.cell(r, k) == old(self).cell(r, k));
                assert forall|r: int|
                    0 <= r < self.cursor_row() implies (#[trigger] self.row_won(r)) == old(
                    self,
                ).row_won(r) by {
                    if old(self).row_won(r) {
                        assert forall|k: int|
                            0 <= k < 5 implies (#[trigger] self.cell(r, k)).color
                            == Color::Green by {
                            assert(old(self).cell(r, k).color == Color::Green);
                        }
                    }
                    if self.row_won(r) {
                        assert forall|k: int|
                            0 <= k < 5 implies (#[trigger] old(self).cell(r, k)).color
                            == Color::Green by {
                            assert(self.cell(r, k).color == Color::Green);
                        }
                    }
                }
            }
        }
    }

    /// Submits the cursor row against `solution`: scores its five letters
    /// and advances the cursor to the next row.  Silently ignored when the
    /// game is over or the row is not full.  The outcome afterwards is Won
    /// exactly when the lowercased row equals the solution, Lost when the
    /// sixth row was submitted without a win.
    pub fn send_word(&mut self, solution: &str)
        requires
            old(self).wf(),
            solution@.len() == 5,
        ensures
            final(self).wf(),
            !(old(self).spec_outcome() == Outcome::InProgress && old(self).cursor_col() == 5)
                ==> *final(self) == *old(self),
            (old(self).spec_outcome() == Outcome::InProgress && old(self).cursor_col() == 5) ==> {
                let row = old(self).cursor_row();
                let w = lower_seq(old(self).row_word(row));
                &&& final(self).cursor_row() == row + 1
                &&& final(self).cursor_col() == 0
                &&& (forall|k: int|
                    0 <= k < 5 ==> #[trigger] final(self).cell(row, k) == (WordleBox {
                        letter: Some(w[k]),
                        color: verdict_at(w, solution@, k),
                    }))
                &&& (forall|r: int, k: int|
                    0 <= r < 6 && 0 <= k < 5 && r != row ==> #[trigger] final(self).cell(r, k)
                        == old(self).cell(r, k))
                &&& final(self).spec_outcome() == (if w =~= solution@ {
                    Outcome::Won
                } else if row == 5 {
                    Outcome::Lost
                } else {
                    Outcome::InProgress
                })
            },
    {
        let o = self.outcome();
        if o == Outcome::InProgress && self.first_free.1 == 5 {
            let row = self.first_free.0;
            proof {
                assert(forall|k: int|
                    0 <= k < 5 ==> (#[trigger] self.grid[row as int][k]) == self.cell(
                        row as int,
                        k,
                    ));
            }
            let input = WordleBox::to_string(self.grid[row]);
            proof {
                assert(input@ =~= old(self).row_word(row as int));
            }
            let scored = match check_word(input.as_str(), solution) {
                Ok(boxes) => boxes,
                Err(_) => {
                    proof {
                        assert(false);
                    }
                    [WordleBox { letter: None, color: Color::Blank }; 5]
                },
            };
            self.grid[row] = scored;
            self.first_free = (row + 1, 0);
            proof {
                let row_i = row as int;
                let w = lower_seq(old(self).row_word(row_i));
                assert(lower_seq(input@) =~= w);
                assert(forall|r: int, k: int|
                    0 <= r < 6 && 0 <= k < 5 && r != row_i ==> #[trigger] self.cell(r, k) == old(
                        self,
                    ).cell(r, k));
                assert(forall|k: int|
                    0 <= k < 5 ==> #[trigger] self.cell(row_i, k) == scored@[k]);
                assert(!old(self).spec_won());
                assert forall|r: int| 0 <= r < row_i implies !(#[trigger] self.row_won(r)) by {
                    assert(!old(self).row_won(r));
                    if self.row_won(r) {
                        assert forall|k: int|
                            0 <= k < 5 implies (#[trigger] old(self).cell(r, k)).color
                            == Color::Green by {
                            assert(self.cell(r, k).color == Color::Green);
                        }
                        assert(old(self).row_won(r));
                    }
                }
                if w =~= solution@ {
                    assert(forall|k: int|
                        0 <= k < 5 ==> (#[trigger] self.cell(row_i, k)).color == Color::Green);
                    assert(self.row_won(row_i));
                    assert(self.spec_won());
                } else {
                    let kd = choose|k: int| 0 <= k < 5 && w[k] != solution@[k];
                    assert(0 <= kd < 5 && w[kd] != solution@[kd]);
                    assert(self.cell(row_i, kd).color != Color::Green);
                    assert(!self.row_won(row_i));
                    assert(!self.spec_won());
                }
            }
        }
    }
}

impl Default for WordleGrid {
    /// The empty board with the cursor at the top left.
    fn default() -> (g: WordleGrid)
        ensures
            g.wf(),
            g.cursor_row() == 0,
            g.cursor_col() == 0,
            g.spec_outcome() == Outcome::InProgress,
            forall|r: int, c: int| 0 <= r < 6 && 0 <= c < 5 ==> #[trigger] g.cell(r, c)
                == empty_cell(),
    {
        let mut grid: [[WordleBox; 5]; 6] = [[WordleBox { letter: None, color: Color::Blank }; 5]; 6];
        let mut r: usize = 0;
        while r < 6
            invariant
                r <= 6,
                forall|i: int, k: int|
                    0 <= i < r as int && 0 <= k < 5 ==> (#[trigger] grid@[i]@[k]) == empty_cell(),
            decreases 6 - r,
        {
            let mut row_arr: [WordleBox; 5] = grid[r];
            let mut c: usize = 0;
            while c < 5
                invariant
                    c <= 5,
                    forall|k: int| 0 <= k < c as int ==> (#[trigger] row_arr@[k]) == empty_cell(),
                decreases 5 - c,
            {
                row_arr[c] = WordleBox { letter: None, color: Color::Blank };
                c = c + 1;
            }
            grid[r] = row_arr;
            r = r + 1;
        }
        let g = WordleGrid { grid, first_free: (0, 0) };
        proof {
            assert(forall|i: int, k: int|
                0 <= i < 6 && 0 <= k < 5 ==> #[trigger] g.cell(i, k) == empty_cell());
        }
        g
    }
}

/// Size parameters the renderer uses to lay the board out: the height of
/// one cell and the number of columns and rows.
pub struct Grid {
    pub cell_size: usize,
    pub cols: usize,
    pub rows: usize,
}

impl Default for Grid {
    /// One-character cells in the five-by-six layout of the board.
    fn default() -> (g: Grid)
        ensures
            g.cell_size == 1,
            g.cols == 5,
            g.rows == 6,
    {
        Grid { cell_size: 1, cols: 5, rows: 6 }
    }
}

} // verus!
