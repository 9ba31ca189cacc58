//! One cell of the board: an optional letter together with its verdict.

use vstd::prelude::*;

use crate::score::Color;

verus! {

/// A board position.  `letter` is absent while the cell is unused;
/// `color` is Blank until the cell's row has been submitted and scored.
#[derive(Clone, Copy, Debug, PartialEq)]
pub struct WordleBox {
    pub letter: Option<char>,
    pub color: Color,
}

impl Default for WordleBox {
    /// The unused cell: no letter, Blank verdict.
    fn default() -> (b: WordleBox)
        ensures
            b.letter is None,
            b.color == Color::Blank,
    {
        WordleBox { letter: None, color: Color::Blank }
    }
}

impl WordleBox {
    /// A cell holding the given letter and verdict.
    pub fn new(c: Option<char>, color: Color) -> (b: WordleBox)
        ensures
            b.letter == c,
            b.color == color,
    {
        WordleBox { letter: c, color }
    }

    /// The five letters of a full row, in order, as a string.
    pub fn to_string(wboxes: [WordleBox; 5]) -> (s: String)
        requires
            forall|i: int| 0 <= i < 5 ==> (#[trigger] wboxes@[i]).letter is Some,
        ensures
            s@.len() == 5,
            forall|i: int| 0 <= i < 5 ==> s@[i] == (#[trigger] wboxes@[i]).letter->0,
    {
        let mut s = String::new();
        let mut i: usize = 0;
        while i < 5
            invariant
                forall|k: int| 0 <= k < 5 ==> (#[trigger] wboxes@[k]).letter is Some,
                i <= 5,
                s@.len() == i as int,
                forall|k: int| 0 <= k < i as int ==> s@[k] == (#[trigger] wboxes@[k]).letter->0,
            decreases 5 - i,
        {
            let b = wboxes[i];
            push_char(&mut s, b.letter.unwrap());
            i = i + 1;
        }
        s
    }
}

/// Relies on `String::push`: appends the given character to the end of
/// the string.
#[verifier::external_body]
pub(crate) fn push_char(s: &mut String, c: char)
    ensures
        final(s)@ == old(s)@.push(c),
{
    s.push(c)
}

} // verus!
