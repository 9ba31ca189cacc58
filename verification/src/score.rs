//! Letter scoring for the word-guessing game.
//!
//! A guess is compared to the solution letter by letter, in two passes.
//! Pass one marks every in-place match Green and sets the matched solution
//! letter aside.  Pass two walks the remaining positions left to right and
//! marks a letter Yellow only while the solution still has occurrences of
//! it that pass one did not set aside and that no earlier Yellow has used;
//! everything else is Gray.  `verdict_at` states the result of the two
//! passes in closed form, position by position.

use vstd::prelude::*;
use vstd::string::StrSliceExecFns;

use crate::cell::WordleBox;

verus! {

/// Verdict for one cell of the board: Green for a letter in the right
/// spot, Yellow for a letter the solution has elsewhere, Gray for a letter
/// the solution has run out of, Blank for a cell whose row has not been
/// scored yet.
#[derive(Clone, Copy, Debug, PartialEq, Eq, Structural)]
pub enum Color {
    Green,
    Yellow,
    Gray,
    Blank,
}

impl Default for Color {
    /// The verdict of an unscored cell.
    fn default() -> (c: Self)
        ensures
            c == Color::Blank,
    {
        Color::Blank
    }
}

/// Error of the scoring engine.
#[derive(Clone, Copy, Debug, PartialEq, Eq, Structural)]
pub enum ScoreError {
    /// The guess or the solution is not exactly five characters long.
    LengthMismatch,
}

/// The lowercase form of an ASCII letter; any other character is
/// unchanged.
pub open spec fn lower_char(c: char) -> char {
    if 65 <= c as u32 && c as u32 <= 90 {
        ((c as u32 + 32) as char)
    } else {
        c
    }
}

/// `s` with every ASCII letter lowercased.
pub open spec fn lower_seq(s: Seq<char>) -> Seq<char> {
    Seq::new(s.len(), |i: int| lower_char(s[i]))
}

/// An ASCII letter of either case.
pub open spec fn is_ascii_letter(c: char) -> bool {
    (97 <= c as u32 && c as u32 <= 122) || (65 <= c as u32 && c as u32 <= 90)
}

/// Exec counterpart of `lower_char`.
pub fn to_lowercase_char(c: char) -> (r: char)
    ensures
        r == lower_char(c),
{
    let u = c as u32;
    if 65 <= u && u <= 90 {
        ((c as u8) + 32) as char
    } else {
        c
    }
}

/// Exec counterpart of `is_ascii_letter`.
pub fn is_letter(c: char) -> (r: bool)
    ensures
        r == is_ascii_letter(c),
{
    let u = c as u32;
    (97 <= u && u <= 122) || (65 <= u && u <= 90)
}

/// How many of the first `n` solution positions hold `c` without an
/// in-place match: the occurrences of `c` that pass one leaves for pass
/// two to hand out as Yellow.
pub open spec fn avail_count(g: Seq<char>, s: Seq<char>, c: char, n: int) -> nat
    decreases n,
{
    if n <= 0 {
        0
    } else {
        avail_count(g, s, c, n - 1) + (if s[n - 1] == c && g[n - 1] != s[n - 1] {
            1nat
        } else {
            0nat
        })
    }
}

/// How many of the first `n` guess positions hold `c` without an in-place
/// match: the copies of `c` that compete for the solution's available
/// occurrences, in order.
pub open spec fn unmatched_count(g: Seq<char>, s: Seq<char>, c: char, n: int) -> nat
    decreases n,
{
    if n <= 0 {
        0
    } else {
        unmatched_count(g, s, c, n - 1) + (if g[n - 1] == c && g[n - 1] != s[n - 1] {
            1nat
        } else {
            0nat
        })
    }
}

/// How many of the first `n` characters of `s` are `c`.
pub open spec fn occurrences(s: Seq<char>, c: char, n: int) -> nat
    decreases n,
{
    if n <= 0 {
        0
    } else {
        occurrences(s, c, n - 1) + (if s[n - 1] == c {
            1nat
        } else {
            0nat
        })
    }
}

/// The verdict of the two-pass scoring at position `i`: Green on an
/// in-place match; otherwise Yellow while the earlier unmatched copies of
/// the letter in the guess have not used up the solution's unmatched
/// occurrences of it; otherwise Gray.
pub open spec fn verdict_at(g: Seq<char>, s: Seq<char>, i: int) -> Color {
    if g[i] == s[i] {
        Color::Green
    } else if unmatched_count(g, s, g[i], i) < avail_count(g, s, g[i], s.len() as int) {
        Color::Yellow
    } else {
        Color::Gray
    }
}

/// The verdicts of one position of the scored guess, computed by counting
/// instead of by marking: equivalent to consuming matched occurrences one
/// by one, since each Yellow position is exactly one whose rank among the
/// unmatched copies of its letter is below the number available.
fn score_letters(guess: &Vec<char>, solution: &Vec<char>) -> (v: Vec<Color>)
    requires
        guess@.len() == 5,
        solution@.len() == 5,
    ensures
        v@.len() == 5,
        forall|i: int| 0 <= i < 5 ==> v@[i] == verdict_at(guess@, solution@, i),
{
    let mut v: Vec<Color> = Vec::new();
    let mut i: usize = 0;
    while i < 5
        invariant
            guess@.len() == 5,
            solution@.len() == 5,
            i <= 5,
            v@.len() == i as int,
            forall|k: int| 0 <= k < i as int ==> v@[k] == verdict_at(guess@, solution@, k),
        decreases 5 - i,
    {
        let gi = guess[i];
        let verdict: Color;
        if gi == solution[i] {
            verdict = Color::Green;
        } else {
            let mut avail: usize = 0;
            let mut j: usize = 0;
            while j < 5
                invariant
                    guess@.len() == 5,
                    solution@.len() == 5,
                    j <= 5,
                    avail <= j,
                    avail as nat == avail_count(guess@, solution@, gi, j as int),
                decreases 5 - j,
            {
                if solution[j] == gi && guess[j] != solution[j] {
                    avail = avail + 1;
                }
                j = j + 1;
            }
            let mut rank: usize = 0;
            let mut k: usize = 0;
            while k < i
                invariant
                    guess@.len() == 5,
                    solution@.len() == 5,
                    i <= 5,
                    k <= i,
                    rank <= k,
                    rank as nat == unmatched_count(guess@, solution@, gi, k as int),
                decreases i - k,
            {
                if guess[k] == gi && guess[k] != solution[k] {
                    rank = rank + 1;
                }
                k = k + 1;
            }
            if rank < avail {
                verdict = Color::Yellow;
            } else {
                verdict = Color::Gray;
            }
        }
        v.push(verdict);
        i = i + 1;
    }
    v
}

/// Scores a guess against the solution.
///
/// The guess is lowercased first; the solution is compared as given.  Both
/// arguments must be exactly five characters, otherwise `LengthMismatch`
/// comes back.  On success, cell `i` carries the lowercased guess letter
/// `i` and its two-pass verdict, which is never Blank.
pub fn check_word(input: &str, word: &str) -> (r: Result<[WordleBox; 5], ScoreError>)
    ensures
        r is Ok <==> (input@.len() == 5 && word@.len() == 5),
        r matches Err(e) ==> e == ScoreError::LengthMismatch,
        r matches Ok(boxes) ==> {
            &&& forall|i: int| 0 <= i < 5 ==> (#[trigger] boxes@[i]).letter == Some(
                lower_char(input@[i]),
            )
            &&& forall|i: int| 0 <= i < 5 ==> (#[trigger] boxes@[i]).color == verdict_at(
                lower_seq(input@),
                word@,
                i,
            )
            &&& forall|i: int|
                0 <= i < 5 ==> ((#[trigger] boxes@[i]).color == Color::Green || boxes@[i].color
                    == Color::Yellow || boxes@[i].color == Color::Gray)
        },
{
    if input.unicode_len() != 5 || word.unicode_len() != 5 {
        return Err(ScoreError::LengthMismatch);
    }
    let mut guess: Vec<char> = Vec::new();
    let mut i: usize = 0;
    while i < 5
        invariant
            input@.len() == 5,
            i <= 5,
            guess@.len() == i as int,
            forall|k: int| 0 <= k < i as int ==> guess@[k] == lower_char(input@[k]),
        decreases 5 - i,
    {
        guess.push(to_lowercase_char(input.get_char(i)));
        i = i + 1;
    }
    let mut sol: Vec<char> = Vec::new();
    let mut j: usize = 0;
    while j < 5
        invariant
            word@.len() == 5,
            j <= 5,
            sol@.len() == j as int,
            forall|k: int| 0 <= k < j as int ==> sol@[k] == word@[k],
        decreases 5 - j,
    {
        sol.push(word.get_char(j));
        j = j + 1;
    }
    proof {
        assert(guess@ =~= lower_seq(input@));
        assert(sol@ =~= word@);
    }
    let verdicts = score_letters(&guess, &sol);
    let boxes: [WordleBox; 5] = [
        WordleBox::new(Some(guess[0]), verdicts[0]),
        WordleBox::new(Some(guess[1]), verdicts[1]),
        WordleBox::new(Some(guess[2]), verdicts[2]),
        WordleBox::new(Some(guess[3]), verdicts[3]),
        WordleBox::new(Some(guess[4]), verdicts[4]),
    ];
    Ok(boxes)
}

/// Law: a guess identical to the solution scores Green at every position.
pub proof fn lemma_score_self(s: Seq<char>)
    ensures
        forall|i: int| 0 <= i < s.len() ==> verdict_at(s, s, i) == Color::Green,
{
}

/// How many of the first `n` guess positions hold `c` and score Green or
/// Yellow.
pub open spec fn awarded_count(g: Seq<char>, s: Seq<char>, c: char, n: int) -> nat
    decreases n,
{
    if n <= 0 {
        0
    } else {
        awarded_count(g, s, c, n - 1) + (if g[n - 1] == c && verdict_at(g, s, n - 1)
            != Color::Gray {
            1nat
        } else {
            0nat
        })
    }
}

/// How many of the first `n` guess positions hold `c` and score Green.
spec fn green_count(g: Seq<char>, s: Seq<char>, c: char, n: int) -> nat
    decreases n,
{
    if n <= 0 {
        0
    } else {
        green_count(g, s, c, n - 1) + (if g[n - 1] == c && g[n - 1] == s[n - 1] {
            1nat
        } else {
            0nat
        })
    }
}

/// The occurrences of `c` in the solution split into those pass one
/// matches in place and those left available for Yellow.
proof fn lemma_occurrence_split(g: Seq<char>, s: Seq<char>, c: char, n: int)
    requires
        n <= s.len(),
        g.len() == s.len(),
    ensures
        occurrences(s, c, n) == avail_count(g, s, c, n) + green_count(g, s, c, n),
    decreases n,
{
    if n > 0 {
        lemma_occurrence_split(g, s, c, n - 1);
    }
}

/// Among the first `n` positions, the Green and Yellow verdicts for `c`
/// number exactly the Greens plus however many of the unmatched copies of
/// `c` fit under the availability bound.
proof fn lemma_awarded_split(g: Seq<char>, s: Seq<char>, c: char, n: int)
    requires
        n <= g.len(),
        g.len() == s.len(),
    ensures
        awarded_count(g, s, c, n) == green_count(g, s, c, n) + (if unmatched_count(g, s, c, n)
            < avail_count(g, s, c, g.len() as int) {
            unmatched_count(g, s, c, n)
        } else {
            avail_count(g, s, c, g.len() as int)
        }),
    decreases n,
{
    if n > 0 {
        lemma_awarded_split(g, s, c, n - 1);
    }
}

/// Law: a letter is awarded Green or Yellow at most as often as it occurs
/// in the solution, however often the guess repeats it.
pub proof fn lemma_letter_budget(g: Seq<char>, s: Seq<char>, c: char)
    requires
        g.len() == s.len(),
    ensures
        awarded_count(g, s, c, g.len() as int) <= occurrences(s, c, s.len() as int),
{
    lemma_occurrence_split(g, s, c, s.len() as int);
    lemma_awarded_split(g, s, c, g.len() as int);
}

} // verus!
