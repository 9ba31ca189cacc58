//! Extraction of the daily solution from the word source's payload.
//!
//! The payload is treated as comma-separated text.  The solution is the
//! five characters that follow the opening quote after the first colon of
//! the first comma-separated segment holding the text `solution`.  A
//! payload without that shape is malformed.

use vstd::prelude::*;
use vstd::string::StrSliceExecFns;

use crate::cell::push_char;

verus! {

/// Error of the payload reader.
#[derive(Clone, Copy, Debug, PartialEq, Eq, Structural)]
pub enum FetchError {
    /// The payload does not hold a solution in the expected shape.
    MalformedPayload,
}

/// The text that marks the solution's segment.
pub open spec fn solution_key() -> Seq<char> {
    seq!['s', 'o', 'l', 'u', 't', 'i', 'o', 'n']
}

/// The pattern stands at position `i` of `s`.
pub open spec fn match_at(s: Seq<char>, pat: Seq<char>, i: int) -> bool {
    0 <= i && i + pat.len() <= s.len() && s.subrange(i, i + pat.len()) == pat
}

/// The first position at or after `from` where the pattern stands, if
/// any.
pub open spec fn first_match_from(s: Seq<char>, pat: Seq<char>, from: int) -> Option<int>
    decreases s.len() - from,
{
    if from + pat.len() > s.len() {
        None
    } else if match_at(s, pat, from) {
        Some(from)
    } else if from >= s.len() {
        None
    } else {
        first_match_from(s, pat, from + 1)
    }
}

/// The first position at or after `from` holding `c`, if any.
pub open spec fn first_char_from(s: Seq<char>, c: char, from: int) -> Option<int>
    decreases s.len() - from,
{
    if from >= s.len() {
        None
    } else if s[from] == c {
        Some(from)
    } else {
        first_char_from(s, c, from + 1)
    }
}

/// The last position strictly before `end` holding `c`, if any.
pub open spec fn last_char_before(s: Seq<char>, c: char, end: int) -> Option<int>
    decreases end,
{
    if end <= 0 {
        None
    } else if s[end - 1] == c {
        Some(end - 1)
    } else {
        last_char_before(s, c, end - 1)
    }
}

/// Where the solution stands in the payload, if anywhere: the segment
/// around the first occurrence of the key runs from just after the
/// previous comma to the next comma; the solution is the five characters
/// after the opening quote that follows the segment's first colon.
pub open spec fn spec_extract(s: Seq<char>) -> Option<Seq<char>> {
    match first_match_from(s, solution_key(), 0) {
        None => None,
        Some(p) => {
            let a = match last_char_before(s, ',', p) {
                None => 0,
                Some(i) => i + 1,
            };
            let b = match first_char_from(s, ',', p + solution_key().len() as int) {
                None => s.len() as int,
                Some(i) => i,
            };
            match first_char_from(s, ':', a) {
                None => None,
                Some(q) => if q < b && q + 7 <= b {
                    Some(s.subrange(q + 2, q + 7))
                } else {
                    None
                },
            }
        },
    }
}

/// A found pattern stands where the search says.
proof fn lemma_first_match_some(s: Seq<char>, pat: Seq<char>, from: int, i: int)
    requires
        first_match_from(s, pat, from) == Some(i),
    ensures
        match_at(s, pat, i),
        from <= i,
    decreases s.len() - from,
{
    if from + pat.len() > s.len() {
    } else if match_at(s, pat, from) {
    } else if from >= s.len() {
    } else {
        lemma_first_match_some(s, pat, from + 1, i);
    }
}

/// A found character stands where the search says.
proof fn lemma_first_char_some(s: Seq<char>, c: char, from: int, i: int)
    requires
        first_char_from(s, c, from) == Some(i),
    ensures
        from <= i < s.len(),
        s[i] == c,
    decreases s.len() - from,
{
    if from >= s.len() {
    } else if s[from] == c {
    } else {
        lemma_first_char_some(s, c, from + 1, i);
    }
}

/// A found character stands before the end of the backward search.
proof fn lemma_last_char_some(s: Seq<char>, c: char, end: int, i: int)
    requires
        last_char_before(s, c, end) == Some(i),
    ensures
        0 <= i < end,
        s[i] == c,
    decreases end,
{
    if end <= 0 {
    } else if s[end - 1] == c {
    } else {
        lemma_last_char_some(s, c, end - 1, i);
    }
}

/// The characters of `s`, in order.
fn str_to_chars(s: &str) -> (v: Vec<char>)
    ensures
        v@ == s@,
{
    let n = s.unicode_len();
    let mut v: Vec<char> = Vec::new();
    let mut i: usize = 0;
    while i < n
        invariant
            n == s@.len(),
            i <= n,
            v@.len() == i as int,
            forall|k: int| 0 <= k < i as int ==> v@[k] == s@[k],
        decreases n - i,
    {
        v.push(s.get_char(i));
        i = i + 1;
    }
    proof {
        assert(v@ =~= s@);
    }
    v
}

/// True when the pattern stands at position `i`.
fn match_at_exec(s: &Vec<char>, pat: &Vec<char>, i: usize) -> (b: bool)
    requires
        i + pat@.len() <= s@.len(),
    ensures
        b == match_at(s@, pat@, i as int),
{
    let n = s.len();
    let m = pat.len();
    let mut j: usize = 0;
    while j < m
        invariant
            n == s@.len(),
            m == pat@.len(),
            i + m <= s@.len(),
            j <= m,
            forall|k: int| 0 <= k < j as int ==> s@[i as int + k] == pat@[k],
        decreases m - j,
    {
        if s[i + j] != pat[j] {
            proof {
                if match_at(s@, pat@, i as int) {
                    assert(s@.subrange(i as int, i as int + pat@.len())[j as int] == pat@[
                        j as int
                    ]);
                }
            }
            return false;
        }
        j = j + 1;
    }
    proof {
        assert(s@.subrange(i as int, i as int + pat@.len()) =~= pat@);
    }
    true
}

/// The first position where the pattern stands, if any.
fn find_pattern(s: &Vec<char>, pat: &Vec<char>) -> (r: Option<usize>)
    requires
        pat@.len() >= 1,
    ensures
        r is Some <==> first_match_from(s@, pat@, 0) is Some,
        r matches Some(i) ==> first_match_from(s@, pat@, 0) == Some(i as int),
{
    let n = s.len();
    let m = pat.len();
    if m > n {
        return None;
    }
    let mut f: usize = 0;
    while f <= n - m
        invariant
            m == pat@.len(),
            n == s@.len(),
            1 <= m <= n,
            f <= n,
            first_match_from(s@, pat@, 0) == first_match_from(s@, pat@, f as int),
        decreases n - f,
    {
        if match_at_exec(s, pat, f) {
            return Some(f);
        }
        f = f + 1;
    }
    None
}

/// The first position at or after `from` holding `c`, if any.
fn find_char_from(s: &Vec<char>, c: char, from: usize) -> (r: Option<usize>)
    ensures
        r is Some <==> first_char_from(s@, c, from as int) is Some,
        r matches Some(i) ==> first_char_from(s@, c, from as int) == Some(i as int),
{
    let n = s.len();
    let mut f: usize = from;
    while f < n
        invariant
            n == s@.len(),
            first_char_from(s@, c, from as int) == first_char_from(s@, c, f as int),
        decreases n - f,
    {
        if s[f] == c {
            return Some(f);
        }
        f = f + 1;
    }
    None
}

/// The last position strictly before `end` holding `c`, if any.
fn find_last_before(s: &Vec<char>, c: char, end: usize) -> (r: Option<usize>)
    requires
        end <= s@.len(),
    ensures
        r is Some <==> last_char_before(s@, c, end as int) is Some,
        r matches Some(i) ==> last_char_before(s@, c, end as int) == Some(i as int),
{
    let mut e: usize = end;
    while e > 0
        invariant
            e <= end,
            end <= s@.len(),
            last_char_before(s@, c, end as int) == last_char_before(s@, c, e as int),
        decreases e,
    {
        if s[e - 1] == c {
            return Some(e - 1);
        }
        e = e - 1;
    }
    None
}

/// Reads the daily solution out of the payload, exactly as
/// `spec_extract` places it; any payload in which it finds no
/// well-shaped solution is malformed.
pub fn extract_solution(payload: &str) -> (r: Result<String, FetchError>)
    ensures
        r is Ok <==> spec_extract(payload@) is Some,
        r matches Ok(w) ==> Some(w@) == spec_extract(payload@),
        r matches Err(e) ==> e == FetchError::MalformedPayload,
{
    let s = str_to_chars(payload);
    let mut key: Vec<char> = Vec::new();
    key.push('s');
    key.push('o');
    key.push('l');
    key.push('u');
    key.push('t');
    key.push('i');
    key.push('o');
    key.push('n');
    proof {
        assert(key@ =~= solution_key());
    }
    let p = match find_pattern(&s, &key) {
        Some(p) => p,
        None => {
            return Err(FetchError::MalformedPayload);
        },
    };
    proof {
        lemma_first_match_some(s@, key@, 0, p as int);
    }
    let a: usize = match find_last_before(&s, ',', p) {
        Some(i) => {
            proof {
                lemma_last_char_some(s@, ',', p as int, i as int);
            }
            i + 1
        },
        None => 0,
    };
    let b: usize = match find_char_from(&s, ',', p + 8) {
        Some(i) => {
            proof {
                lemma_first_char_some(s@, ',', p as int + 8, i as int);
            }
            i
        },
        None => s.len(),
    };
    let q = match find_char_from(&s, ':', a) {
        Some(q) => {
            proof {
                lemma_first_char_some(s@, ':', a as int, q as int);
            }
            q
        },
        None => {
            return Err(FetchError::MalformedPayload);
        },
    };
    if !(q < b && b - q >= 7) {
        return Err(FetchError::MalformedPayload);
    }
    let stop = q + 7;
    let mut w = String::new();
    let mut i: usize = q + 2;
    while i < stop
        invariant
            q as int + 7 == stop as int,
            stop <= s@.len(),
            q + 2 <= i <= stop,
            w@.len() == i as int - (q as int + 2),
            forall|k: int| q as int + 2 <= k < i as int ==> w@[k - (q as int + 2)] == s@[k],
        decreases stop - i,
    {
        push_char(&mut w, s[i]);
        i = i + 1;
    }
    proof {
        assert(w@ =~= s@.subrange(q as int + 2, q as int + 7));
    }
    Ok(w)
}

} // verus!
