//! Best-effort recovery of a JSON object embedded in free-form text.
//!
//! A vision model answers with prose that should contain one JSON object.
//! The text between the first `{` and the last `}` (both inclusive) is
//! returned for parsing; with no `{` the cut starts at the text's start,
//! with no `}` it runs to the text's end, and if the cut would cross
//! itself the result is empty rather than an error.

use vstd::prelude::*;
use crate::text::to_chars;

verus! {

/// The first position at or after `i` holding a `{`.
pub open spec fn first_brace_from(s: Seq<char>, i: int) -> Option<int>
    decreases s.len() - i,
{
    if i >= s.len() {
        None
    } else if s[i] == '{' {
        Some(i)
    } else {
        first_brace_from(s, i + 1)
    }
}

/// The last position before `j` holding a `}`.
pub open spec fn last_brace_before(s: Seq<char>, j: int) -> Option<int>
    decreases j,
{
    if j <= 0 {
        None
    } else if s[j - 1] == '}' {
        Some(j - 1)
    } else {
        last_brace_before(s, j - 1)
    }
}

/// The cut holding the embedded object: from the first `{` (or the start)
/// to just past the last `}` (or the end); empty when the two cross.
pub open spec fn spec_json_span(s: Seq<char>) -> Seq<char> {
    let start = match first_brace_from(s, 0) {
        Some(i) => i,
        None => 0,
    };
    let end = match last_brace_before(s, s.len() as int) {
        Some(l) => l + 1,
        None => s.len() as int,
    };
    if start <= end {
        s.subrange(start, end)
    } else {
        Seq::empty()
    }
}

/// A found brace lies within the text.
proof fn lemma_first_brace_range(s: Seq<char>, i: int, j: int)
    requires
        0 <= i,
        first_brace_from(s, i) == Some(j),
    ensures
        i <= j < s.len(),
    decreases s.len() - i,
{
    if i < s.len() && s[i] != '{' {
        lemma_first_brace_range(s, i + 1, j);
    }
}

/// A found closing brace lies within the bound.
proof fn lemma_last_brace_range(s: Seq<char>, j: int, l: int)
    requires
        last_brace_before(s, j) == Some(l),
    ensures
        0 <= l < j,
    decreases j,
{
    if j > 0 && s[j - 1] != '}' {
        lemma_last_brace_range(s, j - 1, l);
    }
}

/// Position of the first `{` of the text, if any.
fn find_open(chars: &Vec<char>) -> (r: Option<usize>)
    ensures
        match r {
            Some(i) => first_brace_from(chars@, 0) == Some(i as int),
            None => first_brace_from(chars@, 0) is None,
        },
{
    let n = chars.len();
    let mut i: usize = 0;
    while i < n
        invariant
            i <= n,
            n == chars@.len(),
            first_brace_from(chars@, 0) == first_brace_from(chars@, i as int),
        decreases n - i,
    {
        if chars[i] == '{' {
            return Some(i);
        }
        i = i + 1;
    }
    None
}

/// Position of the last `}` of the text, if any.
fn find_close(chars: &Vec<char>) -> (r: Option<usize>)
    ensures
        match r {
            Some(l) => last_brace_before(chars@, chars@.len() as int) == Some(l as int),
            None => last_brace_before(chars@, chars@.len() as int) is None,
        },
{
    let n = chars.len();
    let mut j: usize = n;
    while j > 0
        invariant
            j <= n,
            n == chars@.len(),
            last_brace_before(chars@, n as int) == last_brace_before(chars@, j as int),
        decreases j,
    {
        if chars[j - 1] == '}' {
            return Some(j - 1);
        }
        j = j - 1;
    }
    None
}

/// Cut the text between its first `{` and its last `}`.
pub fn extract_json_object(s: &str) -> (r: String)
    ensures
        r@ == spec_json_span(s@),
{
    let chars = to_chars(s);
    let n = chars.len();

    let open = find_open(&chars);
    let close = find_close(&chars);
    proof {
        match first_brace_from(chars@, 0) {
            Some(i) => lemma_first_brace_range(chars@, 0, i),
            None => {},
        }
        match last_brace_before(chars@, n as int) {
            Some(l) => lemma_last_brace_range(chars@, n as int, l),
            None => {},
        }
        assert(chars@ == s@);
    }
    let start: usize = match open {
        Some(i) => i,
        None => 0,
    };
    let end: usize = match close {
        Some(l) => l + 1,
        None => n,
    };
    if start <= end {
        s.substring_char(start, end).to_owned()
    } else {
        let r = String::new();
        assert(r@ =~= spec_json_span(s@));
        r
    }
}

} // verus!
