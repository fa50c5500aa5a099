//! Small scanners shared by the markup and the stylesheet tokenisers.
//!
//! Each scanner has two forms: one that works on a character vector from a
//! position and returns where it stopped, used by the tokenisers, and one on a
//! `&str` that returns the text it read.
use vstd::prelude::*;
use crate::text::{chars_of, string_from};

verus! {

/// The white space that the scanners skip: space, tab, newline and carriage return.
pub open spec fn is_blank(c: char) -> bool {
    c == ' ' || c == '\t' || c == '\n' || c == '\r'
}

/// Where the run of blanks that starts at `i` ends.
pub open spec fn blank_end(s: Seq<char>, i: int) -> int
    decreases s.len() - i,
{
    if 0 <= i < s.len() && is_blank(s[i]) {
        blank_end(s, i + 1)
    } else {
        i
    }
}

/// Where the text that starts at `i` reaches one of `stops` (the length of `s` if never).
pub open spec fn until_end(s: Seq<char>, i: int, stops: Seq<char>) -> int
    decreases s.len() - i,
{
    if 0 <= i < s.len() && !stops.contains(s[i]) {
        until_end(s, i + 1, stops)
    } else {
        i
    }
}

/// Where a quoted string that starts at `i` closes: one past the second unescaped
/// `quote`, having seen `found` of them so far, with `escaped` telling whether the
/// previous character was an unescaped `escape`. `None` if the text ends first.
pub open spec fn string_close(s: Seq<char>, i: int, quote: char, escape: char, found: nat, escaped: bool) -> Option<int>
    decreases s.len() - i,
{
    if i < 0 || i >= s.len() {
        None
    } else {
        let c = s[i];
        let f = if c == quote && !escaped { found + 1 } else { found };
        if f >= 2 {
            Some(i + 1)
        } else {
            string_close(s, i + 1, quote, escape, f, c == escape && !escaped)
        }
    }
}

/// Where reading a quoted string from `i` stops: where it closes, or at the end of the text.
pub open spec fn string_end(s: Seq<char>, i: int, quote: char, escape: char) -> int {
    match string_close(s, i, quote, escape, 0, false) {
        Some(k) => k,
        None => s.len() as int,
    }
}

pub proof fn lemma_blank_end(s: Seq<char>, i: int)
    requires
        0 <= i <= s.len(),
    ensures
        i <= blank_end(s, i) <= s.len(),
        forall|k: int| i <= k < blank_end(s, i) ==> is_blank(#[trigger] s[k]),
        blank_end(s, i) < s.len() ==> !is_blank(s[blank_end(s, i)]),
    decreases s.len() - i,
{
    if i < s.len() && is_blank(s[i]) {
        lemma_blank_end(s, i + 1);
    }
}

pub proof fn lemma_until_end(s: Seq<char>, i: int, stops: Seq<char>)
    requires
        0 <= i <= s.len(),
    ensures
        i <= until_end(s, i, stops) <= s.len(),
        forall|k: int| i <= k < until_end(s, i, stops) ==> !stops.contains(#[trigger] s[k]),
        until_end(s, i, stops) < s.len() ==> stops.contains(s[until_end(s, i, stops)]),
    decreases s.len() - i,
{
    if i < s.len() && !stops.contains(s[i]) {
        lemma_until_end(s, i + 1, stops);
    }
}

pub proof fn lemma_string_close(s: Seq<char>, i: int, quote: char, escape: char, found: nat, escaped: bool)
    requires
        0 <= i,
    ensures
        string_close(s, i, quote, escape, found, escaped) matches Some(k) ==> i < k <= s.len(),
    decreases s.len() - i,
{
    if 0 <= i < s.len() {
        let c = s[i];
        let f = if c == quote && !escaped { found + 1 } else { found };
        if f < 2 {
            lemma_string_close(s, i + 1, quote, escape, f, c == escape && !escaped);
        }
    }
}

/// A string that starts with its quote closes at least two characters further on.
pub proof fn lemma_string_close_from_quote(s: Seq<char>, i: int, escape: char)
    requires
        0 <= i < s.len(),
    ensures
        string_close(s, i, s[i], escape, 0, false) matches Some(k) ==> i + 2 <= k <= s.len(),
{
    lemma_string_close(s, i + 1, s[i], escape, 1, s[i] == escape);
}

pub proof fn lemma_string_end(s: Seq<char>, i: int, quote: char, escape: char)
    requires
        0 <= i < s.len(),
    ensures
        i < string_end(s, i, quote, escape) <= s.len(),
{
    lemma_string_close(s, i, quote, escape, 0, false);
}

/// Where the blanks from `i` end.
pub fn blank_end_at(v: &Vec<char>, i: usize) -> (r: usize)
    requires
        i <= v.len(),
    ensures
        r == blank_end(v@, i as int),
        i <= r <= v.len(),
{
    proof { lemma_blank_end(v@, i as int); }
    let mut j = i;
    while j < v.len() && (v[j] == ' ' || v[j] == '\t' || v[j] == '\n' || v[j] == '\r')
        invariant
            i <= j <= v.len(),
            blank_end(v@, i as int) == blank_end(v@, j as int),
        decreases v.len() - j,
    {
        j = j + 1;
    }
    j
}

/// Where the text from `i` reaches one of `stops`.
pub fn until_end_at(v: &Vec<char>, i: usize, stops: &Vec<char>) -> (r: usize)
    requires
        i <= v.len(),
    ensures
        r == until_end(v@, i as int, stops@),
        i <= r <= v.len(),
{
    proof { lemma_until_end(v@, i as int, stops@); }
    let mut j = i;
    while j < v.len() && !contains_char(stops, v[j])
        invariant
            i <= j <= v.len(),
            until_end(v@, i as int, stops@) == until_end(v@, j as int, stops@),
        decreases v.len() - j,
    {
        j = j + 1;
    }
    j
}

/// Whether `c` is one of `cs`.
pub fn contains_char(cs: &Vec<char>, c: char) -> (r: bool)
    ensures
        r == cs@.contains(c),
{
    let mut k: usize = 0;
    while k < cs.len()
        invariant
            k <= cs.len(),
            forall|m: int| 0 <= m < k ==> cs@[m] != c,
        decreases cs.len() - k,
    {
        if cs[k] == c {
            return true;
        }
        k = k + 1;
    }
    false
}

/// Where a quoted string read from `i` stops.
pub fn string_end_at(v: &Vec<char>, i: usize, quote: char, escape: char) -> (r: usize)
    requires
        i <= v.len(),
    ensures
        r == string_end(v@, i as int, quote, escape),
        i <= r <= v.len(),
{
    match string_close_at(v, i, quote, escape) {
        Some(k) => k,
        None => v.len(),
    }
}

/// Where a quoted string that starts at `i` closes, if it does.
pub fn string_close_at(v: &Vec<char>, i: usize, quote: char, escape: char) -> (r: Option<usize>)
    requires
        i <= v.len(),
    ensures
        r matches Some(k) ==> string_close(v@, i as int, quote, escape, 0, false) == Some(k as int),
        r is None ==> string_close(v@, i as int, quote, escape, 0, false) is None,
        r matches Some(k) ==> i < k <= v.len(),
{
    proof { lemma_string_close(v@, i as int, quote, escape, 0, false); }
    let mut j = i;
    let mut found: u8 = 0;
    let mut escaped = false;
    while j < v.len()
        invariant
            i <= j <= v.len(),
            found < 2,
            string_close(v@, i as int, quote, escape, 0, false)
                == string_close(v@, j as int, quote, escape, found as nat, escaped),
        decreases v.len() - j,
    {
        let c = v[j];
        if c == quote && !escaped {
            found = found + 1;
        }
        if found >= 2 {
            return Some(j + 1);
        }
        escaped = c == escape && !escaped;
        j = j + 1;
    }
    None
}

/// The character at position `idx` of `data`.
pub fn get_char_unwrap(data: &str, idx: usize) -> (r: char)
    requires
        idx < data@.len(),
    ensures
        r == data@[idx as int],
{
    let v = chars_of(data);
    v[idx]
}

/// Reads a quoted string from the start of `data`, quotes included: up to and
/// including the second `quote_char` not preceded by an unescaped `escape_char`,
/// or to the end of `data` if there is none.
pub fn read_string(quote_char: char, escape_char: char, data: &str) -> (r: String)
    ensures
        r@ == data@.subrange(0, string_end(data@, 0, quote_char, escape_char)),
{
    let v = chars_of(data);
    let k = string_end_at(&v, 0, quote_char, escape_char);
    string_from(&v, 0, k)
}

/// Reads the spaces, tabs, newlines and carriage returns at the start of `data`.
pub fn read_whitespace(data: &str) -> (r: String)
    ensures
        r@ == data@.subrange(0, blank_end(data@, 0)),
{
    let v = chars_of(data);
    let k = blank_end_at(&v, 0);
    string_from(&v, 0, k)
}

/// Reads `data` up to (not including) the first `c`; the flag tells whether `c` was found.
pub fn read_until_char(data: &str, c: char) -> (r: (String, bool))
    ensures
        r.0@ == data@.subrange(0, until_end(data@, 0, seq![c])),
        r.1 == (until_end(data@, 0, seq![c]) < data@.len()),
{
    let stops = vec![c];
    assert(stops@ =~= seq![c]);
    let (s, found) = read_until_any_of(data, &stops);
    (s, found.is_some())
}

/// Reads `data` up to (not including) the first character that is one of `chars`,
/// and returns that character too (`None` if the text ends first).
pub fn read_until_any_of(data: &str, chars: &Vec<char>) -> (r: (String, Option<char>))
    ensures
        r.0@ == data@.subrange(0, until_end(data@, 0, chars@)),
        r.1 == (if until_end(data@, 0, chars@) < data@.len() {
            Some(data@[until_end(data@, 0, chars@)])
        } else {
            None
        }),
{
    let v = chars_of(data);
    let k = until_end_at(&v, 0, chars);
    let s = string_from(&v, 0, k);
    if k < v.len() {
        (s, Some(v[k]))
    } else {
        (s, None)
    }
}

} // verus!
