//! Text helpers shared by the compilers.
use vstd::prelude::*;
use crate::text::{chars_of, push_char, push_text};

verus! {

/// `s` with every `c` replaced by `rep`.
pub open spec fn replace_char(s: Seq<char>, c: char, rep: Seq<char>) -> Seq<char>
    decreases s.len(),
{
    if s.len() == 0 {
        seq![]
    } else {
        replace_char(s.drop_last(), c, rep) + if s.last() == c { rep } else { seq![s.last()] }
    }
}

/// `data` made safe inside a literal delimited by `quote_char`: each
/// `escape_char` is doubled, then each `quote_char` is preceded by `escape_char`.
pub open spec fn escaped(data: Seq<char>, quote_char: char, escape_char: char) -> Seq<char> {
    replace_char(replace_char(data, escape_char, seq![escape_char, escape_char]), quote_char, seq![escape_char, quote_char])
}

/// Replaces every `c` of `s` by `rep`.
pub fn replace_all_char(s: &str, c: char, rep: &str) -> (r: String)
    ensures
        r@ == replace_char(s@, c, rep@),
{
    let v = chars_of(s);
    let mut r = String::new();
    let mut k: usize = 0;
    while k < v.len()
        invariant
            k <= v.len(),
            v@ == s@,
            r@ == replace_char(v@.subrange(0, k as int), c, rep@),
        decreases v.len() - k,
    {
        assert(v@.subrange(0, k + 1).drop_last() =~= v@.subrange(0, k as int));
        if v[k] == c {
            push_text(&mut r, rep);
        } else {
            push_char(&mut r, v[k]);
            assert(r@ =~= replace_char(v@.subrange(0, k + 1), c, rep@));
        }
        k = k + 1;
    }
    assert(v@.subrange(0, k as int) =~= s@);
    r
}

/// Escapes `data` for a literal delimited by `quote_char` with `escape_char` as
/// its escape character.
pub fn escape_quotes(data: &str, quote_char: char, escape_char: char) -> (r: String)
    ensures
        r@ == escaped(data@, quote_char, escape_char),
{
    let mut double_escape = String::new();
    push_char(&mut double_escape, escape_char);
    push_char(&mut double_escape, escape_char);
    let mut escaped_quote = String::new();
    push_char(&mut escaped_quote, escape_char);
    push_char(&mut escaped_quote, quote_char);
    assert(double_escape@ =~= seq![escape_char, escape_char]);
    assert(escaped_quote@ =~= seq![escape_char, quote_char]);
    let once = replace_all_char(data, escape_char, double_escape.as_str());
    replace_all_char(once.as_str(), quote_char, escaped_quote.as_str())
}

} // verus!
