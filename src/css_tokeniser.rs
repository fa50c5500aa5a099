//! Tokeniser for scoped stylesheets: flat rule blocks of comma-separated
//! selectors and `name: value;` properties.
use vstd::prelude::*;
use crate::errs::CssSyntaxError;
use crate::text::{chars_of, string_from, trim_bounds, trimmed};
use crate::tokeniser_utils::{blank_end, blank_end_at, lemma_blank_end, lemma_until_end, until_end, until_end_at};

verus! {

/// A token of a stylesheet.
#[derive(Debug)]
pub enum CssToken {
    Comment(String),
    Selector(String),
    Comma,
    BlockStart,
    BlockEnd,
    PropertyName(String),
    Colon,
    PropertyValue(String),
    Semicolon,
}

/// What a stylesheet token holds.
pub enum CssModel {
    Comment(Seq<char>),
    Selector(Seq<char>),
    Comma,
    BlockStart,
    BlockEnd,
    PropertyName(Seq<char>),
    Colon,
    PropertyValue(Seq<char>),
    Semicolon,
}

impl View for CssToken {
    type V = CssModel;

    open spec fn view(&self) -> CssModel {
        match self {
            CssToken::Comment(t) => CssModel::Comment(t@),
            CssToken::Selector(t) => CssModel::Selector(t@),
            CssToken::Comma => CssModel::Comma,
            CssToken::BlockStart => CssModel::BlockStart,
            CssToken::BlockEnd => CssModel::BlockEnd,
            CssToken::PropertyName(t) => CssModel::PropertyName(t@),
            CssToken::Colon => CssModel::Colon,
            CssToken::PropertyValue(t) => CssModel::PropertyValue(t@),
            CssToken::Semicolon => CssModel::Semicolon,
        }
    }
}

/// What a list of stylesheet tokens holds.
pub open spec fn css_view(t: Seq<CssToken>) -> Seq<CssModel> {
    t.map_values(|x: CssToken| x@)
}

/// The selectors from `i` up to and including the `{` that opens the block, and
/// where they end: each trimmed, non-empty run between commas is a selector.
/// `None` if the text ends before the `{`.
pub open spec fn selectors_from(s: Seq<char>, i: int) -> Option<(Seq<CssModel>, int)>
    decreases s.len() - i,
{
    if i < 0 || i >= s.len() {
        Some((seq![], i))
    } else {
        let e = until_end(s, i, seq![',', '{']);
        if e < i || e >= s.len() {
            None
        } else {
            let sel = trimmed(s.subrange(i, e));
            let head = if sel.len() > 0 { seq![CssModel::Selector(sel)] } else { seq![] };
            if s[e] == ',' {
                match selectors_from(s, e + 1) {
                    None => None,
                    Some((rest, k)) => Some((head + seq![CssModel::Comma] + rest, k)),
                }
            } else {
                Some((head + seq![CssModel::BlockStart], e + 1))
            }
        }
    }
}

/// The property at `i`: a name up to `:` and a value up to `;`, both trimmed,
/// and where it ends. `None` if the text ends before the `:` or the `;`.
pub open spec fn property_at(s: Seq<char>, i: int) -> Option<(Seq<CssModel>, int)> {
    let n = until_end(s, i, seq![':']);
    if n >= s.len() {
        None
    } else {
        let v = until_end(s, n + 1, seq![';']);
        if v >= s.len() {
            None
        } else {
            Some((
                seq![
                    CssModel::PropertyName(trimmed(s.subrange(i, n))),
                    CssModel::Colon,
                    CssModel::PropertyValue(trimmed(s.subrange(n + 1, v))),
                    CssModel::Semicolon,
                ],
                v + 1,
            ))
        }
    }
}

/// The properties from `i` up to and including the `}` that closes the block,
/// and where they end. `None` if a property is cut off, or the text ends in
/// white space.
pub open spec fn properties_from(s: Seq<char>, i: int) -> Option<(Seq<CssModel>, int)>
    decreases s.len() - i,
{
    if i < 0 || i >= s.len() {
        Some((seq![], i))
    } else {
        let j = blank_end(s, i);
        if j >= s.len() {
            None
        } else if s[j] == '}' {
            Some((seq![CssModel::BlockEnd], j + 1))
        } else {
            match property_at(s, j) {
                None => None,
                Some((t, k)) => if i < k <= s.len() {
                    match properties_from(s, k) {
                        None => None,
                        Some((rest, e)) => Some((t + rest, e)),
                    }
                } else {
                    None
                },
            }
        }
    }
}

/// The tokens of a stylesheet from `i` on: rule after rule, each its selectors then its properties.
pub open spec fn css_tokens_from(s: Seq<char>, i: int) -> Option<Seq<CssModel>>
    decreases s.len() - i,
{
    if i < 0 || i >= s.len() {
        Some(seq![])
    } else {
        match selectors_from(s, i) {
            None => None,
            Some((a, k)) => match properties_from(s, k) {
                None => None,
                Some((b, m)) => if i < m <= s.len() {
                    match css_tokens_from(s, m) {
                        None => None,
                        Some(rest) => Some(a + b + rest),
                    }
                } else {
                    None
                },
            },
        }
    }
}

/// The tokens of a stylesheet.
pub open spec fn css_tokens(s: Seq<char>) -> Option<Seq<CssModel>> {
    css_tokens_from(s, 0)
}

proof fn lemma_selectors_from(s: Seq<char>, i: int)
    requires
        0 <= i <= s.len(),
    ensures
        selectors_from(s, i) matches Some((t, k)) ==> i <= k <= s.len() && (i < s.len() ==> i < k),
    decreases s.len() - i,
{
    if i < s.len() {
        lemma_until_end(s, i, seq![',', '{']);
        let e = until_end(s, i, seq![',', '{']);
        if e < s.len() && s[e] == ',' {
            lemma_selectors_from(s, e + 1);
        }
    }
}

proof fn lemma_property_at(s: Seq<char>, i: int)
    requires
        0 <= i <= s.len(),
    ensures
        property_at(s, i) matches Some((t, k)) ==> i < k <= s.len(),
{
    lemma_until_end(s, i, seq![':']);
    let n = until_end(s, i, seq![':']);
    if n < s.len() {
        lemma_until_end(s, n + 1, seq![';']);
    }
}

proof fn lemma_properties_from(s: Seq<char>, i: int)
    requires
        0 <= i <= s.len(),
    ensures
        properties_from(s, i) matches Some((t, k)) ==> i <= k <= s.len(),
    decreases s.len() - i,
{
    if i < s.len() {
        lemma_blank_end(s, i);
        let j = blank_end(s, i);
        if j < s.len() && s[j] != '}' {
            lemma_property_at(s, j);
            if let Some((t, k)) = property_at(s, j) {
                if i < k <= s.len() {
                    lemma_properties_from(s, k);
                }
            }
        }
    }
}

/// The trimmed text of `v[from..to]`.
fn trimmed_string(v: &Vec<char>, from: usize, to: usize) -> (r: String)
    requires
        from <= to <= v.len(),
    ensures
        r@ == trimmed(v@.subrange(from as int, to as int)),
{
    let part = string_from(v, from, to);
    let w = chars_of(part.as_str());
    let (a, b) = trim_bounds(&w, 0, w.len());
    string_from(&w, a, b)
}

/// Reads the selectors from `i` up to the block's `{`.
fn selectors_at(v: &Vec<char>, i: usize) -> (r: Result<(Vec<CssToken>, usize), CssSyntaxError>)
    requires
        i <= v.len(),
    ensures
        r matches Ok((t, k)) ==> selectors_from(v@, i as int) == Some((css_view(t@), k as int)),
        r is Err ==> selectors_from(v@, i as int) is None,
{
    let stops = vec![',', '{'];
    assert(stops@ =~= seq![',', '{']);
    let mut result: Vec<CssToken> = Vec::new();
    let mut idx = i;
    let mut done = false;
    assert(css_view(result@) =~= seq![]);
    while idx < v.len() && !done
        invariant
            i <= idx <= v.len(),
            stops@ == seq![',', '{'],
            done ==> selectors_from(v@, i as int) == Some((css_view(result@), idx as int)),
            !done ==> selectors_from(v@, i as int) == match selectors_from(v@, idx as int) {
                None => None,
                Some((rest, k)) => Some((css_view(result@) + rest, k)),
            },
        decreases v.len() - idx,
    {
        let e = until_end_at(v, idx, &stops);
        proof { lemma_until_end(v@, idx as int, seq![',', '{']); }
        if e >= v.len() {
            return Err(CssSyntaxError::UnexpectedEndOfFile);
        }
        let ghost before = css_view(result@);
        let sel = trimmed_string(v, idx, e);
        let ghost head = if sel@.len() > 0 { seq![CssModel::Selector(sel@)] } else { seq![] };
        if !sel.as_str().is_empty() {
            result.push(CssToken::Selector(sel));
        }
        assert(css_view(result@) =~= before + head);
        if v[e] == ',' {
            result.push(CssToken::Comma);
            assert(css_view(result@) =~= before + head + seq![CssModel::Comma]);
            proof {
                match selectors_from(v@, e + 1) {
                    None => {},
                    Some((rest, k)) => {
                        assert(before + (head + seq![CssModel::Comma] + rest) =~= css_view(result@) + rest);
                    },
                }
            }
        } else {
            result.push(CssToken::BlockStart);
            assert(css_view(result@) =~= before + head + seq![CssModel::BlockStart]);
            done = true;
        }
        idx = e + 1;
    }
    if !done {
        assert(css_view(result@) + seq![] =~= css_view(result@));
    }
    Ok((result, idx))
}

/// Reads the property at `i`.
fn property_at_exec(v: &Vec<char>, i: usize) -> (r: Result<(Vec<CssToken>, usize), CssSyntaxError>)
    requires
        i <= v.len(),
    ensures
        r matches Ok((t, k)) ==> property_at(v@, i as int) == Some((css_view(t@), k as int)),
        r is Err ==> property_at(v@, i as int) is None,
{
    let colon = vec![':'];
    assert(colon@ =~= seq![':']);
    let n = until_end_at(v, i, &colon);
    if n >= v.len() {
        return Err(CssSyntaxError::UnexpectedEndOfFile);
    }
    let semicolon = vec![';'];
    assert(semicolon@ =~= seq![';']);
    let e = until_end_at(v, n + 1, &semicolon);
    if e >= v.len() {
        return Err(CssSyntaxError::UnexpectedEndOfFile);
    }
    let name = trimmed_string(v, i, n);
    let value = trimmed_string(v, n + 1, e);
    let result = vec![CssToken::PropertyName(name), CssToken::Colon, CssToken::PropertyValue(value), CssToken::Semicolon];
    assert(css_view(result@) =~= property_at(v@, i as int)->Some_0.0);
    Ok((result, e + 1))
}

/// Reads the properties from `i` up to the block's `}`.
fn properties_at(v: &Vec<char>, i: usize) -> (r: Result<(Vec<CssToken>, usize), CssSyntaxError>)
    requires
        i <= v.len(),
    ensures
        r matches Ok((t, k)) ==> properties_from(v@, i as int) == Some((css_view(t@), k as int)),
        r is Err ==> properties_from(v@, i as int) is None,
{
    let mut result: Vec<CssToken> = Vec::new();
    let mut idx = i;
    let mut done = false;
    assert(css_view(result@) =~= seq![]);
    while idx < v.len() && !done
        invariant
            i <= idx <= v.len(),
            done ==> properties_from(v@, i as int) == Some((css_view(result@), idx as int)),
            !done ==> properties_from(v@, i as int) == match properties_from(v@, idx as int) {
                None => None,
                Some((rest, k)) => Some((css_view(result@) + rest, k)),
            },
        decreases v.len() - idx,
    {
        let j = blank_end_at(v, idx);
        if j >= v.len() {
            return Err(CssSyntaxError::UnexpectedEndOfFile);
        }
        let ghost before = css_view(result@);
        if v[j] == '}' {
            result.push(CssToken::BlockEnd);
            assert(css_view(result@) =~= before + seq![CssModel::BlockEnd]);
            done = true;
            idx = j + 1;
        } else {
            proof { lemma_blank_end(v@, idx as int); lemma_property_at(v@, j as int); }
            let (mut tokens, k) = property_at_exec(v, j)?;
            let ghost t = css_view(tokens@);
            result.append(&mut tokens);
            assert(css_view(result@) =~= before + t);
            proof {
                match properties_from(v@, k as int) {
                    None => {},
                    Some((rest, e)) => {
                        assert(before + (t + rest) =~= css_view(result@) + rest);
                    },
                }
            }
            idx = k;
        }
    }
    if !done {
        assert(css_view(result@) + seq![] =~= css_view(result@));
    }
    Ok((result, idx))
}

/// Turns a stylesheet into its tokens. Fails when a selector list, a property
/// name or a property value runs to the end of the text.
pub fn tokenise_css(css: &str) -> (r: Result<Vec<CssToken>, CssSyntaxError>)
    ensures
        r matches Ok(t) ==> css_tokens(css@) == Some(css_view(t@)),
        r is Err ==> css_tokens(css@) is None,
{
    let v = chars_of(css);
    let mut tokens: Vec<CssToken> = Vec::new();
    let mut idx: usize = 0;
    assert(css_view(tokens@) =~= seq![]);
    while idx < v.len()
        invariant
            idx <= v.len(),
            v@ == css@,
            css_tokens(v@) == match css_tokens_from(v@, idx as int) {
                None => None,
                Some(rest) => Some(css_view(tokens@) + rest),
            },
        decreases v.len() - idx,
    {
        let ghost before = css_view(tokens@);
        let (mut selector_tokens, k) = selectors_at(&v, idx)?;
        proof { lemma_selectors_from(v@, idx as int); lemma_properties_from(v@, k as int); }
        let ghost a = css_view(selector_tokens@);
        let (mut property_tokens, m) = properties_at(&v, k)?;
        let ghost b = css_view(property_tokens@);
        tokens.append(&mut selector_tokens);
        tokens.append(&mut property_tokens);
        assert(css_view(tokens@) =~= before + a + b);
        proof {
            match css_tokens_from(v@, m as int) {
                None => {},
                Some(rest) => {
                    assert(before + (a + b + rest) =~= css_view(tokens@) + rest);
                },
            }
        }
        idx = m;
    }
    assert(css_view(tokens@) + seq![] =~= css_view(tokens@));
    Ok(tokens)
}

/// Reads the selectors at the start of `css`, up to and including the block's
/// `{`, and returns them with the number of characters they take.
pub fn read_selectors(css: &str) -> (r: Result<(Vec<CssToken>, usize), CssSyntaxError>)
    ensures
        r matches Ok((t, k)) ==> selectors_from(css@, 0) == Some((css_view(t@), k as int)),
        r is Err ==> selectors_from(css@, 0) is None,
{
    let v = chars_of(css);
    selectors_at(&v, 0)
}

/// Reads the properties at the start of `css`, up to and including the block's
/// `}`, and returns them with the number of characters they take.
pub fn read_all_css_properties(css: &str) -> (r: Result<(Vec<CssToken>, usize), CssSyntaxError>)
    ensures
        r matches Ok((t, k)) ==> properties_from(css@, 0) == Some((css_view(t@), k as int)),
        r is Err ==> properties_from(css@, 0) is None,
{
    let v = chars_of(css);
    properties_at(&v, 0)
}

/// Reads the property at the start of `css` and returns its tokens with the
/// number of characters it takes.
pub fn read_css_property(css: &str) -> (r: Result<(Vec<CssToken>, usize), CssSyntaxError>)
    ensures
        r matches Ok((t, k)) ==> property_at(css@, 0) == Some((css_view(t@), k as int)),
        r is Err ==> property_at(css@, 0) is None,
{
    let v = chars_of(css);
    property_at_exec(&v, 0)
}

} // verus!
