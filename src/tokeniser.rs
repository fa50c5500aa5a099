//! Tokeniser for element files: turns the text into tags, content and inline script.
//!
//! The scanners work on the characters of the text from a position and return
//! where they stopped; their contracts are the spec functions of this module,
//! which describe the same scan over `Seq<char>`.
use vstd::prelude::*;
use crate::errs::MarkupSyntaxError;
use crate::text::{
    all_white_space, char_is_white_space, chars_of, is_white_space, joined, lemma_joined_push, matches_at,
    push_joined, push_text, same_text, string_from, trim_bounds, trimmed,
};
use crate::tokeniser_utils::{
    blank_end, blank_end_at, lemma_blank_end, lemma_string_close_from_quote,
    lemma_string_end, lemma_until_end, string_close, string_close_at, string_end, string_end_at,
    until_end, until_end_at,
};

verus! {

/// The kind of a tag: `<p>`, `</p>` or `<input />`.
#[derive(Clone, Copy, Debug, PartialEq, Eq, Structural)]
pub enum TagType {
    Start,
    End,
    Standalone,
}

/// An attribute of a tag. A dynamic attribute (written `!name="..."`) holds a
/// script expression evaluated at render time; its name is stored without the `!`.
#[derive(Debug)]
pub struct TagAttribute {
    pub name: String,
    pub value: String,
    pub is_dynamic: bool,
}

/// What an attribute holds.
pub struct AttrModel {
    pub name: Seq<char>,
    pub value: Seq<char>,
    pub is_dynamic: bool,
}

impl View for TagAttribute {
    type V = AttrModel;

    open spec fn view(&self) -> AttrModel {
        AttrModel { name: self.name@, value: self.value@, is_dynamic: self.is_dynamic }
    }
}

impl TagAttribute {
    /// A copy of this attribute.
    pub fn duplicate(&self) -> (r: TagAttribute)
        ensures
            r@ == self@,
    {
        TagAttribute { name: self.name.clone(), value: self.value.clone(), is_dynamic: self.is_dynamic }
    }
}

/// What a list of attributes holds.
pub open spec fn attrs_view(a: Seq<TagAttribute>) -> Seq<AttrModel> {
    a.map_values(|x: TagAttribute| x@)
}

/// A copy of a list of attributes.
pub fn duplicate_attributes(a: &Vec<TagAttribute>) -> (r: Vec<TagAttribute>)
    ensures
        attrs_view(r@) == attrs_view(a@),
{
    let mut r: Vec<TagAttribute> = Vec::new();
    let mut k: usize = 0;
    while k < a.len()
        invariant
            k <= a.len(),
            r.len() == k,
            forall|m: int| 0 <= m < k ==> (#[trigger] r@[m])@ == a@[m]@,
        decreases a.len() - k,
    {
        r.push(a[k].duplicate());
        k = k + 1;
    }
    assert(attrs_view(r@) =~= attrs_view(a@));
    r
}

/// The attribute that starts at `i`: an optional `!`, a name up to a space or `=`,
/// blanks, one character (the `=`), blanks, then a value quoted by whatever
/// character comes there, with `\` escaping. Also where it ends; `None` if the
/// text ends before the value is closed.
pub open spec fn attribute_at(s: Seq<char>, i: int) -> Option<(AttrModel, int)> {
    let dynamic = 0 <= i < s.len() && s[i] == '!';
    let ns = if dynamic { i + 1 } else { i };
    let ne = until_end(s, ns, seq![' ', '=']);
    let eq = blank_end(s, ne);
    let q = blank_end(s, eq + 1);
    if eq >= s.len() || q >= s.len() {
        None
    } else {
        match string_close(s, q, s[q], '\\', 0, false) {
            None => None,
            Some(k) => Some((
                AttrModel { name: s.subrange(ns, ne), value: s.subrange(q + 1, k - 1), is_dynamic: dynamic },
                k,
            )),
        }
    }
}

/// The attributes from `i` up to the `/` or `>` that ends a tag, and where they end.
/// `None` if the text ends inside them.
pub open spec fn attributes_from(s: Seq<char>, i: int) -> Option<(Seq<AttrModel>, int)>
    decreases s.len() - i,
{
    if i < 0 || i >= s.len() {
        Some((seq![], i))
    } else {
        let j = blank_end(s, i);
        if j >= s.len() {
            None
        } else if s[j] == '/' || s[j] == '>' {
            Some((seq![], j))
        } else {
            match attribute_at(s, j) {
                None => None,
                Some((a, k)) => if i < k <= s.len() {
                    match attributes_from(s, k) {
                        None => None,
                        Some((rest, e)) => Some((seq![a] + rest, e)),
                    }
                } else {
                    None
                },
            }
        }
    }
}

pub proof fn lemma_attribute_at(s: Seq<char>, i: int)
    requires
        0 <= i < s.len(),
    ensures
        attribute_at(s, i) matches Some((a, k)) ==> i < k <= s.len(),
{
    let dynamic = s[i] == '!';
    let ns = if dynamic { i + 1 } else { i };
    lemma_until_end(s, ns, seq![' ', '=']);
    let ne = until_end(s, ns, seq![' ', '=']);
    lemma_blank_end(s, ne);
    let eq = blank_end(s, ne);
    if eq < s.len() {
        lemma_blank_end(s, eq + 1);
        let q = blank_end(s, eq + 1);
        if q < s.len() {
            lemma_string_close_from_quote(s, q, '\\');
        }
    }
}

pub proof fn lemma_attributes_from(s: Seq<char>, i: int)
    requires
        0 <= i <= s.len(),
    ensures
        attributes_from(s, i) matches Some((a, e)) ==> i <= e <= s.len(),
        attributes_from(s, i) matches Some((a, e)) ==> (e < s.len() ==> s[e] == '/' || s[e] == '>'),
    decreases s.len() - i,
{
    if i < s.len() {
        lemma_blank_end(s, i);
        let j = blank_end(s, i);
        if j < s.len() && !(s[j] == '/' || s[j] == '>') {
            lemma_attribute_at(s, j);
            if let Some((a, k)) = attribute_at(s, j) {
                lemma_attributes_from(s, k);
            }
        }
    }
}

/// Reads the attribute that starts at `i`.
pub fn attribute_at_exec(v: &Vec<char>, i: usize) -> (r: Result<(TagAttribute, usize), MarkupSyntaxError>)
    requires
        i < v.len(),
    ensures
        r matches Ok((a, k)) ==> attribute_at(v@, i as int) == Some((a@, k as int)),
        r is Err ==> attribute_at(v@, i as int) is None,
        r matches Err(e) ==> e == MarkupSyntaxError::UnexpectedEndOfFile,
{
    proof { lemma_attribute_at(v@, i as int); }
    let dynamic = v[i] == '!';
    let ns = if dynamic { i + 1 } else { i };
    let name_stops = vec![' ', '='];
    assert(name_stops@ =~= seq![' ', '=']);
    let ne = until_end_at(v, ns, &name_stops);
    let eq = blank_end_at(v, ne);
    if eq >= v.len() {
        return Err(MarkupSyntaxError::UnexpectedEndOfFile);
    }
    let q = blank_end_at(v, eq + 1);
    if q >= v.len() {
        return Err(MarkupSyntaxError::UnexpectedEndOfFile);
    }
    proof { lemma_string_close_from_quote(v@, q as int, '\\'); }
    match string_close_at(v, q, v[q], '\\') {
        None => Err(MarkupSyntaxError::UnexpectedEndOfFile),
        Some(k) => {
            let name = string_from(v, ns, ne);
            let value = string_from(v, q + 1, k - 1);
            Ok((TagAttribute { name, value, is_dynamic: dynamic }, k))
        },
    }
}

/// Reads the attributes from `i` up to the end of the tag.
pub fn attributes_from_exec(v: &Vec<char>, i: usize) -> (r: Result<(Vec<TagAttribute>, usize), MarkupSyntaxError>)
    requires
        i <= v.len(),
    ensures
        r matches Ok((a, k)) ==> attributes_from(v@, i as int) == Some((attrs_view(a@), k as int)),
        r is Err ==> attributes_from(v@, i as int) is None,
        r matches Err(e) ==> e == MarkupSyntaxError::UnexpectedEndOfFile,
{
    let mut attrs: Vec<TagAttribute> = Vec::new();
    let mut idx = i;
    while idx < v.len()
        invariant
            i <= idx <= v.len(),
            attributes_from(v@, i as int) == match attributes_from(v@, idx as int) {
                None => None,
                Some((rest, e)) => Some((attrs_view(attrs@) + rest, e)),
            },
        decreases v.len() - idx,
    {
        let j = blank_end_at(v, idx);
        if j >= v.len() {
            return Err(MarkupSyntaxError::UnexpectedEndOfFile);
        }
        if v[j] == '/' || v[j] == '>' {
            assert(attrs_view(attrs@) + seq![] =~= attrs_view(attrs@));
            return Ok((attrs, j));
        }
        let (a, k) = attribute_at_exec(v, j)?;
        proof {
            lemma_blank_end(v@, idx as int);
            lemma_attribute_at(v@, j as int);
        }
        let ghost old_attrs = attrs@;
        attrs.push(a);
        proof {
            assert(attrs_view(attrs@) =~= attrs_view(old_attrs) + seq![a@]);
            match attributes_from(v@, k as int) {
                None => {},
                Some((rest, e)) => {
                    assert(attrs_view(old_attrs) + (seq![a@] + rest) =~= attrs_view(attrs@) + rest);
                },
            }
        }
        idx = k;
    }
    assert(attrs_view(attrs@) + seq![] =~= attrs_view(attrs@));
    Ok((attrs, idx))
}

/// Reads a tag attribute from the start of `data` (`name="value"` or `!name="value"`)
/// and returns it with the number of characters it takes. Fails when the text ends
/// before the value is closed.
pub fn read_tag_attribute(data: &str) -> (r: Result<(TagAttribute, usize), MarkupSyntaxError>)
    ensures
        data@.len() == 0 ==> r == Err::<(TagAttribute, usize), MarkupSyntaxError>(MarkupSyntaxError::UnexpectedEndOfFile),
        data@.len() > 0 ==> (r matches Ok((a, k)) ==> attribute_at(data@, 0) == Some((a@, k as int))),
        data@.len() > 0 ==> (r is Err ==> attribute_at(data@, 0) is None),
        r matches Err(e) ==> e == MarkupSyntaxError::UnexpectedEndOfFile,
{
    let v = chars_of(data);
    if v.len() == 0 {
        return Err(MarkupSyntaxError::UnexpectedEndOfFile);
    }
    attribute_at_exec(&v, 0)
}

/// Reads the attributes at the start of `data`, up to the `/` or `>` that ends the
/// tag, and returns them with the number of characters they take.
pub fn read_tag_attributes(data: &str) -> (r: Result<(Vec<TagAttribute>, usize), MarkupSyntaxError>)
    ensures
        r matches Ok((a, k)) ==> attributes_from(data@, 0) == Some((attrs_view(a@), k as int)),
        r is Err ==> attributes_from(data@, 0) is None,
        r matches Err(e) ==> e == MarkupSyntaxError::UnexpectedEndOfFile,
{
    let v = chars_of(data);
    attributes_from_exec(&v, 0)
}

/// A token of an element file.
#[derive(Debug)]
pub enum Token {
    Tag(TagToken),
    Content(ContentToken),
    InlineJavascript(InlineJavascriptToken),
}

/// A single tag: `<opening>`, `</closing>` or `<standalone />`.
#[derive(Debug)]
pub struct TagToken {
    pub name: String,
    pub attributes: Vec<TagAttribute>,
    pub tag_type: TagType,
}

/// Literal text between tags.
#[derive(Debug)]
pub struct ContentToken {
    pub value: String,
}

/// A script snippet written between tildes.
#[derive(Debug)]
pub struct InlineJavascriptToken {
    pub value: String,
}

/// What a tag token holds.
pub struct TagModel {
    pub name: Seq<char>,
    pub attributes: Seq<AttrModel>,
    pub tag_type: TagType,
}

/// What a token holds.
pub enum TokenModel {
    Tag(TagModel),
    Content(Seq<char>),
    InlineJavascript(Seq<char>),
}

impl View for TagToken {
    type V = TagModel;

    open spec fn view(&self) -> TagModel {
        TagModel { name: self.name@, attributes: attrs_view(self.attributes@), tag_type: self.tag_type }
    }
}

impl View for Token {
    type V = TokenModel;

    open spec fn view(&self) -> TokenModel {
        match self {
            Token::Tag(t) => TokenModel::Tag(t@),
            Token::Content(c) => TokenModel::Content(c.value@),
            Token::InlineJavascript(j) => TokenModel::InlineJavascript(j.value@),
        }
    }
}

/// What a list of tokens holds.
pub open spec fn tokens_view(t: Seq<Token>) -> Seq<TokenModel> {
    t.map_values(|x: Token| x@)
}

/// The scan of a tag name from `p` (the tag opened at `start`): the characters up
/// to a space or `>`, where a `/` makes the tag an end tag right after the `<` and
/// a standalone tag elsewhere. Gives the raw name, the kind, where the scan
/// stopped, and whether it stopped at the `>`.
pub open spec fn tag_name_scan(s: Seq<char>, p: int, start: int, name: Seq<char>, kind: TagType)
    -> (Seq<char>, TagType, int, bool)
    decreases s.len() - p,
{
    if p < 0 || p >= s.len() {
        (name, kind, p, false)
    } else if s[p] == ' ' {
        (name, kind, p + 1, false)
    } else if s[p] == '>' {
        (name, kind, p + 1, true)
    } else if s[p] == '/' {
        tag_name_scan(s, p + 1, start, name, if p == start + 1 { TagType::End } else { TagType::Standalone })
    } else {
        tag_name_scan(s, p + 1, start, name.push(s[p]), kind)
    }
}

/// The scan from `p` to the `>` that closes a tag, where a `/` makes it standalone.
pub open spec fn tag_close_scan(s: Seq<char>, p: int, kind: TagType) -> (TagType, int)
    decreases s.len() - p,
{
    if p < 0 || p >= s.len() {
        (kind, p)
    } else if s[p] == '/' {
        tag_close_scan(s, p + 1, TagType::Standalone)
    } else if s[p] == '>' {
        (kind, p + 1)
    } else {
        tag_close_scan(s, p + 1, kind)
    }
}

/// The tag whose `<` is at `i`, and where it ends. `None` if the text ends
/// inside its attributes.
pub open spec fn tag_at(s: Seq<char>, i: int) -> Option<(TagModel, int)> {
    if i < 0 || i >= s.len() {
        None
    } else {
        let (raw, kind, p, closed) = tag_name_scan(s, i + 1, i, seq![], TagType::Start);
        if closed {
            Some((TagModel { name: trimmed(raw), attributes: seq![], tag_type: kind }, p))
        } else {
            match attributes_from(s, p) {
                None => None,
                Some((attrs, k)) => {
                    let (kind2, e) = tag_close_scan(s, k, kind);
                    Some((TagModel { name: trimmed(raw), attributes: attrs, tag_type: kind2 }, e))
                },
            }
        }
    }
}

proof fn lemma_tag_name_scan(s: Seq<char>, p: int, start: int, name: Seq<char>, kind: TagType)
    requires
        0 <= p <= s.len(),
    ensures
        p <= tag_name_scan(s, p, start, name, kind).2 <= s.len(),
    decreases s.len() - p,
{
    if p < s.len() && s[p] != ' ' && s[p] != '>' {
        if s[p] == '/' {
            lemma_tag_name_scan(s, p + 1, start, name, if p == start + 1 { TagType::End } else { TagType::Standalone });
        } else {
            lemma_tag_name_scan(s, p + 1, start, name.push(s[p]), kind);
        }
    }
}

proof fn lemma_tag_close_scan(s: Seq<char>, p: int, kind: TagType)
    requires
        0 <= p <= s.len(),
    ensures
        p <= tag_close_scan(s, p, kind).1 <= s.len(),
    decreases s.len() - p,
{
    if p < s.len() && s[p] != '>' {
        if s[p] == '/' {
            lemma_tag_close_scan(s, p + 1, TagType::Standalone);
        } else {
            lemma_tag_close_scan(s, p + 1, kind);
        }
    }
}

pub proof fn lemma_tag_at(s: Seq<char>, i: int)
    requires
        0 <= i < s.len(),
    ensures
        tag_at(s, i) matches Some((t, k)) ==> i < k <= s.len(),
{
    lemma_tag_name_scan(s, i + 1, i, seq![], TagType::Start);
    let (raw, kind, p, closed) = tag_name_scan(s, i + 1, i, seq![], TagType::Start);
    if !closed {
        lemma_attributes_from(s, p);
        if let Some((attrs, k)) = attributes_from(s, p) {
            lemma_tag_close_scan(s, k, kind);
        }
    }
}

/// Reads the tag whose `<` is at `i`.
pub fn tag_at_exec(v: &Vec<char>, i: usize) -> (r: Result<(TagToken, usize), MarkupSyntaxError>)
    requires
        i < v.len(),
    ensures
        r matches Ok((t, k)) ==> tag_at(v@, i as int) == Some((t@, k as int)),
        r is Err ==> tag_at(v@, i as int) is None,
        r matches Err(e) ==> e == MarkupSyntaxError::UnexpectedEndOfFile,
{
    proof { lemma_tag_at(v@, i as int); }
    let mut raw: Vec<char> = Vec::new();
    let mut kind = TagType::Start;
    let mut p = i + 1;
    let mut closed = false;
    let mut done = false;
    while p < v.len() && !done
        invariant
            i < p <= v.len(),
            done || !closed,
            done ==> tag_name_scan(v@, i + 1, i as int, seq![], TagType::Start) == (raw@, kind, p as int, closed),
            !done ==> tag_name_scan(v@, i + 1, i as int, seq![], TagType::Start)
                == tag_name_scan(v@, p as int, i as int, raw@, kind),
        decreases v.len() - p,
    {
        let c = v[p];
        if c == ' ' {
            done = true;
        } else if c == '>' {
            closed = true;
            done = true;
        } else if c == '/' {
            kind = if p == i + 1 { TagType::End } else { TagType::Standalone };
        } else {
            raw.push(c);
        }
        p = p + 1;
    }
    assert(tag_name_scan(v@, i + 1, i as int, seq![], TagType::Start) == (raw@, kind, p as int, closed));
    let (a, b) = trim_bounds(&raw, 0, raw.len());
    let name = string_from(&raw, a, b);
    if closed {
        let attributes: Vec<TagAttribute> = Vec::new();
        assert(attrs_view(attributes@) =~= seq![]);
        return Ok((TagToken { name, attributes, tag_type: kind }, p));
    }
    let (attributes, k) = attributes_from_exec(v, p)?;
    proof { lemma_attributes_from(v@, p as int); }
    let mut e = k;
    let ghost kind0 = kind;
    let mut ended = false;
    while e < v.len() && !ended
        invariant
            k <= e <= v.len(),
            ended ==> tag_close_scan(v@, k as int, kind0) == (kind, e as int),
            !ended ==> tag_close_scan(v@, k as int, kind0) == tag_close_scan(v@, e as int, kind),
        decreases v.len() - e,
    {
        let c = v[e];
        e = e + 1;
        if c == '/' {
            kind = TagType::Standalone;
        } else if c == '>' {
            ended = true;
        }
    }
    assert(tag_close_scan(v@, k as int, kind0) == (kind, e as int));
    Ok((TagToken { name, attributes, tag_type: kind }, e))
}

/// Reads the tag at the start of `markup` (`<name ...>`, `</name>` or
/// `<name ... />`) and returns it with the number of characters it takes.
/// Fails when the text is empty or ends inside the attributes.
pub fn read_html_tag(markup: &str) -> (r: Result<(TagToken, usize), MarkupSyntaxError>)
    ensures
        r matches Ok((t, k)) ==> tag_at(markup@, 0) == Some((t@, k as int)),
        r is Err ==> tag_at(markup@, 0) is None,
        r matches Err(e) ==> e == MarkupSyntaxError::UnexpectedEndOfFile,
{
    let v = chars_of(markup);
    if v.len() == 0 {
        return Err(MarkupSyntaxError::UnexpectedEndOfFile);
    }
    tag_at_exec(&v, 0)
}

/// The characters that end literal content: `<` and `~`.
pub open spec fn content_stops() -> Seq<char> {
    seq!['<', '~']
}

/// The characters that end an inline script: `~` and newline.
pub open spec fn inline_stops() -> Seq<char> {
    seq!['~', '\n']
}

/// The tag that ends a script body.
pub open spec fn closing_script_tag() -> Seq<char> {
    seq!['<', '/', 's', 'c', 'r', 'i', 'p', 't', '>']
}

/// The name of the tag whose body is raw script.
pub open spec fn script_tag_name() -> Seq<char> {
    seq!['s', 'c', 'r', 'i', 'p', 't']
}

/// Whether `s[p..]` starts with `pat`.
pub open spec fn starts_at(s: Seq<char>, p: int, pat: Seq<char>) -> bool {
    0 <= p && p + pat.len() <= s.len() && s.subrange(p, p + pat.len()) == pat
}

/// The inline script whose `~` is at `i`: its text, up to the next `~` or newline,
/// and where the token ends (past that terminator, if there is one).
pub open spec fn inline_at(s: Seq<char>, i: int) -> (Seq<char>, int) {
    let start = if i + 1 <= s.len() { i + 1 } else { s.len() as int };
    let e = until_end(s, start, inline_stops());
    (s.subrange(start, e), if e < s.len() { e + 1 } else { e })
}

/// The bracket depth after `c`: opening brackets deepen it, closing ones make it
/// shallower (never below zero).
pub open spec fn depth_after(depth: nat, c: char) -> nat {
    if c == '(' || c == '[' || c == '{' {
        depth + 1
    } else if c == ')' || c == ']' || c == '}' {
        if depth > 0 { (depth - 1) as nat } else { 0 }
    } else {
        depth
    }
}

/// The quote characters of script text.
pub open spec fn is_quote(c: char) -> bool {
    c == '\'' || c == '`' || c == '"'
}

/// Where the step of the script scan at `i` ends: past a whole quoted string if
/// one starts there, else past one character.
pub open spec fn script_step(s: Seq<char>, i: int) -> int {
    if is_quote(s[i]) { string_end(s, i, s[i], '\\') } else { i + 1 }
}

/// Where the script body that is read from `i` at bracket depth `depth` ends: at
/// the first `</script>` that follows a step and stands outside brackets, or at
/// the end of the text.
pub open spec fn script_end(s: Seq<char>, i: int, depth: nat) -> int
    decreases s.len() - i,
{
    if i < 0 || i >= s.len() {
        i
    } else {
        let d = depth_after(depth, s[i]);
        let next = script_step(s, i);
        if !(i < next <= s.len()) {
            i
        } else if d == 0 && starts_at(s, next, closing_script_tag()) {
            next
        } else {
            script_end(s, next, d)
        }
    }
}

proof fn lemma_script_step(s: Seq<char>, i: int)
    requires
        0 <= i < s.len(),
    ensures
        i < script_step(s, i) <= s.len(),
{
    if is_quote(s[i]) {
        lemma_string_end(s, i, s[i], '\\');
    }
}

proof fn lemma_script_end(s: Seq<char>, i: int, depth: nat)
    requires
        0 <= i < s.len(),
    ensures
        i < script_end(s, i, depth) <= s.len(),
    decreases s.len() - i,
{
    lemma_script_step(s, i);
    let d = depth_after(depth, s[i]);
    let next = script_step(s, i);
    if next < s.len() {
        lemma_script_end(s, next, d);
    }
}

/// Where literal content read from `i` ends: at the next `<` or `~`.
pub fn content_end_at(v: &Vec<char>, i: usize) -> (r: usize)
    requires
        i <= v.len(),
    ensures
        r == until_end(v@, i as int, content_stops()),
        i <= r <= v.len(),
{
    let stops = vec!['<', '~'];
    assert(stops@ =~= content_stops());
    until_end_at(v, i, &stops)
}

/// Reads literal content from the start of `markup`: everything up to the next `<` or `~`.
pub fn read_tag_content(markup: &str) -> (r: String)
    ensures
        r@ == markup@.subrange(0, until_end(markup@, 0, content_stops())),
{
    let v = chars_of(markup);
    let k = content_end_at(&v, 0);
    string_from(&v, 0, k)
}

/// Reads the inline script whose `~` is at `i`; returns its text and where it ends.
pub fn inline_at_exec(v: &Vec<char>, i: usize) -> (r: (String, usize))
    requires
        i <= v.len(),
    ensures
        inline_at(v@, i as int) == (r.0@, r.1 as int),
        i < v.len() ==> i < r.1 <= v.len(),
{
    let start = if i < v.len() { i + 1 } else { v.len() };
    let stops = vec!['~', '\n'];
    assert(stops@ =~= inline_stops());
    let e = until_end_at(v, start, &stops);
    let value = string_from(v, start, e);
    if e < v.len() {
        (value, e + 1)
    } else {
        (value, e)
    }
}

/// Reads an inline script from the start of `markup`, which begins with its `~`:
/// the text up to the next `~` or newline. Also gives the number of characters
/// the token takes: the opening `~`, the text, and the terminator if there is one.
pub fn read_inline_javascript(markup: &str) -> (r: (InlineJavascriptToken, usize))
    ensures
        r.0.value@ == inline_at(markup@, 0).0,
        markup@.len() > 0 ==> r.1 == inline_at(markup@, 0).1,
        markup@.len() == 0 ==> r.1 == 1,
{
    let v = chars_of(markup);
    let (value, e) = inline_at_exec(&v, 0);
    if v.len() == 0 {
        (InlineJavascriptToken { value }, 1)
    } else {
        (InlineJavascriptToken { value }, e)
    }
}

/// Where a script body read from `i` ends.
pub fn script_end_at(v: &Vec<char>, i: usize, closing: &Vec<char>) -> (r: usize)
    requires
        i <= v.len(),
        closing@ == closing_script_tag(),
    ensures
        r == script_end(v@, i as int, 0),
        i <= r <= v.len(),
        i < v.len() ==> i < r,
{
    if i >= v.len() {
        return i;
    }
    proof { lemma_script_end(v@, i as int, 0); }
    let mut p = i;
    let mut depth: usize = 0;
    let mut done = false;
    while p < v.len() && !done
        invariant
            i <= p <= v.len(),
            depth <= p - i,
            closing@ == closing_script_tag(),
            done ==> script_end(v@, i as int, 0) == p,
            !done ==> script_end(v@, i as int, 0) == script_end(v@, p as int, depth as nat),
        decreases v.len() - p,
    {
        let c = v[p];
        let ghost depth0 = depth as nat;
        let ghost p0 = p as int;
        if c == '(' || c == '[' || c == '{' {
            depth = depth + 1;
        } else if c == ')' || c == ']' || c == '}' {
            if depth > 0 {
                depth = depth - 1;
            }
        }
        proof { lemma_script_step(v@, p as int); }
        let next = if c == '\'' || c == '`' || c == '"' {
            string_end_at(v, p, c, '\\')
        } else {
            p + 1
        };
        assert(depth as nat == depth_after(depth0, c));
        assert(next == script_step(v@, p as int));
        if depth == 0 && matches_at(v, next, closing) {
            done = true;
        }
        assert(script_end(v@, p0, depth0) == if depth == 0 && starts_at(v@, next as int, closing_script_tag()) {
            next as int
        } else {
            script_end(v@, next as int, depth as nat)
        });
        p = next;
    }
    p
}

/// Reads a script body from the start of `data`, up to (not including) a
/// `</script>` that stands outside brackets and strings.
pub fn read_javascript(data: &str) -> (r: String)
    ensures
        r@ == data@.subrange(0, script_end(data@, 0, 0)),
{
    let v = chars_of(data);
    let closing = chars_of("</script>");
    proof {
        reveal_strlit("</script>");
        assert(closing@ =~= closing_script_tag());
    }
    let k = script_end_at(&v, 0, &closing);
    string_from(&v, 0, k)
}

/// `t` followed by the tokens of `rest`, if there are any.
pub open spec fn prepend(t: TokenModel, rest: Option<Seq<TokenModel>>) -> Option<Seq<TokenModel>> {
    match rest {
        None => None,
        Some(r) => Some(seq![t] + r),
    }
}

/// The tokens of `s` from `i` on, where `in_script` tells whether the last tag
/// read was a `script` start tag (so that content is read as a script body).
/// A tag starts at `<`, an inline script at `~`; other text is content, which is
/// dropped when it is all white space. `None` if a tag is cut off by the end of
/// the text.
pub open spec fn tokens_from(s: Seq<char>, i: int, in_script: bool) -> Option<Seq<TokenModel>>
    decreases s.len() - i,
    via tokens_from_decreases
{
    if i < 0 || i >= s.len() {
        Some(seq![])
    } else if s[i] == '<' {
        match tag_at(s, i) {
            None => None,
            Some((t, k)) => prepend(
                TokenModel::Tag(t),
                tokens_from(s, k, t.name == script_tag_name() && t.tag_type == TagType::Start),
            ),
        }
    } else if s[i] == '~' {
        let (js, k) = inline_at(s, i);
        prepend(TokenModel::InlineJavascript(js), tokens_from(s, k, in_script))
    } else if in_script {
        let k = script_end(s, i, 0);
        prepend(TokenModel::Content(s.subrange(i, k)), tokens_from(s, k, in_script))
    } else {
        let k = until_end(s, i, content_stops());
        let rest = tokens_from(s, k, in_script);
        if all_white_space(s.subrange(i, k)) {
            rest
        } else {
            prepend(TokenModel::Content(s.subrange(i, k)), rest)
        }
    }
}

#[via_fn]
proof fn tokens_from_decreases(s: Seq<char>, i: int, in_script: bool) {
    if 0 <= i < s.len() {
        if s[i] == '<' {
            lemma_tag_at(s, i);
        } else if s[i] == '~' {
            lemma_until_end(s, i + 1, inline_stops());
        } else if in_script {
            lemma_script_end(s, i, 0);
        } else {
            lemma_until_end(s, i, content_stops());
            if until_end(s, i, content_stops()) == i {
                assert(content_stops().contains(s[i]));
                assert(content_stops() =~= seq!['<', '~']);
            }
        }
    }
}

/// The tokens of the element text `s`.
pub open spec fn tokenize(s: Seq<char>) -> Option<Seq<TokenModel>> {
    tokens_from(s, 0, false)
}

/// Whether `v[from..to]` is all white space.
pub fn all_white_between(v: &Vec<char>, from: usize, to: usize) -> (r: bool)
    requires
        from <= to <= v.len(),
    ensures
        r == all_white_space(v@.subrange(from as int, to as int)),
{
    let mut k = from;
    while k < to
        invariant
            from <= k <= to <= v.len(),
            forall|m: int| from <= m < k ==> is_white_space(#[trigger] v@[m]),
        decreases to - k,
    {
        if !char_is_white_space(v[k]) {
            assert(!is_white_space(v@.subrange(from as int, to as int)[k - from]));
            return false;
        }
        k = k + 1;
    }
    assert forall|m: int| 0 <= m < to - from implies is_white_space(#[trigger] v@.subrange(from as int, to as int)[m]) by {
        assert(v@.subrange(from as int, to as int)[m] == v@[from + m]);
    }
    true
}

/// Turns element text into its tokens: tags, inline scripts and content, in
/// order. Fails when a tag is cut off by the end of the text.
pub fn read_element(markup: &str) -> (r: Result<Vec<Token>, MarkupSyntaxError>)
    ensures
        r matches Ok(t) ==> tokenize(markup@) == Some(tokens_view(t@)),
        r is Err ==> tokenize(markup@) is None,
        r matches Err(e) ==> e == MarkupSyntaxError::UnexpectedEndOfFile,
{
    let v = chars_of(markup);
    let closing = chars_of("</script>");
    proof {
        reveal_strlit("</script>");
        reveal_strlit("script");
        assert(closing@ =~= closing_script_tag());
        assert("script"@ =~= script_tag_name());
    }
    let mut result: Vec<Token> = Vec::new();
    let mut i: usize = 0;
    let mut inside_script_tag = false;
    while i < v.len()
        invariant
            i <= v.len(),
            v@ == markup@,
            closing@ == closing_script_tag(),
            "script"@ == script_tag_name(),
            tokenize(v@) == match tokens_from(v@, i as int, inside_script_tag) {
                None => None,
                Some(rest) => Some(tokens_view(result@) + rest),
            },
        decreases v.len() - i,
    {
        let ghost before = result@;
        if v[i] == '<' {
            proof { lemma_tag_at(v@, i as int); }
            let (tag, k) = match tag_at_exec(&v, i) {
                Ok(x) => x,
                Err(e) => {
                    assert(tokens_from(v@, i as int, inside_script_tag) is None);
                    return Err(e);
                },
            };
            inside_script_tag = same_text(tag.name.as_str(), "script") && tag.tag_type == TagType::Start;
            result.push(Token::Tag(tag));
            i = k;
        } else if v[i] == '~' {
            let (value, k) = inline_at_exec(&v, i);
            result.push(Token::InlineJavascript(InlineJavascriptToken { value }));
            i = k;
        } else if inside_script_tag {
            let k = script_end_at(&v, i, &closing);
            let value = string_from(&v, i, k);
            result.push(Token::Content(ContentToken { value }));
            i = k;
        } else {
            let k = content_end_at(&v, i);
            proof {
                lemma_until_end(v@, i as int, content_stops());
                assert(content_stops() =~= seq!['<', '~']);
            }
            if !all_white_between(&v, i, k) {
                let value = string_from(&v, i, k);
                result.push(Token::Content(ContentToken { value }));
            }
            i = k;
        }
        proof {
            assert(tokens_view(result@) =~= tokens_view(before) + tokens_view(result@.subrange(before.len() as int, result@.len() as int)));
            match tokens_from(v@, i as int, inside_script_tag) {
                None => {},
                Some(rest) => {
                    assert(tokens_view(before) + (tokens_view(result@.subrange(before.len() as int, result@.len() as int)) + rest)
                        =~= tokens_view(result@) + rest);
                },
            }
        }
    }
    assert(tokens_view(result@) + seq![] =~= tokens_view(result@));
    Ok(result)
}

impl TagType {
    /// The name of the kind.
    pub open spec fn message(&self) -> Seq<char> {
        match self {
            TagType::Start => "Start"@,
            TagType::End => "End"@,
            TagType::Standalone => "Standalone"@,
        }
    }

    /// The name of the kind.
    pub fn describe(&self) -> (r: String)
        ensures
            r@ == self.message(),
    {
        match self {
            TagType::Start => "Start".to_owned(),
            TagType::End => "End".to_owned(),
            TagType::Standalone => "Standalone".to_owned(),
        }
    }
}

impl TagAttribute {
    /// The attribute as `name="value"`, marked when it is dynamic.
    pub open spec fn message(&self) -> Seq<char> {
        if self.is_dynamic {
            self.name@ + "=\""@ + self.value@ + "\"(dynamic) "@
        } else {
            self.name@ + "=\""@ + self.value@ + "\""@
        }
    }

    /// The attribute as `name="value"`, marked when it is dynamic.
    pub fn describe(&self) -> (r: String)
        ensures
            r@ == self.message(),
    {
        let mut r = String::new();
        push_text(&mut r, self.name.as_str());
        push_text(&mut r, "=\"");
        push_text(&mut r, self.value.as_str());
        if self.is_dynamic {
            push_text(&mut r, "\"(dynamic) ");
        } else {
            push_text(&mut r, "\"");
        }
        r
    }
}

impl TagToken {
    /// A one-line description of the tag, for inspecting tokens.
    pub open spec fn message(&self) -> Seq<char> {
        if self.attributes@.len() > 0 {
            "["@ + self.tag_type.message() + " "@ + self.name@ + " tag with "@
                + joined(self.attributes@.map_values(|a: TagAttribute| a.message()), " "@) + "]"@
        } else {
            "["@ + self.tag_type.message() + " "@ + self.name@ + " tag]"@
        }
    }

    /// A one-line description of the tag, for inspecting tokens.
    pub fn describe(&self) -> (r: String)
        ensures
            r@ == self.message(),
    {
        let mut r = String::new();
        push_text(&mut r, "[");
        let kind = self.tag_type.describe();
        push_text(&mut r, kind.as_str());
        push_text(&mut r, " ");
        push_text(&mut r, self.name.as_str());
        if self.attributes.len() > 0 {
            push_text(&mut r, " tag with ");
            let ghost parts = self.attributes@.map_values(|a: TagAttribute| a.message());
            let mut attrs = String::new();
            let mut k: usize = 0;
            while k < self.attributes.len()
                invariant
                    k <= self.attributes.len(),
                    parts == self.attributes@.map_values(|a: TagAttribute| a.message()),
                    attrs@ == joined(parts.subrange(0, k as int), " "@),
                decreases self.attributes.len() - k,
            {
                let text = self.attributes[k].describe();
                push_joined(&mut attrs, k == 0, " ", text.as_str());
                proof {
                    lemma_joined_push(parts.subrange(0, k as int), text@, " "@);
                    assert(parts.subrange(0, k as int).push(text@) =~= parts.subrange(0, k + 1));
                }
                k = k + 1;
            }
            assert(parts.subrange(0, k as int) =~= parts);
            push_text(&mut r, attrs.as_str());
            push_text(&mut r, "]");
        } else {
            push_text(&mut r, " tag]");
        }
        r
    }
}

impl Token {
    /// A one-line description of the token, for inspecting tokens.
    pub open spec fn message(&self) -> Seq<char> {
        match self {
            Token::Tag(t) => t.message(),
            Token::Content(c) => "[Content: "@ + c.value@ + "]"@,
            Token::InlineJavascript(j) => "[Inline javascript: "@ + j.value@ + "]"@,
        }
    }

    /// A one-line description of the token, for inspecting tokens.
    pub fn describe(&self) -> (r: String)
        ensures
            r@ == self.message(),
    {
        match self {
            Token::Tag(t) => t.describe(),
            Token::Content(c) => {
                let mut r = String::new();
                push_text(&mut r, "[Content: ");
                push_text(&mut r, c.value.as_str());
                push_text(&mut r, "]");
                r
            },
            Token::InlineJavascript(j) => {
                let mut r = String::new();
                push_text(&mut r, "[Inline javascript: ");
                push_text(&mut r, j.value.as_str());
                push_text(&mut r, "]");
                r
            },
        }
    }
}

/// The descriptions of the tokens, separated by spaces.
pub fn describe_tokens(tokens: &Vec<Token>) -> (r: String)
    ensures
        r@ == joined(tokens@.map_values(|t: Token| t.message()), " "@),
{
    let ghost parts = tokens@.map_values(|t: Token| t.message());
    let mut r = String::new();
    let mut k: usize = 0;
    while k < tokens.len()
        invariant
            k <= tokens.len(),
            parts == tokens@.map_values(|t: Token| t.message()),
            r@ == joined(parts.subrange(0, k as int), " "@),
        decreases tokens.len() - k,
    {
        let text = tokens[k].describe();
        push_joined(&mut r, k == 0, " ", text.as_str());
        proof {
            lemma_joined_push(parts.subrange(0, k as int), text@, " "@);
            assert(parts.subrange(0, k as int).push(text@) =~= parts.subrange(0, k + 1));
        }
        k = k + 1;
    }
    assert(parts.subrange(0, k as int) =~= parts);
    r
}

/// The kind of an inline script line, for block-structured inline script.
#[derive(Clone, Copy, Debug, PartialEq, Eq, Structural)]
pub enum JavascriptType {
    /// Opens a block, like `if (x) {`.
    BlockStart,
    /// Closes a block, like `}`.
    BlockEnd,
    /// A statement of its own, like `x = 5;`.
    Standalone,
}

/// The kind of an inline script line: it opens a block when it ends with `{`,
/// closes one when it starts with `}`, and else stands alone.
pub fn find_javascript_type(javascript: &str) -> (r: JavascriptType)
    requires
        javascript@.len() > 0,
    ensures
        r == if javascript@.last() == '{' {
            JavascriptType::BlockStart
        } else if javascript@[0] == '}' {
            JavascriptType::BlockEnd
        } else {
            JavascriptType::Standalone
        },
{
    let v = chars_of(javascript);
    if v[v.len() - 1] == '{' {
        JavascriptType::BlockStart
    } else if v[0] == '}' {
        JavascriptType::BlockEnd
    } else {
        JavascriptType::Standalone
    }
}

/// The kind of a tag from its text between `<` and `>` (its first character
/// included): an end tag when a `/` comes second, standalone when it ends with `/`.
pub fn find_tag_type(tag_content: &str) -> (r: TagType)
    requires
        tag_content@.len() >= 2,
    ensures
        r == if tag_content@[1] == '/' {
            TagType::End
        } else if tag_content@.last() == '/' {
            TagType::Standalone
        } else {
            TagType::Start
        },
{
    let v = chars_of(tag_content);
    if v[1] == '/' {
        TagType::End
    } else if v[v.len() - 1] == '/' {
        TagType::Standalone
    } else {
        TagType::Start
    }
}

} // verus!
