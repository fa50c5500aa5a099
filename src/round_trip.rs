//! A start tag written from a name and attributes reads back as that name,
//! those attributes and the `Start` kind.
use vstd::prelude::*;
use crate::text::{is_white_space, skip_white_backward, skip_white_forward, trimmed};
use crate::tokeniser::{
    attribute_at, attributes_from, tag_at, tag_close_scan, tag_name_scan, tokenize, tokens_from, AttrModel, TagModel,
    TagType, TokenModel,
};
use crate::tokeniser_utils::{blank_end, is_blank, string_close, until_end};

verus! {

/// A character that can stand in a tag name written back.
pub open spec fn tag_name_char(c: char) -> bool {
    c != ' ' && c != '>' && c != '/' && !is_white_space(c)
}

/// A character that can stand in an attribute name written back.
pub open spec fn attr_name_char(c: char) -> bool {
    c != ' ' && c != '=' && c != '/' && c != '>' && c != '!' && !is_blank(c)
}

/// A character that can stand in a double-quoted attribute value written back.
pub open spec fn attr_value_char(c: char) -> bool {
    c != '"' && c != '\\'
}

/// An attribute that can be written back: plain, with a non-empty name.
pub open spec fn attr_writable(a: AttrModel) -> bool {
    &&& !a.is_dynamic
    &&& a.name.len() > 0
    &&& forall|k: int| 0 <= k < a.name.len() ==> attr_name_char(#[trigger] a.name[k])
    &&& forall|k: int| 0 <= k < a.value.len() ==> attr_value_char(#[trigger] a.value[k])
}

/// An attribute written as ` name="value"`.
pub open spec fn attr_source(a: AttrModel) -> Seq<char> {
    seq![' '] + a.name + seq!['=', '"'] + a.value + seq!['"']
}

/// Attributes written one after another.
pub open spec fn attrs_source(attrs: Seq<AttrModel>) -> Seq<char>
    decreases attrs.len(),
{
    if attrs.len() == 0 {
        seq![]
    } else {
        attr_source(attrs[0]) + attrs_source(attrs.drop_first())
    }
}

/// A start tag written as `<name a="v" ...>`.
pub open spec fn start_tag_source(name: Seq<char>, attrs: Seq<AttrModel>) -> Seq<char> {
    seq!['<'] + name + attrs_source(attrs) + seq!['>']
}

proof fn lemma_until_end_run(s: Seq<char>, i: int, j: int, stops: Seq<char>)
    requires
        0 <= i <= j < s.len(),
        forall|k: int| i <= k < j ==> !stops.contains(#[trigger] s[k]),
        stops.contains(s[j]),
    ensures
        until_end(s, i, stops) == j,
    decreases j - i,
{
    if i < j {
        lemma_until_end_run(s, i + 1, j, stops);
    }
}

proof fn lemma_value_close(s: Seq<char>, p: int, e: int)
    requires
        0 <= p <= e < s.len(),
        forall|k: int| p <= k < e ==> attr_value_char(#[trigger] s[k]),
        s[e] == '"',
    ensures
        string_close(s, p, '"', '\\', 1, false) == Some(e + 1),
    decreases e - p,
{
    if p < e {
        lemma_value_close(s, p + 1, e);
    }
}

proof fn lemma_attribute_source(s: Seq<char>, i: int, a: AttrModel)
    requires
        attr_writable(a),
        1 <= i,
        i - 1 + attr_source(a).len() <= s.len(),
        s.subrange(i - 1, i - 1 + attr_source(a).len()) == attr_source(a),
    ensures
        attribute_at(s, i) == Some((a, i - 1 + attr_source(a).len())),
{
    let src = attr_source(a);
    let n = a.name.len() as int;
    let v = a.value.len() as int;
    assert forall|k: int| 0 <= k < src.len() implies s[i - 1 + k] == #[trigger] src[k] by {
        assert(s.subrange(i - 1, i - 1 + src.len())[k] == s[i - 1 + k]);
    }
    assert(src[1] == a.name[0]);
    assert(s[i] == a.name[0]);
    assert(s[i] != '!');
    assert forall|k: int| i <= k < i + n implies !seq![' ', '='].contains(#[trigger] s[k]) by {
        assert(src[k - i + 1] == a.name[k - i]);
        assert(s[k] == a.name[k - i]);
        assert(attr_name_char(a.name[k - i]));
        if seq![' ', '='].contains(s[k]) {
            let m = choose|m: int| 0 <= m < 2 && seq![' ', '='][m] == s[k];
            assert(m == 0 || m == 1);
        }
    }
    assert(src[n + 1] == '=');
    assert(s[i + n] == '=');
    assert(seq![' ', '='][1] == '=');
    lemma_until_end_run(s, i, i + n, seq![' ', '=']);
    assert(blank_end(s, i + n) == i + n);
    assert(src[n + 2] == '"');
    assert(s[i + n + 1] == '"');
    assert(blank_end(s, i + n + 1) == i + n + 1);
    let q = i + n + 1;
    assert forall|k: int| q + 1 <= k < q + 1 + v implies attr_value_char(#[trigger] s[k]) by {
        assert(src[k - i + 1] == a.value[k - q - 1]);
    }
    assert(src[n + 3 + v] == '"');
    lemma_value_close(s, q + 1, q + 1 + v);
    assert(string_close(s, q, '"', '\\', 0, false) == string_close(s, q + 1, '"', '\\', 1, false));
    assert(s.subrange(i, i + n) =~= a.name) by {
        assert forall|k: int| 0 <= k < n implies s.subrange(i, i + n)[k] == a.name[k] by {
            assert(src[k + 1] == a.name[k]);
        }
    }
    assert(s.subrange(q + 1, q + 1 + v) =~= a.value) by {
        assert forall|k: int| 0 <= k < v implies s.subrange(q + 1, q + 1 + v)[k] == a.value[k] by {
            assert(src[k + n + 3] == a.value[k]);
        }
    }
}

proof fn lemma_attributes_source(s: Seq<char>, k: int, attrs: Seq<AttrModel>)
    requires
        forall|m: int| 0 <= m < attrs.len() ==> attr_writable(#[trigger] attrs[m]),
        0 <= k,
        k + attrs_source(attrs).len() < s.len(),
        s.subrange(k, k + attrs_source(attrs).len()) == attrs_source(attrs),
        s[k + attrs_source(attrs).len()] == '>',
    ensures
        attributes_from(s, k) == Some((attrs, k + attrs_source(attrs).len())),
        attrs.len() > 0 ==> attributes_from(s, k + 1) == Some((attrs, k + attrs_source(attrs).len())),
    decreases attrs.len(),
{
    let len = attrs_source(attrs).len() as int;
    if attrs.len() == 0 {
        assert(blank_end(s, k) == k);
    } else {
        let a = attrs[0];
        let rest = attrs.drop_first();
        assert(attr_writable(a));
        let la = attr_source(a).len() as int;
        let whole = attrs_source(attrs);
        assert(whole == attr_source(a) + attrs_source(rest));
        assert forall|t: int| 0 <= t < len implies s[k + t] == #[trigger] whole[t] by {
            assert(s.subrange(k, k + len)[t] == s[k + t]);
        }
        assert(s.subrange(k, k + la) =~= attr_source(a)) by {
            assert forall|t: int| 0 <= t < la implies s.subrange(k, k + la)[t] == attr_source(a)[t] by {
                assert(whole[t] == attr_source(a)[t]);
            }
        }
        assert(attr_source(a)[1] == a.name[0]);
        assert(attr_source(a)[0] == ' ');
        assert(whole[0] == attr_source(a)[0]);
        assert(whole[1] == attr_source(a)[1]);
        assert(s[k] == whole[0]);
        assert(s[k + 1] == whole[1]);
        assert(s[k] == ' ');
        assert(s[k + 1] == a.name[0]);
        assert(attr_name_char(a.name[0]));
        assert(blank_end(s, k + 1) == k + 1);
        assert(blank_end(s, k) == k + 1);
        lemma_attribute_source(s, k + 1, a);
        assert(s.subrange(k + la, k + la + attrs_source(rest).len()) =~= attrs_source(rest)) by {
            assert forall|t: int| 0 <= t < attrs_source(rest).len() implies
                s.subrange(k + la, k + la + attrs_source(rest).len())[t] == attrs_source(rest)[t] by {
                assert(whole[la + t] == attrs_source(rest)[t]);
            }
        }
        assert forall|m: int| 0 <= m < rest.len() implies attr_writable(#[trigger] rest[m]) by {
            assert(rest[m] == attrs[m + 1]);
        }
        lemma_attributes_source(s, k + la, rest);
        assert(seq![a] + rest =~= attrs);
    }
}

proof fn lemma_name_scan(s: Seq<char>, name: Seq<char>, m: int)
    requires
        0 <= m <= name.len(),
        1 + name.len() < s.len(),
        forall|t: int| 0 <= t < name.len() ==> s[1 + t] == #[trigger] name[t],
        forall|t: int| 0 <= t < name.len() ==> tag_name_char(#[trigger] name[t]),
    ensures
        tag_name_scan(s, 1 + m, 0, name.subrange(0, m), TagType::Start)
            == tag_name_scan(s, 1 + name.len() as int, 0, name, TagType::Start),
    decreases name.len() - m,
{
    if m < name.len() {
        assert(tag_name_char(name[m]));
        assert(name.subrange(0, m).push(name[m]) =~= name.subrange(0, m + 1));
        lemma_name_scan(s, name, m + 1);
    } else {
        assert(name.subrange(0, m) =~= name);
    }
}

proof fn lemma_trimmed_plain(name: Seq<char>)
    requires
        name.len() > 0,
        forall|t: int| 0 <= t < name.len() ==> !is_white_space(#[trigger] name[t]),
    ensures
        trimmed(name) == name,
{
    assert(skip_white_forward(name, 0, name.len() as int) == 0);
    assert(skip_white_backward(name, 0, name.len() as int) == name.len());
    assert(name.subrange(0, name.len() as int) =~= name);
}

/// A start tag written from a tag name and attributes that can be written back
/// reads back as one `Start` tag with that name and those attributes, both on
/// its own and as a whole element text.
pub proof fn lemma_start_tag_round_trip(name: Seq<char>, attrs: Seq<AttrModel>)
    requires
        name.len() > 0,
        forall|t: int| 0 <= t < name.len() ==> tag_name_char(#[trigger] name[t]),
        forall|m: int| 0 <= m < attrs.len() ==> attr_writable(#[trigger] attrs[m]),
    ensures
        tag_at(start_tag_source(name, attrs), 0) == Some((
            TagModel { name, attributes: attrs, tag_type: TagType::Start },
            start_tag_source(name, attrs).len() as int,
        )),
        tokenize(start_tag_source(name, attrs))
            == Some(seq![TokenModel::Tag(TagModel { name, attributes: attrs, tag_type: TagType::Start })]),
{
    let s = start_tag_source(name, attrs);
    let n = name.len() as int;
    let l = attrs_source(attrs).len() as int;
    assert(s.len() == n + l + 2);
    assert forall|t: int| 0 <= t < n implies s[1 + t] == #[trigger] name[t] by {}
    assert(s[n + l + 1] == '>');
    lemma_name_scan(s, name, 0);
    assert(name.subrange(0, 0) =~= seq![]);
    lemma_trimmed_plain(name);
    let t = TagModel { name, attributes: attrs, tag_type: TagType::Start };
    if attrs.len() == 0 {
        assert(attrs_source(attrs) =~= seq![]);
        assert(s[1 + n] == '>');
        assert(tag_name_scan(s, 1 + n, 0, name, TagType::Start) == (name, TagType::Start, n + 2, true));
        assert(attrs =~= seq![]);
    } else {
        assert(attrs_source(attrs) == attr_source(attrs[0]) + attrs_source(attrs.drop_first()));
        assert(s[1 + n] == ' ');
        assert(tag_name_scan(s, 1 + n, 0, name, TagType::Start) == (name, TagType::Start, n + 2, false));
        assert(s.subrange(1 + n, 1 + n + l) =~= attrs_source(attrs));
        lemma_attributes_source(s, 1 + n, attrs);
        assert(tag_close_scan(s, 1 + n + l, TagType::Start) == (TagType::Start, n + l + 2));
    }
    assert(tag_at(s, 0) == Some((t, s.len() as int)));
    assert(tokens_from(s, s.len() as int, false) == Some(Seq::<TokenModel>::empty()));
    assert(tokens_from(s, s.len() as int, t.name == crate::tokeniser::script_tag_name() && t.tag_type == TagType::Start)
        == Some(Seq::<TokenModel>::empty()));
    assert(seq![TokenModel::Tag(t)] + Seq::<TokenModel>::empty() =~= seq![TokenModel::Tag(t)]);
}

} // verus!
