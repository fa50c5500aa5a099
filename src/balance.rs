//! Properly nested markup always builds into a tree, with one node per start
//! tag, standalone tag, inline script and wrapped text, besides the root.
use vstd::prelude::*;
use crate::parser::{
    build_prefix, close_tag_with_attributes, is_spanless, lemma_step_ok, parse_step, parse_tokens, root_model, state_ok, well_formed, DataModel, ParseState,
};
use crate::tokeniser::{TagType, TokenModel};

verus! {

/// The names of the tags left open by the first `n` tokens, while the tags nest
/// properly: a start tag opens its name, and an end tag, without attributes,
/// closes the innermost open tag, which must have the same name. `None` once an
/// end tag does not.
pub open spec fn open_tags(tokens: Seq<TokenModel>, n: nat) -> Option<Seq<Seq<char>>>
    decreases n,
{
    if n == 0 {
        Some(seq![])
    } else {
        match open_tags(tokens, (n - 1) as nat) {
            None => None,
            Some(open) => match tokens[n - 1] {
                TokenModel::Tag(t) => match t.tag_type {
                    TagType::Start => Some(open.push(t.name)),
                    TagType::Standalone => Some(open),
                    TagType::End => if t.attributes.len() == 0 && open.len() > 0 && open.last() == t.name {
                        Some(open.drop_last())
                    } else {
                        None
                    },
                },
                _ => Some(open),
            },
        }
    }
}

/// Whether the tokens nest properly and close every tag they open.
pub open spec fn balanced(tokens: Seq<TokenModel>) -> bool {
    open_tags(tokens, tokens.len()) == Some(Seq::<Seq<char>>::empty())
}

/// Whether text read while `open` are the open tags is wrapped in a span: unless
/// the innermost open tag is one of those that hold their text directly.
pub open spec fn wraps_text(open: Option<Seq<Seq<char>>>) -> bool {
    match open {
        Some(o) => !(o.len() > 0 && is_spanless(o.last())),
        None => true,
    }
}

/// The number of nodes the first `n` tokens add: one per start tag, standalone
/// tag and inline script, and one per text that is wrapped in a span.
pub open spec fn added_nodes(tokens: Seq<TokenModel>, n: nat) -> nat
    decreases n,
{
    if n == 0 {
        0
    } else {
        let prev = added_nodes(tokens, (n - 1) as nat);
        match tokens[n - 1] {
            TokenModel::Tag(t) => if t.tag_type == TagType::End { prev } else { prev + 1 },
            TokenModel::InlineJavascript(_) => prev + 1,
            TokenModel::Content(_) => if wraps_text(open_tags(tokens, (n - 1) as nat)) { prev + 1 } else { prev },
        }
    }
}

/// The build state follows the open tags: the root at the bottom of the stack,
/// then one markup node per open tag, with that tag's name.
pub open spec fn tracks(st: ParseState, open: Seq<Seq<char>>) -> bool {
    &&& state_ok(st)
    &&& st.stack.len() == open.len() + 1
    &&& st.stack[0] == 0
    &&& st.nodes[0].data == root_model().data
    &&& forall|k: int| 1 <= k < st.stack.len() ==> {
        &&& (#[trigger] st.nodes[st.stack[k]]).parent is Some
        &&& st.nodes[st.stack[k]].data matches DataModel::Markup { tag_name, .. }
        &&& tag_name == open[k - 1]
    }
}

proof fn lemma_open_tags_none(tokens: Seq<TokenModel>, n: nat, m: nat)
    requires
        n <= m,
        open_tags(tokens, n) is None,
    ensures
        open_tags(tokens, m) is None,
    decreases m - n,
{
    if n < m {
        lemma_open_tags_none(tokens, n, (m - 1) as nat);
    }
}

proof fn lemma_no_close_tag_attributes(tokens: Seq<TokenModel>, i: int)
    requires
        0 <= i <= tokens.len(),
        balanced(tokens),
    ensures
        close_tag_with_attributes(tokens, i) is None,
    decreases tokens.len() - i,
{
    if i < tokens.len() {
        if open_tags(tokens, i as nat) is None {
            lemma_open_tags_none(tokens, i as nat, tokens.len());
        }
        if open_tags(tokens, (i + 1) as nat) is None {
            lemma_open_tags_none(tokens, (i + 1) as nat, tokens.len());
        }
        lemma_no_close_tag_attributes(tokens, i + 1);
    }
}

proof fn lemma_step_tracks(st: ParseState, open: Seq<Seq<char>>, t: TokenModel)
    requires
        tracks(st, open),
        match t {
            TokenModel::Tag(tag) => tag.tag_type == TagType::End ==> open.len() > 0 && open.last() == tag.name,
            _ => true,
        },
    ensures
        parse_step(st, t) matches Ok(next) && match t {
            TokenModel::Tag(tag) => match tag.tag_type {
                TagType::Start => tracks(next, open.push(tag.name)) && next.nodes.len() == st.nodes.len() + 1,
                TagType::Standalone => tracks(next, open) && next.nodes.len() == st.nodes.len() + 1,
                TagType::End => tracks(next, open.drop_last()) && next.nodes.len() == st.nodes.len(),
            },
            TokenModel::InlineJavascript(_) => tracks(next, open) && next.nodes.len() == st.nodes.len() + 1,
            TokenModel::Content(_) => tracks(next, open)
                && next.nodes.len() == st.nodes.len() + if wraps_text(Some(open)) { 1int } else { 0int },
        },
{
    lemma_step_ok(st, t);
    let top = st.stack.last();
    assert(0 <= st.stack[st.stack.len() - 1] < st.nodes.len());
    let next = parse_step(st, t)->Ok_0;
    if open.len() > 0 {
        assert(st.nodes[st.stack[st.stack.len() - 1]].data matches DataModel::Markup { tag_name, .. } && tag_name == open.last());
    } else {
        assert(top == 0);
    }
    match t {
        TokenModel::Tag(tag) => {
            match tag.tag_type {
                TagType::Start => {
                    let o2 = open.push(tag.name);
                    assert forall|k: int| 1 <= k < next.stack.len() implies {
                        &&& (#[trigger] next.nodes[next.stack[k]]).parent is Some
                        &&& next.nodes[next.stack[k]].data matches DataModel::Markup { tag_name, .. }
                        &&& tag_name == o2[k - 1]
                    } by {
                        if k < st.stack.len() {
                            assert(next.stack[k] == st.stack[k]);
                            assert(0 <= st.stack[k] < st.nodes.len());
                        }
                    }
                },
                TagType::Standalone => {
                    assert forall|k: int| 1 <= k < next.stack.len() implies {
                        &&& (#[trigger] next.nodes[next.stack[k]]).parent is Some
                        &&& next.nodes[next.stack[k]].data matches DataModel::Markup { tag_name, .. }
                        &&& tag_name == open[k - 1]
                    } by {
                        assert(0 <= st.stack[k] < st.nodes.len());
                    }
                },
                TagType::End => {
                    let o2 = open.drop_last();
                    assert forall|k: int| 1 <= k < next.stack.len() implies {
                        &&& (#[trigger] next.nodes[next.stack[k]]).parent is Some
                        &&& next.nodes[next.stack[k]].data matches DataModel::Markup { tag_name, .. }
                        &&& tag_name == o2[k - 1]
                    } by {
                        assert(next.stack[k] == st.stack[k]);
                    }
                },
            }
        },
        TokenModel::InlineJavascript(_) => {
            assert forall|k: int| 1 <= k < next.stack.len() implies {
                &&& (#[trigger] next.nodes[next.stack[k]]).parent is Some
                &&& next.nodes[next.stack[k]].data matches DataModel::Markup { tag_name, .. }
                &&& tag_name == open[k - 1]
            } by {
                assert(0 <= st.stack[k] < st.nodes.len());
            }
        },
        TokenModel::Content(_) => {
            assert(!is_spanless(seq![])) by {
                assert(crate::tokeniser::script_tag_name().len() > 0);
                assert(crate::parser::title_name().len() > 0);
                assert(crate::parser::pageroute_name().len() > 0);
            }
            assert forall|k: int| 1 <= k < next.stack.len() implies {
                &&& (#[trigger] next.nodes[next.stack[k]]).parent is Some
                &&& next.nodes[next.stack[k]].data matches DataModel::Markup { tag_name, .. }
                &&& tag_name == open[k - 1]
            } by {
                assert(0 <= st.stack[k] < st.nodes.len());
            }
        },
    }
}

/// Properly nested markup builds without error into a tree of one root plus
/// one node per start tag, standalone tag, inline script and wrapped text.
pub proof fn lemma_balanced_parses(tokens: Seq<TokenModel>)
    requires
        balanced(tokens),
    ensures
        parse_tokens(tokens) matches Ok(nodes) && nodes.len() == 1 + added_nodes(tokens, tokens.len()),
{
    lemma_no_close_tag_attributes(tokens, 0);
    lemma_balanced_prefix(tokens, tokens.len());
}

proof fn lemma_balanced_prefix(tokens: Seq<TokenModel>, n: nat)
    requires
        n <= tokens.len(),
        balanced(tokens),
    ensures
        open_tags(tokens, n) matches Some(open) && build_prefix(tokens, n) matches Ok(st)
            && tracks(st, open) && st.nodes.len() == 1 + added_nodes(tokens, n),
    decreases n,
{
    if n == 0 {
        let st = build_prefix(tokens, 0)->Ok_0;
        assert(well_formed(st.nodes));
        assert(tracks(st, seq![]));
    } else {
        if open_tags(tokens, n) is None {
            lemma_open_tags_none(tokens, n, tokens.len());
        }
        lemma_balanced_prefix(tokens, (n - 1) as nat);
        let open = open_tags(tokens, (n - 1) as nat)->Some_0;
        let st = build_prefix(tokens, (n - 1) as nat)->Ok_0;
        lemma_step_tracks(st, open, tokens[n - 1]);
    }
}

} // verus!
