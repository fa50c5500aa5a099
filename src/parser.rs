//! Builds the node tree of an element from its tokens.
//!
//! The tree is an arena: nodes live in one vector and refer to each other by
//! index. The root (index 0) is a synthetic markup node with an empty tag name.
use vstd::prelude::*;
use crate::errs::{MarkupErrorModel, MarkupSyntaxError, UnbalancedTag};
use crate::text::same_text;
use crate::tokeniser::{
    attrs_view, duplicate_attributes, script_tag_name, tokens_view, AttrModel, ContentToken,
    InlineJavascriptToken, TagAttribute, TagToken, TagType, Token, TokenModel,
};

verus! {

pub type NodeIndex = usize;

/// A node of the tree. The inner text of a markup node comes before its children
/// when rendered; text between children is held by `span` children instead.
#[derive(Debug)]
pub struct Node {
    pub data: NodeData,
    pub children: Vec<NodeIndex>,
    pub parent: Option<NodeIndex>,
}

/// The payload of a node.
#[derive(Debug)]
pub enum NodeData {
    Markup(NodeMarkupData),
    InlineJavascript(NodeInlineJavascriptData),
}

#[derive(Debug)]
pub struct NodeMarkupData {
    pub tag_name: String,
    pub tag_attributes: Vec<TagAttribute>,
    pub is_standalone: bool,
    pub inner_text: String,
}

#[derive(Debug)]
pub struct NodeInlineJavascriptData {
    pub value: String,
}

/// The tree of an element.
#[derive(Debug)]
pub struct Tree {
    pub nodes: Vec<Node>,
    pub root: NodeIndex,
}

/// What a node's payload holds.
pub enum DataModel {
    Markup { tag_name: Seq<char>, attributes: Seq<AttrModel>, is_standalone: bool, inner_text: Seq<char> },
    Script(Seq<char>),
}

/// What a node holds.
pub struct NodeModel {
    pub data: DataModel,
    pub children: Seq<int>,
    pub parent: Option<int>,
}

impl View for NodeData {
    type V = DataModel;

    open spec fn view(&self) -> DataModel {
        match self {
            NodeData::Markup(m) => DataModel::Markup {
                tag_name: m.tag_name@,
                attributes: attrs_view(m.tag_attributes@),
                is_standalone: m.is_standalone,
                inner_text: m.inner_text@,
            },
            NodeData::InlineJavascript(j) => DataModel::Script(j.value@),
        }
    }
}

impl View for Node {
    type V = NodeModel;

    open spec fn view(&self) -> NodeModel {
        NodeModel {
            data: self.data@,
            children: self.children@.map_values(|c: usize| c as int),
            parent: match self.parent {
                Some(p) => Some(p as int),
                None => None,
            },
        }
    }
}

/// What a list of nodes holds.
pub open spec fn nodes_view(n: Seq<Node>) -> Seq<NodeModel> {
    n.map_values(|x: Node| x@)
}

impl View for Tree {
    type V = Seq<NodeModel>;

    open spec fn view(&self) -> Seq<NodeModel> {
        nodes_view(self.nodes@)
    }
}

/// A markup node without children or parent.
pub open spec fn markup_node(tag_name: Seq<char>, attributes: Seq<AttrModel>, is_standalone: bool, inner_text: Seq<char>) -> NodeModel {
    NodeModel {
        data: DataModel::Markup { tag_name, attributes, is_standalone, inner_text },
        children: seq![],
        parent: None,
    }
}

/// The synthetic root.
pub open spec fn root_model() -> NodeModel {
    markup_node(seq![], seq![], false, seq![])
}

/// The name of the span that wraps text.
pub open spec fn span_name() -> Seq<char> {
    seq!['s', 'p', 'a', 'n']
}

/// The name of the tag that holds a page's title.
pub open spec fn title_name() -> Seq<char> {
    seq!['t', 'i', 't', 'l', 'e']
}

/// The name of the tag that holds a page's route.
pub open spec fn pageroute_name() -> Seq<char> {
    seq!['p', 'a', 'g', 'e', 'r', 'o', 'u', 't', 'e']
}

/// The tags whose text is held directly as their inner text, not in a span:
/// the class body script, the page title and the page route.
pub open spec fn is_spanless(name: Seq<char>) -> bool {
    name == script_tag_name() || name == title_name() || name == pageroute_name()
}

/// `nodes` with `n` added as the last child of `parent`.
pub open spec fn add_child(nodes: Seq<NodeModel>, parent: int, n: NodeModel) -> Seq<NodeModel> {
    let p = nodes[parent];
    nodes.update(parent, NodeModel { data: p.data, children: p.children.push(nodes.len() as int), parent: p.parent })
        .push(NodeModel { data: n.data, children: n.children, parent: Some(parent) })
}

/// Whether the nodes form a tree in the arena: the root exists and has no parent,
/// and every child comes after its parent.
pub open spec fn well_formed(nodes: Seq<NodeModel>) -> bool {
    &&& nodes.len() >= 1
    &&& nodes[0].parent is None
    &&& forall|n: int, j: int|
        0 <= n < nodes.len() && 0 <= j < nodes[n].children.len() ==> n < #[trigger] nodes[n].children[j] < nodes.len()
}

/// The state of the tree build: the nodes so far and the stack of open nodes.
pub struct ParseState {
    pub nodes: Seq<NodeModel>,
    pub stack: Seq<int>,
}

/// The build state before any token.
pub open spec fn initial_state() -> ParseState {
    ParseState { nodes: seq![root_model()], stack: seq![0] }
}

/// Whether no tag is open once the innermost one is closed: the stack left is
/// empty or holds only the root.
pub open spec fn nothing_encloses(nodes: Seq<NodeModel>, rest: Seq<int>) -> bool {
    rest.len() == 0 || nodes[rest.last()].parent is None
}

/// One step of the tree build. An end tag closes the innermost open tag; when
/// their names differ, the end tag was never opened if nothing else encloses
/// it, and the names do not match otherwise.
pub open spec fn parse_step(st: ParseState, t: TokenModel) -> Result<ParseState, MarkupErrorModel> {
    if st.stack.len() == 0 {
        Err(MarkupErrorModel::OrphanedNode)
    } else {
        let top = st.stack.last();
        match t {
            TokenModel::Tag(tag) => match tag.tag_type {
                TagType::Start => Ok(ParseState {
                    nodes: add_child(st.nodes, top, markup_node(tag.name, tag.attributes, false, seq![])),
                    stack: st.stack.push(st.nodes.len() as int),
                }),
                TagType::Standalone => Ok(ParseState {
                    nodes: add_child(st.nodes, top, markup_node(tag.name, tag.attributes, true, seq![])),
                    stack: st.stack,
                }),
                TagType::End => match st.nodes[top].data {
                    DataModel::Markup { tag_name, .. } => if tag_name != tag.name {
                        if nothing_encloses(st.nodes, st.stack.drop_last()) {
                            Err(MarkupErrorModel::UnopenedEndTag(tag.name))
                        } else {
                            Err(MarkupErrorModel::UnmatchingNames(tag_name, tag.name))
                        }
                    } else {
                        Ok(ParseState { nodes: st.nodes, stack: st.stack.drop_last() })
                    },
                    DataModel::Script(_) => Err(MarkupErrorModel::UnmatchedTokenTypes),
                },
            },
            TokenModel::Content(text) => match st.nodes[top].data {
                DataModel::Markup { tag_name, attributes, is_standalone, inner_text } => if is_spanless(tag_name) {
                    let p = st.nodes[top];
                    Ok(ParseState {
                        nodes: st.nodes.update(top, NodeModel {
                            data: DataModel::Markup { tag_name, attributes, is_standalone, inner_text: text },
                            children: p.children,
                            parent: p.parent,
                        }),
                        stack: st.stack,
                    })
                } else {
                    Ok(ParseState { nodes: add_child(st.nodes, top, markup_node(span_name(), seq![], false, text)), stack: st.stack })
                },
                DataModel::Script(_) => Ok(ParseState {
                    nodes: add_child(st.nodes, top, markup_node(span_name(), seq![], false, text)),
                    stack: st.stack,
                }),
            },
            TokenModel::InlineJavascript(js) => Ok(ParseState {
                nodes: add_child(st.nodes, top, NodeModel { data: DataModel::Script(js), children: seq![], parent: None }),
                stack: st.stack,
            }),
        }
    }
}

/// The build state after the first `n` tokens.
pub open spec fn build_prefix(tokens: Seq<TokenModel>, n: nat) -> Result<ParseState, MarkupErrorModel>
    decreases n,
{
    if n == 0 {
        Ok(initial_state())
    } else {
        match build_prefix(tokens, (n - 1) as nat) {
            Err(e) => Err(e),
            Ok(st) => parse_step(st, tokens[n - 1]),
        }
    }
}

/// The first end tag from `i` on that carries attributes, by name.
pub open spec fn close_tag_with_attributes(tokens: Seq<TokenModel>, i: int) -> Option<Seq<char>>
    decreases tokens.len() - i,
{
    if i < 0 || i >= tokens.len() {
        None
    } else {
        match tokens[i] {
            TokenModel::Tag(t) => if t.tag_type == TagType::End && t.attributes.len() > 0 {
                Some(t.name)
            } else {
                close_tag_with_attributes(tokens, i + 1)
            },
            _ => close_tag_with_attributes(tokens, i + 1),
        }
    }
}

/// The tree that `tokens` build, or the error they end in: an end tag with
/// attributes fails first; then the tokens are built into the tree in order; a
/// tag left open at the end fails.
pub open spec fn parse_tokens(tokens: Seq<TokenModel>) -> Result<Seq<NodeModel>, MarkupErrorModel> {
    match close_tag_with_attributes(tokens, 0) {
        Some(name) => Err(MarkupErrorModel::AttributesOnCloseTag(name)),
        None => match build_prefix(tokens, tokens.len()) {
            Err(e) => Err(e),
            Ok(st) => if st.stack.len() > 1 {
                match st.nodes[st.stack.last()].data {
                    DataModel::Markup { tag_name, .. } => Err(MarkupErrorModel::UnclosedStartTag(tag_name)),
                    DataModel::Script(_) => Ok(st.nodes),
                }
            } else {
                Ok(st.nodes)
            },
        },
    }
}

/// The invariant of a build state: a well-formed tree whose open nodes exist.
pub open spec fn state_ok(st: ParseState) -> bool {
    &&& well_formed(st.nodes)
    &&& forall|k: int| 0 <= k < st.stack.len() ==> 0 <= #[trigger] st.stack[k] < st.nodes.len()
}

pub proof fn lemma_add_child_well_formed(nodes: Seq<NodeModel>, parent: int, n: NodeModel)
    requires
        well_formed(nodes),
        0 <= parent < nodes.len(),
        n.children.len() == 0,
    ensures
        well_formed(add_child(nodes, parent, n)),
        add_child(nodes, parent, n).len() == nodes.len() + 1,
{
    let r = add_child(nodes, parent, n);
    assert forall|m: int, j: int| 0 <= m < r.len() && 0 <= j < r[m].children.len() implies m < #[trigger] r[m].children[j] < r.len() by {
        if m == parent {
            assert(r[m].children == nodes[parent].children.push(nodes.len() as int));
            if j < nodes[parent].children.len() {
                assert(r[m].children[j] == nodes[m].children[j]);
            }
        } else if m < nodes.len() {
            assert(r[m].children[j] == nodes[m].children[j]);
        }
    }
}

pub proof fn lemma_step_ok(st: ParseState, t: TokenModel)
    requires
        state_ok(st),
    ensures
        parse_step(st, t) matches Ok(next) ==> state_ok(next),
{
    if st.stack.len() > 0 {
        let top = st.stack.last();
        assert(0 <= st.stack[st.stack.len() - 1] < st.nodes.len());
        match t {
            TokenModel::Tag(tag) => {
                if tag.tag_type != TagType::End {
                    lemma_add_child_well_formed(st.nodes, top, markup_node(tag.name, tag.attributes, tag.tag_type == TagType::Standalone, seq![]));
                }
                if let Ok(next) = parse_step(st, t) {
                    assert forall|k: int| 0 <= k < next.stack.len() implies 0 <= #[trigger] next.stack[k] < next.nodes.len() by {
                        if k < st.stack.len() {
                            assert(next.stack[k] == st.stack[k]);
                        }
                    }
                }
            },
            TokenModel::Content(text) => {
                lemma_add_child_well_formed(st.nodes, top, markup_node(span_name(), seq![], false, text));
                if let Ok(next) = parse_step(st, t) {
                    assert(well_formed(next.nodes)) by {
                        if next.nodes.len() == st.nodes.len() {
                            assert forall|m: int, j: int| 0 <= m < next.nodes.len() && 0 <= j < next.nodes[m].children.len()
                                implies m < #[trigger] next.nodes[m].children[j] < next.nodes.len() by {
                                assert(next.nodes[m].children == st.nodes[m].children);
                            }
                        }
                    }
                }
            },
            TokenModel::InlineJavascript(js) => {
                lemma_add_child_well_formed(st.nodes, top, NodeModel { data: DataModel::Script(js), children: seq![], parent: None });
            },
        }
    }
}

impl Tree {
    /// A tree that holds only the root.
    pub fn new() -> (r: Tree)
        ensures
            r@ == seq![root_model()],
            r.root == 0,
    {
        let node = Node {
            data: NodeData::Markup(NodeMarkupData {
                tag_name: String::new(),
                tag_attributes: Vec::new(),
                is_standalone: false,
                inner_text: String::new(),
            }),
            children: Vec::new(),
            parent: None,
        };
        proof {
            let attrs: Seq<TagAttribute> = seq![];
            assert(attrs_view(attrs) =~= seq![]);
            assert(node.children@.map_values(|c: usize| c as int) =~= Seq::<int>::empty());
            assert(node@ == root_model());
        }
        let nodes = vec![node];
        let r = Tree { nodes, root: 0 };
        assert(r@ =~= seq![root_model()]);
        r
    }

    /// Adds `node` as the last child of `parent` and returns its index.
    pub fn add_node(&mut self, parent: NodeIndex, node: Node) -> (r: NodeIndex)
        requires
            parent < old(self).nodes.len(),
        ensures
            final(self)@ == add_child(old(self)@, parent as int, node@),
            final(self).root == old(self).root,
            r == old(self).nodes.len(),
    {
        let index = self.nodes.len();
        let ghost before = self@;
        let ghost given = node@;
        self.nodes[parent].children.push(index);
        let mut node = node;
        node.parent = Some(parent);
        self.nodes.push(node);
        assert(self.nodes@[parent as int].children@.map_values(|c: usize| c as int)
            =~= before[parent as int].children.push(index as int));
        assert(self@ =~= add_child(before, parent as int, given));
        index
    }

    /// The root node.
    pub fn get_root(&self) -> (r: &Node)
        requires
            self.root < self.nodes.len(),
        ensures
            r == self.nodes@[self.root as int],
    {
        &self.nodes[self.root]
    }

    /// The node at `node`.
    pub fn get_node(&self, node: NodeIndex) -> (r: &Node)
        requires
            node < self.nodes.len(),
        ensures
            r == self.nodes@[node as int],
    {
        &self.nodes[node]
    }

    /// The node at `node`, to change in place.
    pub fn get_node_mut(&mut self, node: NodeIndex) -> (r: &mut Node)
        requires
            node < old(self).nodes.len(),
        ensures
            *r == old(self).nodes@[node as int],
            final(self).nodes@ == old(self).nodes@.update(node as int, *final(r)),
            final(self).root == old(self).root,
    {
        &mut self.nodes[node]
    }

    /// The root node, to change in place.
    pub fn get_root_mut(&mut self) -> (r: &mut Node)
        requires
            old(self).root < old(self).nodes.len(),
        ensures
            *r == old(self).nodes@[old(self).root as int],
            final(self).nodes@ == old(self).nodes@.update(old(self).root as int, *final(r)),
            final(self).root == old(self).root,
    {
        &mut self.nodes[self.root]
    }

    /// The visits of a depth-first walk from the root: each node is entered
    /// (`true`), then its children are walked in order, then it is left (`false`).
    pub fn depth_first_map(&self) -> (r: Vec<(NodeIndex, bool)>)
        requires
            well_formed(self@),
            self.root == 0,
        ensures
            visits_view(r@) == subtree_visits(self@, 0),
    {
        let mut r: Vec<(NodeIndex, bool)> = Vec::new();
        self.inner_depth_first_map(self.root, &mut r);
        assert(visits_view(r@) =~= subtree_visits(self@, 0));
        r
    }

    /// Appends the visits of the walk of the subtree of `node`.
    fn inner_depth_first_map(&self, node: NodeIndex, out: &mut Vec<(NodeIndex, bool)>)
        requires
            well_formed(self@),
            node < self.nodes.len(),
        ensures
            visits_view(final(out)@) == visits_view(old(out)@) + subtree_visits(self@, node as int),
        decreases self.nodes.len() - node,
    {
        let ghost nodes = self@;
        let ghost out0 = visits_view(out@);
        out.push((node, true));
        assert(visits_view(out@) =~= out0 + seq![(node as int, true)]);
        let children = &self.nodes[node].children;
        assert(nodes[node as int].children == children@.map_values(|c: usize| c as int));
        let mut j: usize = 0;
        while j < children.len()
            invariant
                well_formed(self@),
                nodes == self@,
                node < self.nodes.len(),
                children == &self.nodes@[node as int].children,
                nodes[node as int].children == children@.map_values(|c: usize| c as int),
                j <= children.len(),
                visits_view(out@) == out0 + seq![(node as int, true)] + children_visits(nodes, node as int, j as int),
            decreases children.len() - j,
        {
            let c = children[j];
            assert(nodes[node as int].children[j as int] == c as int);
            self.inner_depth_first_map(c, out);
            j = j + 1;
            assert(visits_view(out@) =~= out0 + seq![(node as int, true)] + children_visits(nodes, node as int, j as int));
        }
        assert(j as int == nodes[node as int].children.len());
        let ghost mid = visits_view(out@);
        out.push((node, false));
        assert(visits_view(out@) =~= mid + seq![(node as int, false)]);
        assert(visits_view(out@) =~= out0 + subtree_visits(nodes, node as int));
    }
}

/// What a list of visits holds.
pub open spec fn visits_view(v: Seq<(NodeIndex, bool)>) -> Seq<(int, bool)> {
    v.map_values(|x: (NodeIndex, bool)| (x.0 as int, x.1))
}

/// The visits of a depth-first walk of the subtree of node `n`.
pub open spec fn subtree_visits(nodes: Seq<NodeModel>, n: int) -> Seq<(int, bool)>
    decreases nodes.len() - n, 1int, 0int,
{
    if 0 <= n < nodes.len() {
        seq![(n, true)] + children_visits(nodes, n, nodes[n].children.len() as int) + seq![(n, false)]
    } else {
        seq![]
    }
}

/// The visits of the walks of the subtrees of the first `j` children of node `n`.
pub open spec fn children_visits(nodes: Seq<NodeModel>, n: int, j: int) -> Seq<(int, bool)>
    decreases nodes.len() - n, 0int, j,
{
    if j <= 0 || n < 0 || n >= nodes.len() || j > nodes[n].children.len() {
        seq![]
    } else {
        let c = nodes[n].children[j - 1];
        children_visits(nodes, n, j - 1) + if n < c < nodes.len() { subtree_visits(nodes, c) } else { seq![] }
    }
}

/// What a stack of node indices holds.
pub open spec fn stack_view(s: Seq<NodeIndex>) -> Seq<int> {
    s.map_values(|x: NodeIndex| x as int)
}

/// Whether a tag name is one of those whose text is not wrapped in a span.
pub fn name_is_spanless(name: &str) -> (r: bool)
    ensures
        r == is_spanless(name@),
{
    proof {
        reveal_strlit("script");
        reveal_strlit("title");
        reveal_strlit("pageroute");
        assert("script"@ =~= script_tag_name());
        assert("title"@ =~= title_name());
        assert("pageroute"@ =~= pageroute_name());
    }
    same_text(name, "script") || same_text(name, "title") || same_text(name, "pageroute")
}

/// Fails with the first end tag that carries attributes.
pub fn check_token_syntax(tokens: &Vec<Token>) -> (r: Result<(), MarkupSyntaxError>)
    ensures
        r is Ok <==> close_tag_with_attributes(tokens_view(tokens@), 0) is None,
        r matches Err(e) ==> close_tag_with_attributes(tokens_view(tokens@), 0)
            == Some(e@->AttributesOnCloseTag_0) && e is AttributesOnCloseTag,
{
    let ghost tv = tokens_view(tokens@);
    let mut k: usize = 0;
    while k < tokens.len()
        invariant
            k <= tokens.len(),
            tv == tokens_view(tokens@),
            close_tag_with_attributes(tv, 0) == close_tag_with_attributes(tv, k as int),
        decreases tokens.len() - k,
    {
        if let Token::Tag(tag) = &tokens[k] {
            if tag.tag_type == TagType::End && tag.attributes.len() > 0 {
                return Err(MarkupSyntaxError::AttributesOnCloseTag { tag_name: tag.name.clone() });
            }
        }
        k = k + 1;
    }
    Ok(())
}

/// The build state held by a tree and a stack.
pub open spec fn state_of(tree: Tree, stack: Seq<NodeIndex>) -> ParseState {
    ParseState { nodes: tree@, stack: stack_view(stack) }
}

/// What one token does to the tree and the stack, as `parse_step` says.
pub open spec fn step_done(
    before: ParseState,
    t: TokenModel,
    tree: Tree,
    stack: Seq<NodeIndex>,
    r: Result<(), MarkupSyntaxError>,
) -> bool {
    match parse_step(before, t) {
        Ok(st) => r is Ok && state_of(tree, stack) == st && tree.root == 0,
        Err(e) => r matches Err(x) && x@ == e,
    }
}

/// Updates the tree with a tag token.
pub fn read_tag_token(tree: &mut Tree, node_stack: &mut Vec<NodeIndex>, token: &TagToken) -> (r: Result<(), MarkupSyntaxError>)
    requires
        state_ok(state_of(*old(tree), old(node_stack)@)),
        old(tree).root == 0,
    ensures
        step_done(state_of(*old(tree), old(node_stack)@), TokenModel::Tag(token@), *final(tree), final(node_stack)@, r),
{
    let ghost before = state_of(*tree, node_stack@);
    if node_stack.len() == 0 {
        return Err(MarkupSyntaxError::OrphanedNode);
    }
    let top = node_stack[node_stack.len() - 1];
    assert(0 <= before.stack[before.stack.len() - 1] < before.nodes.len());
    assert(top as int == before.stack.last());
    match token.tag_type {
        TagType::Start => {
            let node = Node {
                data: NodeData::Markup(NodeMarkupData {
                    tag_name: token.name.clone(),
                    tag_attributes: duplicate_attributes(&token.attributes),
                    is_standalone: false,
                    inner_text: String::new(),
                }),
                parent: None,
                children: Vec::new(),
            };
            assert(node.children@.map_values(|c: usize| c as int) =~= Seq::<int>::empty());
            let index = tree.add_node(top, node);
            node_stack.push(index);
            assert(stack_view(node_stack@) =~= before.stack.push(before.nodes.len() as int));
            Ok(())
        },
        TagType::Standalone => {
            let node = Node {
                data: NodeData::Markup(NodeMarkupData {
                    tag_name: token.name.clone(),
                    tag_attributes: duplicate_attributes(&token.attributes),
                    is_standalone: true,
                    inner_text: String::new(),
                }),
                parent: None,
                children: Vec::new(),
            };
            assert(node.children@.map_values(|c: usize| c as int) =~= Seq::<int>::empty());
            tree.add_node(top, node);
            Ok(())
        },
        TagType::End => {
            node_stack.pop();
            assert(stack_view(node_stack@) =~= before.stack.drop_last());
            let parent = tree.get_node(top);
            match &parent.data {
                NodeData::Markup(inner_data) => {
                    if inner_data.tag_name != token.name {
                        let enclosed = if node_stack.len() == 0 {
                            false
                        } else {
                            let outer = node_stack[node_stack.len() - 1];
                            assert(0 <= before.stack[node_stack.len() - 1] < before.nodes.len());
                            tree.get_node(outer).parent.is_some()
                        };
                        if !enclosed {
                            return Err(MarkupSyntaxError::UnbalancedTag(UnbalancedTag::UnopenedEndTag {
                                tag_name: token.name.clone(),
                            }));
                        }
                        return Err(MarkupSyntaxError::UnbalancedTag(UnbalancedTag::UnmatchingNames {
                            start_tag_name: inner_data.tag_name.clone(),
                            end_tag_name: token.name.clone(),
                        }));
                    }
                    Ok(())
                },
                NodeData::InlineJavascript(_) => Err(MarkupSyntaxError::UnmatchedTokenTypes),
            }
        },
    }
}

/// Updates the tree with a content token: the text becomes the inner text of the
/// open node if that is one of the span-less tags, else a new span child.
pub fn read_content_token(tree: &mut Tree, node_stack: &mut Vec<NodeIndex>, token: &ContentToken) -> (r: Result<(), MarkupSyntaxError>)
    requires
        state_ok(state_of(*old(tree), old(node_stack)@)),
        old(tree).root == 0,
    ensures
        step_done(state_of(*old(tree), old(node_stack)@), TokenModel::Content(token.value@), *final(tree), final(node_stack)@, r),
{
    let ghost before = state_of(*tree, node_stack@);
    if node_stack.len() == 0 {
        return Err(MarkupSyntaxError::OrphanedNode);
    }
    let parent_idx = node_stack[node_stack.len() - 1];
    assert(0 <= before.stack[before.stack.len() - 1] < before.nodes.len());
    let mut wrap_in_span = true;
    if let NodeData::Markup(inner_data) = &tree.nodes[parent_idx].data {
        wrap_in_span = !name_is_spanless(inner_data.tag_name.as_str());
    }
    if wrap_in_span {
        let node = Node {
            data: NodeData::Markup(NodeMarkupData {
                tag_name: "span".to_owned(),
                tag_attributes: Vec::new(),
                is_standalone: false,
                inner_text: token.value.clone(),
            }),
            parent: None,
            children: Vec::new(),
        };
        proof {
            reveal_strlit("span");
            assert("span"@ =~= span_name());
            let attrs: Seq<TagAttribute> = seq![];
            assert(attrs_view(attrs) =~= seq![]);
            assert(node.children@.map_values(|c: usize| c as int) =~= Seq::<int>::empty());
        }
        tree.add_node(parent_idx, node);
    } else if let NodeData::Markup(inner_data) = &mut tree.nodes[parent_idx].data {
        inner_data.inner_text = token.value.clone();
        assert(tree@ =~= before.nodes.update(parent_idx as int, tree@[parent_idx as int]));
    }
    Ok(())
}

/// Updates the tree with an inline script token: it becomes a new child.
pub fn read_javascript_token(tree: &mut Tree, node_stack: &mut Vec<NodeIndex>, token: &InlineJavascriptToken) -> (r: Result<(), MarkupSyntaxError>)
    requires
        state_ok(state_of(*old(tree), old(node_stack)@)),
        old(tree).root == 0,
    ensures
        step_done(state_of(*old(tree), old(node_stack)@), TokenModel::InlineJavascript(token.value@), *final(tree), final(node_stack)@, r),
{
    let ghost before = state_of(*tree, node_stack@);
    if node_stack.len() == 0 {
        return Err(MarkupSyntaxError::OrphanedNode);
    }
    let top = node_stack[node_stack.len() - 1];
    assert(0 <= before.stack[before.stack.len() - 1] < before.nodes.len());
    let node = Node {
        data: NodeData::InlineJavascript(NodeInlineJavascriptData { value: token.value.clone() }),
        parent: None,
        children: Vec::new(),
    };
    assert(node.children@.map_values(|c: usize| c as int) =~= Seq::<int>::empty());
    tree.add_node(top, node);
    Ok(())
}

/// Builds the tree of an element from its tokens. Fails on an end tag with
/// attributes, on start and end tags that do not pair up, and on a tag left open.
pub fn parse_element(tokens: &Vec<Token>) -> (r: Result<Tree, MarkupSyntaxError>)
    ensures
        r matches Ok(t) ==> parse_tokens(tokens_view(tokens@)) == Ok::<Seq<NodeModel>, MarkupErrorModel>(t@),
        r matches Ok(t) ==> t.root == 0 && well_formed(t@),
        r matches Err(e) ==> parse_tokens(tokens_view(tokens@)) == Err::<Seq<NodeModel>, MarkupErrorModel>(e@),
{
    let ghost tv = tokens_view(tokens@);
    check_token_syntax(tokens)?;
    let mut tree = Tree::new();
    let mut node_stack: Vec<NodeIndex> = vec![tree.root];
    proof {
        assert(stack_view(node_stack@) =~= seq![0]);
        assert(state_of(tree, node_stack@) == initial_state());
    }
    let mut k: usize = 0;
    while k < tokens.len()
        invariant
            k <= tokens.len(),
            tv == tokens_view(tokens@),
            close_tag_with_attributes(tv, 0) is None,
            tree.root == 0,
            build_prefix(tv, k as nat) == Ok::<ParseState, MarkupErrorModel>(state_of(tree, node_stack@)),
            state_ok(state_of(tree, node_stack@)),
        decreases tokens.len() - k,
    {
        let ghost before = state_of(tree, node_stack@);
        proof { lemma_step_ok(before, tv[k as int]); }
        let step = match &tokens[k] {
            Token::Tag(t) => read_tag_token(&mut tree, &mut node_stack, t),
            Token::Content(c) => read_content_token(&mut tree, &mut node_stack, c),
            Token::InlineJavascript(j) => read_javascript_token(&mut tree, &mut node_stack, j),
        };
        match step {
            Err(e) => {
                assert(build_prefix(tv, (k + 1) as nat) == parse_step(before, tv[k as int]));
                assert(build_prefix(tv, tv.len()) == Err::<ParseState, MarkupErrorModel>(e@)) by {
                    lemma_build_prefix_err(tv, (k + 1) as nat, tv.len());
                }
                return Err(e);
            },
            Ok(()) => {},
        }
        k = k + 1;
    }
    assert(build_prefix(tv, tv.len()) == Ok::<ParseState, MarkupErrorModel>(state_of(tree, node_stack@)));
    if node_stack.len() > 1 {
        let top = node_stack[node_stack.len() - 1];
        assert(0 <= stack_view(node_stack@)[node_stack@.len() - 1] < tree@.len());
        let parent = tree.get_node(top);
        match &parent.data {
            NodeData::Markup(inner_data) => {
                return Err(MarkupSyntaxError::UnbalancedTag(UnbalancedTag::UnclosedStartTag {
                    tag_name: inner_data.tag_name.clone(),
                }));
            },
            _ => (),
        }
    }
    Ok(tree)
}

/// Once the build fails, it stays failed.
pub proof fn lemma_build_prefix_err(tokens: Seq<TokenModel>, n: nat, m: nat)
    requires
        n <= m,
        build_prefix(tokens, n) is Err,
    ensures
        build_prefix(tokens, m) == build_prefix(tokens, n),
    decreases m - n,
{
    if n < m {
        lemma_build_prefix_err(tokens, n, (m - 1) as nat);
    }
}

} // verus!
