//! Turns the node tree into compile chunks: runs of literal script and groups of
//! renderables (markup text, or an element to instantiate), in depth-first order.
use vstd::prelude::*;
use crate::element_metadata::{compiled_name, generate_compiled_element_name};
use crate::parser::{
    is_spanless, name_is_spanless, well_formed, DataModel, NodeData, NodeMarkupData, NodeModel, Tree,
};
use crate::text::{
    char_is_uppercase, chars_of, decimal, decimal_text, is_uppercase, joined, lemma_joined_push,
    matches_at, push_joined, push_text, string_from,
};
use crate::tokeniser::{attrs_view, starts_at, AttrModel, TagAttribute};

verus! {

/// A parameter handed to an embedded element. A dynamic parameter holds a script
/// expression evaluated at render time, a plain one literal text.
#[derive(Debug)]
pub struct ElementParameter {
    pub name: String,
    pub value: String,
    pub is_dynamic: bool,
}

/// Something the runtime renders: literal markup, or an element to instantiate.
#[derive(Debug)]
pub enum Renderable {
    Markup(String),
    Element {
        tag_name: String,
        compiled_element_name: String,
        path: String,
        parameters: Vec<ElementParameter>,
    },
}

/// A chunk of the render method: literal script, or a group of renderables.
#[derive(Debug)]
pub enum CompileChunk {
    Javascript(String),
    Renderable(Vec<Renderable>),
}

/// What a renderable holds.
pub enum RenderableModel {
    Markup(Seq<char>),
    Element { tag_name: Seq<char>, compiled_element_name: Seq<char>, path: Seq<char>, parameters: Seq<AttrModel> },
}

/// What a chunk holds.
pub enum ChunkModel {
    Javascript(Seq<char>),
    Renderable(Seq<RenderableModel>),
}

impl View for ElementParameter {
    type V = AttrModel;

    open spec fn view(&self) -> AttrModel {
        AttrModel { name: self.name@, value: self.value@, is_dynamic: self.is_dynamic }
    }
}

/// What a list of parameters holds.
pub open spec fn params_view(p: Seq<ElementParameter>) -> Seq<AttrModel> {
    p.map_values(|x: ElementParameter| x@)
}

impl View for Renderable {
    type V = RenderableModel;

    open spec fn view(&self) -> RenderableModel {
        match self {
            Renderable::Markup(m) => RenderableModel::Markup(m@),
            Renderable::Element { tag_name, compiled_element_name, path, parameters } => RenderableModel::Element {
                tag_name: tag_name@,
                compiled_element_name: compiled_element_name@,
                path: path@,
                parameters: params_view(parameters@),
            },
        }
    }
}

/// What a list of renderables holds.
pub open spec fn renderables_view(r: Seq<Renderable>) -> Seq<RenderableModel> {
    r.map_values(|x: Renderable| x@)
}

impl View for CompileChunk {
    type V = ChunkModel;

    open spec fn view(&self) -> ChunkModel {
        match self {
            CompileChunk::Javascript(j) => ChunkModel::Javascript(j@),
            CompileChunk::Renderable(r) => ChunkModel::Renderable(renderables_view(r@)),
        }
    }
}

/// What a list of chunks holds.
pub open spec fn chunks_view(c: Seq<CompileChunk>) -> Seq<ChunkModel> {
    c.map_values(|x: CompileChunk| x@)
}

impl ElementParameter {
    /// A copy of this parameter.
    pub fn duplicate(&self) -> (r: ElementParameter)
        ensures
            r@ == self@,
    {
        ElementParameter { name: self.name.clone(), value: self.value.clone(), is_dynamic: self.is_dynamic }
    }
}

impl Renderable {
    /// A copy of this renderable.
    pub fn duplicate(&self) -> (r: Renderable)
        ensures
            r@ == self@,
    {
        match self {
            Renderable::Markup(m) => Renderable::Markup(m.clone()),
            Renderable::Element { tag_name, compiled_element_name, path, parameters } => {
                let mut ps: Vec<ElementParameter> = Vec::new();
                let mut k: usize = 0;
                while k < parameters.len()
                    invariant
                        k <= parameters.len(),
                        ps.len() == k,
                        forall|m: int| 0 <= m < k ==> (#[trigger] ps@[m])@ == parameters@[m]@,
                    decreases parameters.len() - k,
                {
                    ps.push(parameters[k].duplicate());
                    k = k + 1;
                }
                assert(params_view(ps@) =~= params_view(parameters@));
                Renderable::Element {
                    tag_name: tag_name.clone(),
                    compiled_element_name: compiled_element_name.clone(),
                    path: path.clone(),
                    parameters: ps,
                }
            },
        }
    }
}

/// The text of a node's path: its sibling indices from the root, joined with `/`.
pub open spec fn path_text(path: Seq<int>) -> Seq<char> {
    joined(path.map_values(|i: int| decimal(i as nat)), "/"@)
}

/// How an attribute is written in plain markup: `name="value"`, except that a
/// dynamic attribute whose value starts with `this.` becomes a lookup of the
/// owning element through the renderer.
pub open spec fn attr_markup(a: AttrModel) -> Seq<char> {
    if a.is_dynamic && starts_at(a.value, 0, "this."@) {
        a.name + "=\"SpallApp.instance.renderer.getElementById(${this.id})."@
            + a.value.subrange("this."@.len() as int, a.value.len() as int) + "\""@
    } else {
        a.name + "=\""@ + a.value + "\""@
    }
}

/// How a list of attributes is written in plain markup, separated by spaces.
pub open spec fn attrs_markup(attrs: Seq<AttrModel>) -> Seq<char> {
    joined(attrs.map_values(|a: AttrModel| attr_markup(a)), " "@)
}

/// Whether a tag name names an embedded element: its first character is uppercase.
pub open spec fn names_element(name: Seq<char>) -> bool {
    name.len() > 0 && is_uppercase(name[0])
}

/// What visiting a markup node emits, on entry or on exit. The metadata tags
/// emit nothing; an element emits itself on entry; plain markup emits its
/// opening tag and inner text on entry and its closing tag on exit (a
/// standalone tag emits one self-closing tag on entry). `path` is the node's
/// path, used on entry.
pub open spec fn visit_renderable(
    tag_name: Seq<char>,
    attributes: Seq<AttrModel>,
    is_standalone: bool,
    inner_text: Seq<char>,
    is_entering: bool,
    path: Seq<char>,
) -> Option<RenderableModel> {
    if is_spanless(tag_name) {
        None
    } else if names_element(tag_name) {
        if is_entering {
            Some(RenderableModel::Element {
                tag_name,
                compiled_element_name: compiled_name(tag_name),
                path,
                parameters: attributes,
            })
        } else {
            None
        }
    } else if is_standalone {
        if is_entering {
            Some(RenderableModel::Markup("<"@ + tag_name + " "@ + attrs_markup(attributes) + "/>"@))
        } else {
            None
        }
    } else if is_entering {
        Some(RenderableModel::Markup("<"@ + tag_name + " "@ + attrs_markup(attributes) + ">"@ + inner_text))
    } else {
        Some(RenderableModel::Markup("</"@ + tag_name + ">"@))
    }
}

/// The chunks emitted on entering a node at `path`.
pub open spec fn entry_chunks(node: NodeModel, path: Seq<int>) -> Seq<ChunkModel> {
    match node.data {
        DataModel::Markup { tag_name, attributes, is_standalone, inner_text } =>
            match visit_renderable(tag_name, attributes, is_standalone, inner_text, true, path_text(path)) {
                Some(r) => seq![ChunkModel::Renderable(seq![r])],
                None => seq![],
            },
        DataModel::Script(js) => seq![ChunkModel::Javascript(js)],
    }
}

/// The chunks emitted on leaving a node.
pub open spec fn exit_chunks(node: NodeModel) -> Seq<ChunkModel> {
    match node.data {
        DataModel::Markup { tag_name, attributes, is_standalone, inner_text } =>
            match visit_renderable(tag_name, attributes, is_standalone, inner_text, false, seq![]) {
                Some(r) => seq![ChunkModel::Renderable(seq![r])],
                None => seq![],
            },
        DataModel::Script(_) => seq![],
    }
}

/// The chunks of the subtree of node `n`, whose path is `path`.
pub open spec fn subtree_chunks(nodes: Seq<NodeModel>, n: int, path: Seq<int>) -> Seq<ChunkModel>
    decreases nodes.len() - n, 1int, 0int,
{
    if 0 <= n < nodes.len() {
        entry_chunks(nodes[n], path) + children_chunks(nodes, n, path, nodes[n].children.len() as int)
            + exit_chunks(nodes[n])
    } else {
        seq![]
    }
}

/// The chunks of the subtrees of the first `j` children of node `n`.
pub open spec fn children_chunks(nodes: Seq<NodeModel>, n: int, path: Seq<int>, j: int) -> Seq<ChunkModel>
    decreases nodes.len() - n, 0int, j,
{
    if j <= 0 || n < 0 || n >= nodes.len() || j > nodes[n].children.len() {
        seq![]
    } else {
        let c = nodes[n].children[j - 1];
        children_chunks(nodes, n, path, j - 1) + if n < c < nodes.len() {
            subtree_chunks(nodes, c, path.push(j - 1))
        } else {
            seq![]
        }
    }
}

/// The chunks of a tree, before merging: those of every node but the root, in
/// depth-first order.
pub open spec fn tree_chunks(nodes: Seq<NodeModel>) -> Seq<ChunkModel> {
    children_chunks(nodes, 0, seq![], nodes[0].children.len() as int)
}

/// Writes the attributes of a plain markup tag.
pub fn compile_tag_attributes(tag_attributes: &Vec<TagAttribute>, _tag_path: &str) -> (r: String)
    ensures
        r@ == attrs_markup(attrs_view(tag_attributes@)),
{
    let this_prefix = chars_of("this.");
    proof { reveal_strlit("this."); }
    let ghost parts = attrs_view(tag_attributes@).map_values(|a: AttrModel| attr_markup(a));
    let mut r = String::new();
    let mut k: usize = 0;
    while k < tag_attributes.len()
        invariant
            k <= tag_attributes.len(),
            this_prefix@ == "this."@,
            "this."@.len() == 5,
            parts == attrs_view(tag_attributes@).map_values(|a: AttrModel| attr_markup(a)),
            r@ == joined(parts.subrange(0, k as int), " "@),
        decreases tag_attributes.len() - k,
    {
        let x = &tag_attributes[k];
        let mut text = String::new();
        let value = chars_of(x.value.as_str());
        if x.is_dynamic && matches_at(&value, 0, &this_prefix) {
            let rest = string_from(&value, 5, value.len());
            push_text(&mut text, x.name.as_str());
            push_text(&mut text, "=\"SpallApp.instance.renderer.getElementById(${this.id}).");
            push_text(&mut text, rest.as_str());
            push_text(&mut text, "\"");
        } else {
            push_text(&mut text, x.name.as_str());
            push_text(&mut text, "=\"");
            push_text(&mut text, x.value.as_str());
            push_text(&mut text, "\"");
        }
        assert(text@ == parts[k as int]);
        push_joined(&mut r, k == 0, " ", text.as_str());
        proof {
            lemma_joined_push(parts.subrange(0, k as int), text@, " "@);
            assert(parts.subrange(0, k as int).push(text@) =~= parts.subrange(0, k + 1));
        }
        k = k + 1;
    }
    assert(parts.subrange(0, k as int) =~= parts);
    r
}

/// What a path of sibling indices holds.
pub open spec fn path_view(p: Seq<usize>) -> Seq<int> {
    p.map_values(|x: usize| x as int)
}

/// Writes a path as its sibling indices joined with `/`.
pub fn path_string(path: &Vec<usize>) -> (r: String)
    ensures
        r@ == path_text(path_view(path@)),
{
    let ghost parts = path_view(path@).map_values(|i: int| decimal(i as nat));
    let mut r = String::new();
    let mut k: usize = 0;
    while k < path.len()
        invariant
            k <= path.len(),
            parts == path_view(path@).map_values(|i: int| decimal(i as nat)),
            r@ == joined(parts.subrange(0, k as int), "/"@),
        decreases path.len() - k,
    {
        let d = decimal_text(path[k]);
        assert(d@ == parts[k as int]);
        push_joined(&mut r, k == 0, "/", d.as_str());
        proof {
            lemma_joined_push(parts.subrange(0, k as int), d@, "/"@);
            assert(parts.subrange(0, k as int).push(d@) =~= parts.subrange(0, k + 1));
        }
        k = k + 1;
    }
    assert(parts.subrange(0, k as int) =~= parts);
    r
}

/// What visiting a markup node emits (see `visit_renderable`).
pub fn renderable_from_node_visit(node_data: &NodeMarkupData, is_entering: bool, path: &str) -> (r: Option<Renderable>)
    ensures
        r matches Some(x) ==> visit_renderable(node_data.tag_name@, attrs_view(node_data.tag_attributes@),
            node_data.is_standalone, node_data.inner_text@, is_entering, path@) == Some(x@),
        r is None ==> visit_renderable(node_data.tag_name@, attrs_view(node_data.tag_attributes@),
            node_data.is_standalone, node_data.inner_text@, is_entering, path@) is None,
{
    if name_is_spanless(node_data.tag_name.as_str()) {
        return None;
    }
    let name = chars_of(node_data.tag_name.as_str());
    let is_element = name.len() > 0 && char_is_uppercase(name[0]);
    if is_element {
        if is_entering {
            let mut parameters: Vec<ElementParameter> = Vec::new();
            let mut k: usize = 0;
            while k < node_data.tag_attributes.len()
                invariant
                    k <= node_data.tag_attributes.len(),
                    parameters.len() == k,
                    forall|m: int| 0 <= m < k ==> (#[trigger] parameters@[m])@ == node_data.tag_attributes@[m]@,
                decreases node_data.tag_attributes.len() - k,
            {
                let a = &node_data.tag_attributes[k];
                parameters.push(ElementParameter { name: a.name.clone(), value: a.value.clone(), is_dynamic: a.is_dynamic });
                k = k + 1;
            }
            assert(params_view(parameters@) =~= attrs_view(node_data.tag_attributes@));
            Some(Renderable::Element {
                tag_name: node_data.tag_name.clone(),
                compiled_element_name: generate_compiled_element_name(node_data.tag_name.as_str()),
                path: path.to_owned(),
                parameters,
            })
        } else {
            None
        }
    } else {
        let tag_attributes = compile_tag_attributes(&node_data.tag_attributes, path);
        let mut markup = String::new();
        if node_data.is_standalone {
            if !is_entering {
                return None;
            }
            push_text(&mut markup, "<");
            push_text(&mut markup, node_data.tag_name.as_str());
            push_text(&mut markup, " ");
            push_text(&mut markup, tag_attributes.as_str());
            push_text(&mut markup, "/>");
        } else if is_entering {
            push_text(&mut markup, "<");
            push_text(&mut markup, node_data.tag_name.as_str());
            push_text(&mut markup, " ");
            push_text(&mut markup, tag_attributes.as_str());
            push_text(&mut markup, ">");
            push_text(&mut markup, node_data.inner_text.as_str());
        } else {
            push_text(&mut markup, "</");
            push_text(&mut markup, node_data.tag_name.as_str());
            push_text(&mut markup, ">");
        }
        Some(Renderable::Markup(markup))
    }
}

/// Appends the chunks of the subtree of node `n`, whose path is `path`.
fn collect_subtree(tree: &Tree, n: usize, path: &mut Vec<usize>, out: &mut Vec<CompileChunk>)
    requires
        well_formed(tree@),
        n < tree.nodes.len(),
    ensures
        chunks_view(final(out)@) == chunks_view(old(out)@) + subtree_chunks(tree@, n as int, path_view(old(path)@)),
        final(path)@ == old(path)@,
    decreases tree.nodes.len() - n, 1int,
{
    let ghost nodes = tree@;
    let ghost out0 = chunks_view(out@);
    let ghost p = path_view(path@);
    let node = &tree.nodes[n];
    assert(nodes[n as int] == node@);
    match &node.data {
        NodeData::Markup(inner) => {
            let text = path_string(path);
            match renderable_from_node_visit(inner, true, text.as_str()) {
                Some(r) => {
                    let group = vec![r];
                    assert(renderables_view(group@) =~= seq![r@]);
                    out.push(CompileChunk::Renderable(group));
                },
                None => {},
            }
        },
        NodeData::InlineJavascript(js) => {
            out.push(CompileChunk::Javascript(js.value.clone()));
        },
    }
    assert(chunks_view(out@) =~= out0 + entry_chunks(nodes[n as int], p));
    let ghost mid = chunks_view(out@);
    collect_children(tree, n, path, out);
    let ghost mid2 = chunks_view(out@);
    match &node.data {
        NodeData::Markup(inner) => {
            match renderable_from_node_visit(inner, false, "") {
                Some(r) => {
                    let group = vec![r];
                    assert(renderables_view(group@) =~= seq![r@]);
                    out.push(CompileChunk::Renderable(group));
                },
                None => {},
            }
        },
        NodeData::InlineJavascript(_) => {},
    }
    proof { reveal_strlit(""); }
    assert(chunks_view(out@) =~= mid2 + exit_chunks(nodes[n as int]));
    assert(chunks_view(out@) =~= out0 + subtree_chunks(nodes, n as int, p));
}

/// Appends the chunks of the subtrees of the children of node `n`, whose path is `path`.
fn collect_children(tree: &Tree, n: usize, path: &mut Vec<usize>, out: &mut Vec<CompileChunk>)
    requires
        well_formed(tree@),
        n < tree.nodes.len(),
    ensures
        chunks_view(final(out)@) == chunks_view(old(out)@)
            + children_chunks(tree@, n as int, path_view(old(path)@), tree@[n as int].children.len() as int),
        final(path)@ == old(path)@,
    decreases tree.nodes.len() - n, 0int,
{
    let ghost nodes = tree@;
    let ghost out0 = chunks_view(out@);
    let ghost p0 = path@;
    let children = &tree.nodes[n].children;
    assert(nodes[n as int].children == children@.map_values(|c: usize| c as int));
    let mut j: usize = 0;
    while j < children.len()
        invariant
            well_formed(tree@),
            nodes == tree@,
            n < tree.nodes.len(),
            children == &tree.nodes@[n as int].children,
            nodes[n as int].children == children@.map_values(|c: usize| c as int),
            j <= children.len(),
            path@ == p0,
            chunks_view(out@) == out0 + children_chunks(nodes, n as int, path_view(p0), j as int),
        decreases children.len() - j,
    {
        let c = children[j];
        assert(nodes[n as int].children[j as int] == c as int);
        assert(n < c < tree.nodes.len());
        let ghost before = chunks_view(out@);
        path.push(j);
        assert(path_view(path@) =~= path_view(p0).push(j as int));
        collect_subtree(tree, c, path, out);
        path.pop();
        assert(path@ =~= p0);
        j = j + 1;
        assert(chunks_view(out@) =~= out0 + children_chunks(nodes, n as int, path_view(p0), j as int));
    }
}

/// The chunks of a tree, before merging, in depth-first order; the root emits nothing.
pub fn compile_chunks_from_tree(tree: &Tree) -> (r: Vec<CompileChunk>)
    requires
        well_formed(tree@),
    ensures
        chunks_view(r@) == tree_chunks(tree@),
{
    let mut chunks: Vec<CompileChunk> = Vec::new();
    let mut path: Vec<usize> = Vec::new();
    assert(path_view(path@) =~= seq![]);
    collect_children(tree, 0, &mut path, &mut chunks);
    assert(chunks_view(chunks@) =~= tree_chunks(tree@));
    chunks
}

/// The state of merging chunks: the finished chunks, the renderables and the
/// script text gathered since.
pub struct MergeState {
    pub done: Seq<ChunkModel>,
    pub markup: Seq<RenderableModel>,
    pub script: Seq<char>,
}

/// One step of merging: a group of renderables closes the script run gathered so
/// far (if not empty) and joins the current group; script text closes the
/// current group (if not empty) and joins the current script run.
pub open spec fn merge_step(st: MergeState, c: ChunkModel) -> MergeState {
    match c {
        ChunkModel::Renderable(rs) => if st.script.len() > 0 {
            MergeState { done: st.done.push(ChunkModel::Javascript(st.script)), markup: st.markup + rs, script: seq![] }
        } else {
            MergeState { done: st.done, markup: st.markup + rs, script: st.script }
        },
        ChunkModel::Javascript(js) => if st.markup.len() > 0 {
            MergeState { done: st.done.push(ChunkModel::Renderable(st.markup)), markup: seq![], script: st.script + js }
        } else {
            MergeState { done: st.done, markup: st.markup, script: st.script + js }
        },
    }
}

/// The merge state after the first `n` chunks.
pub open spec fn merge_prefix(chunks: Seq<ChunkModel>, n: nat) -> MergeState
    decreases n,
{
    if n == 0 {
        MergeState { done: seq![], markup: seq![], script: seq![] }
    } else {
        merge_step(merge_prefix(chunks, (n - 1) as nat), chunks[n - 1])
    }
}

/// The chunks once merging is done: the finished ones, then what is left of the
/// script run, then what is left of the group.
pub open spec fn merge_finish(st: MergeState) -> Seq<ChunkModel> {
    st.done + (if st.script.len() > 0 { seq![ChunkModel::Javascript(st.script)] } else { seq![] })
        + (if st.markup.len() > 0 { seq![ChunkModel::Renderable(st.markup)] } else { seq![] })
}

/// The chunks with each run of the same kind merged into one.
pub open spec fn merged_chunks(chunks: Seq<ChunkModel>) -> Seq<ChunkModel> {
    merge_finish(merge_prefix(chunks, chunks.len()))
}

/// A copy of a list of renderables.
pub fn duplicate_renderables(rs: &Vec<Renderable>) -> (r: Vec<Renderable>)
    ensures
        renderables_view(r@) == renderables_view(rs@),
{
    let mut r: Vec<Renderable> = Vec::new();
    let mut k: usize = 0;
    while k < rs.len()
        invariant
            k <= rs.len(),
            r.len() == k,
            forall|m: int| 0 <= m < k ==> (#[trigger] r@[m])@ == rs@[m]@,
        decreases rs.len() - k,
    {
        r.push(rs[k].duplicate());
        k = k + 1;
    }
    assert(renderables_view(r@) =~= renderables_view(rs@));
    r
}

/// Merges each run of chunks of the same kind into one chunk.
pub fn concat_successive_compile_chunks(chunks: &Vec<CompileChunk>) -> (r: Vec<CompileChunk>)
    ensures
        chunks_view(r@) == merged_chunks(chunks_view(chunks@)),
{
    let ghost cv = chunks_view(chunks@);
    let mut crnt_renderable_values: Vec<Renderable> = Vec::new();
    let mut crnt_javascript_value = String::new();
    let mut result: Vec<CompileChunk> = Vec::new();
    let mut k: usize = 0;
    proof {
        assert(chunks_view(result@) =~= seq![]);
        assert(renderables_view(crnt_renderable_values@) =~= seq![]);
    }
    while k < chunks.len()
        invariant
            k <= chunks.len(),
            cv == chunks_view(chunks@),
            merge_prefix(cv, k as nat) == (MergeState {
                done: chunks_view(result@),
                markup: renderables_view(crnt_renderable_values@),
                script: crnt_javascript_value@,
            }),
        decreases chunks.len() - k,
    {
        match &chunks[k] {
            CompileChunk::Renderable(renderables) => {
                if !crnt_javascript_value.as_str().is_empty() {
                    result.push(CompileChunk::Javascript(crnt_javascript_value));
                    crnt_javascript_value = String::new();
                }
                let mut more = duplicate_renderables(renderables);
                let ghost before = renderables_view(crnt_renderable_values@);
                crnt_renderable_values.append(&mut more);
                assert(renderables_view(crnt_renderable_values@) =~= before + renderables_view(renderables@));
            },
            CompileChunk::Javascript(javascript) => {
                if crnt_renderable_values.len() > 0 {
                    result.push(CompileChunk::Renderable(crnt_renderable_values));
                    crnt_renderable_values = Vec::new();
                }
                push_text(&mut crnt_javascript_value, javascript.as_str());
            },
        }
        proof {
            assert(renderables_view(Seq::<Renderable>::empty()) =~= seq![]);
        }
        k = k + 1;
        assert(chunks_view(result@) == merge_prefix(cv, k as nat).done);
    }
    assert(cv.len() == k);
    if !crnt_javascript_value.as_str().is_empty() {
        result.push(CompileChunk::Javascript(crnt_javascript_value));
    }
    if crnt_renderable_values.len() > 0 {
        result.push(CompileChunk::Renderable(crnt_renderable_values));
    }
    assert(chunks_view(result@) =~= merged_chunks(cv));
    result
}

/// The chunks of a tree: those of its nodes in depth-first order, each run of
/// the same kind merged into one.
pub open spec fn compile_chunks_of(nodes: Seq<NodeModel>) -> Seq<ChunkModel> {
    merged_chunks(tree_chunks(nodes))
}

/// Turns a tree into its compile chunks.
pub fn create_compile_chunks(tree: &Tree) -> (r: Vec<CompileChunk>)
    requires
        well_formed(tree@),
    ensures
        chunks_view(r@) == compile_chunks_of(tree@),
{
    let chunks = compile_chunks_from_tree(tree);
    concat_successive_compile_chunks(&chunks)
}

/// Whether no chunk is empty: no script chunk without text, no group without renderables.
pub open spec fn no_empty_chunks(cs: Seq<ChunkModel>) -> bool {
    forall|i: int| 0 <= i < cs.len() ==> match #[trigger] cs[i] {
        ChunkModel::Javascript(j) => j.len() > 0,
        ChunkModel::Renderable(r) => r.len() > 0,
    }
}

/// Whether script chunks and groups of renderables take turns.
pub open spec fn alternating(cs: Seq<ChunkModel>) -> bool {
    forall|i: int| 0 <= i < cs.len() - 1 ==> (#[trigger] cs[i] is Javascript) != (cs[i + 1] is Javascript)
}

/// What holds of the merge state between steps when no input chunk is empty.
pub open spec fn merge_ok(st: MergeState) -> bool {
    &&& no_empty_chunks(st.done)
    &&& alternating(st.done)
    &&& !(st.markup.len() > 0 && st.script.len() > 0)
    &&& (st.markup.len() == 0 && st.script.len() == 0 ==> st.done.len() == 0)
    &&& (st.markup.len() > 0 && st.done.len() > 0 ==> st.done.last() is Javascript)
    &&& (st.script.len() > 0 && st.done.len() > 0 ==> st.done.last() is Renderable)
}

proof fn lemma_merge_prefix_ok(chunks: Seq<ChunkModel>, n: nat)
    requires
        n <= chunks.len(),
        no_empty_chunks(chunks),
    ensures
        merge_ok(merge_prefix(chunks, n)),
    decreases n,
{
    if n > 0 {
        lemma_merge_prefix_ok(chunks, (n - 1) as nat);
        let st = merge_prefix(chunks, (n - 1) as nat);
        let next = merge_prefix(chunks, n);
        let c = chunks[n - 1];
        assert(match c {
            ChunkModel::Javascript(j) => j.len() > 0,
            ChunkModel::Renderable(r) => r.len() > 0,
        });
        assert(no_empty_chunks(next.done)) by {
            assert forall|i: int| 0 <= i < next.done.len() implies match #[trigger] next.done[i] {
                ChunkModel::Javascript(j) => j.len() > 0,
                ChunkModel::Renderable(r) => r.len() > 0,
            } by {
                if i < st.done.len() {
                    assert(next.done[i] == st.done[i]);
                }
            }
        }
        assert(alternating(next.done)) by {
            assert forall|i: int| 0 <= i < next.done.len() - 1 implies
                (#[trigger] next.done[i] is Javascript) != (next.done[i + 1] is Javascript) by {
                if i + 1 < st.done.len() {
                    assert(next.done[i] == st.done[i]);
                    assert(next.done[i + 1] == st.done[i + 1]);
                } else {
                    assert(next.done[i] == st.done.last());
                }
            }
        }
    }
}

/// Merging chunks none of which is empty gives chunks none of which is empty,
/// where script and renderables take turns: no two neighbours are of one kind.
pub proof fn lemma_merged_chunks_alternate(chunks: Seq<ChunkModel>)
    requires
        no_empty_chunks(chunks),
    ensures
        no_empty_chunks(merged_chunks(chunks)),
        alternating(merged_chunks(chunks)),
{
    lemma_merge_prefix_ok(chunks, chunks.len());
    let st = merge_prefix(chunks, chunks.len());
    let r = merged_chunks(chunks);
    assert(no_empty_chunks(r)) by {
        assert forall|i: int| 0 <= i < r.len() implies match #[trigger] r[i] {
            ChunkModel::Javascript(j) => j.len() > 0,
            ChunkModel::Renderable(rs) => rs.len() > 0,
        } by {
            if i < st.done.len() {
                assert(r[i] == st.done[i]);
            }
        }
    }
    assert(alternating(r)) by {
        assert forall|i: int| 0 <= i < r.len() - 1 implies (#[trigger] r[i] is Javascript) != (r[i + 1] is Javascript) by {
            if i + 1 < st.done.len() {
                assert(r[i] == st.done[i]);
                assert(r[i + 1] == st.done[i + 1]);
            } else {
                assert(r[i] == st.done.last());
            }
        }
    }
}

} // verus!
