//! Writes the class text of an element from its tree and metadata.
use vstd::prelude::*;
use crate::compiler_utils::{escape_quotes, escaped, replace_all_char, replace_char};
use crate::element_metadata::{ElementMetadata, ElementType, MetadataModel};
use crate::errs::{FileCompilationError, FileErrorModel};
use crate::parser::{pageroute_name, title_name, well_formed, DataModel, NodeData, NodeModel, Tree};
use crate::text::{all_white_space, chars_of, joined, lemma_joined_push, push_char, push_joined, push_text, same_text};
use crate::tokeniser::{all_white_between, script_tag_name, starts_at, AttrModel};
use crate::tokeniser_utils::{lemma_until_end, until_end, until_end_at};
use crate::tree_analysis::{
    chunks_view, compile_chunks_of, create_compile_chunks, params_view, renderables_view, ChunkModel, CompileChunk,
    ElementParameter, Renderable, RenderableModel,
};

verus! {

/// The renderables with each run of markup joined into one. Each element is
/// preceded by the markup gathered before it, even when that is empty; markup
/// left at the end is kept when it is not empty.
pub open spec fn joined_markup_prefix(rs: Seq<RenderableModel>, n: nat) -> (Seq<RenderableModel>, Seq<char>)
    decreases n,
{
    if n == 0 {
        (seq![], seq![])
    } else {
        let (out, cur) = joined_markup_prefix(rs, (n - 1) as nat);
        match rs[n - 1] {
            RenderableModel::Markup(m) => (out, cur + m),
            RenderableModel::Element { .. } => (out.push(RenderableModel::Markup(cur)).push(rs[n - 1]), seq![]),
        }
    }
}

/// The renderables with successive markup joined.
pub open spec fn joined_markup(rs: Seq<RenderableModel>) -> Seq<RenderableModel> {
    let (out, cur) = joined_markup_prefix(rs, rs.len());
    if cur.len() > 0 { out.push(RenderableModel::Markup(cur)) } else { out }
}

/// How a parameter is handed over: as a function that returns the expression, or the quoted text.
pub open spec fn param_text(p: AttrModel) -> Seq<char> {
    if p.is_dynamic {
        p.name + ":() => "@ + p.value
    } else {
        p.name + ":() => \""@ + escaped(p.value, '"', '\\') + "\""@
    }
}

/// The script expression that builds a renderable.
pub open spec fn renderable_text(r: RenderableModel) -> Seq<char> {
    match r {
        RenderableModel::Markup(v) => "new SpallMarkupRenderable(`"@ + escaped(v, '`', '\\') + "`)"@,
        RenderableModel::Element { tag_name, compiled_element_name, path, parameters } =>
            "new SpallElementRenderable(\""@ + escaped(tag_name, '"', '\\') + "\", "@ + compiled_element_name + ", \""@
                + escaped(path, '"', '\\') + "\", { "@
                + joined(parameters.map_values(|p: AttrModel| param_text(p)), ","@) + " })"@,
    }
}

/// The expressions of a list of renderables, separated by commas.
pub open spec fn renderables_text(rs: Seq<RenderableModel>) -> Seq<char> {
    joined(rs.map_values(|r: RenderableModel| renderable_text(r)), ", "@)
}

/// The statements of one chunk of the render method.
pub open spec fn chunk_text(c: ChunkModel) -> Seq<char> {
    match c {
        ChunkModel::Renderable(rs) => "__spallRenderables.push(...["@ + renderables_text(joined_markup(rs)) + "]);\n"@,
        ChunkModel::Javascript(js) => js + "\n"@,
    }
}

/// The body of the render method.
pub open spec fn render_body(chunks: Seq<ChunkModel>) -> Seq<char> {
    "var __spallRenderables = [];\n"@ + joined(chunks.map_values(|c: ChunkModel| chunk_text(c)), seq![])
        + "return __spallRenderables;"@
}

/// The inner text of the last of the first `n` nodes whose tag is `name`.
pub open spec fn last_inner_text(nodes: Seq<NodeModel>, name: Seq<char>, n: int) -> Option<Seq<char>>
    decreases n,
{
    if n <= 0 {
        None
    } else {
        match nodes[n - 1].data {
            DataModel::Markup { tag_name, inner_text, .. } => if tag_name == name {
                Some(inner_text)
            } else {
                last_inner_text(nodes, name, n - 1)
            },
            DataModel::Script(_) => last_inner_text(nodes, name, n - 1),
        }
    }
}

/// The inner texts of the first `n` nodes whose tag is `name`, in order.
pub open spec fn inner_texts(nodes: Seq<NodeModel>, name: Seq<char>, n: int) -> Seq<Seq<char>>
    decreases n,
{
    if n <= 0 {
        seq![]
    } else {
        let rest = inner_texts(nodes, name, n - 1);
        match nodes[n - 1].data {
            DataModel::Markup { tag_name, inner_text, .. } => if tag_name == name { rest.push(inner_text) } else { rest },
            DataModel::Script(_) => rest,
        }
    }
}

/// The text of an optional value, empty if there is none.
pub open spec fn or_empty(t: Option<Seq<char>>) -> Seq<char> {
    match t {
        Some(x) => x,
        None => seq![],
    }
}

/// The methods that only pages have: the title accessor.
pub open spec fn extra_methods_text(element_type: ElementType, nodes: Seq<NodeModel>) -> Seq<char> {
    match element_type {
        ElementType::Basic => seq![],
        ElementType::Page => "\n                generateTitle() {\n                    return `"@
            + escaped(or_empty(last_inner_text(nodes, title_name(), nodes.len() as int)), '`', '\\')
            + "`;\n                }"@,
    }
}

/// The text of the generated class.
pub open spec fn class_text(meta: MetadataModel, nodes: Seq<NodeModel>) -> Seq<char> {
    "\n        class "@ + meta.compiled_element_name + " extends "@ + meta.element_base_class
        + " {\n            constructor(id, parentId, spallApp, path) {\n                super('"@
        + escaped(meta.compiled_element_name, '\'', '\\') + "', id, parentId, spallApp, path);\n            }\n\n            compiledGenerateRenderables() {\n                "@
        + render_body(compile_chunks_of(nodes)) + "\n            }\n\n            "@
        + extra_methods_text(meta.element_type, nodes) + "\n\n            "@
        + or_empty(last_inner_text(nodes, script_tag_name(), nodes.len() as int)) + "\n        }\n    "@
}

/// `s[i..]` with every `${` taken out.
pub open spec fn strip_dollar_brace(s: Seq<char>, i: int) -> Seq<char>
    decreases s.len() - i,
{
    if i < 0 || i >= s.len() {
        seq![]
    } else if i + 1 < s.len() && s[i] == '$' && s[i + 1] == '{' {
        strip_dollar_brace(s, i + 2)
    } else {
        seq![s[i]] + strip_dollar_brace(s, i + 1)
    }
}

/// The sections of a route from `i` on: the runs between slashes that are not all white space.
pub open spec fn route_sections_from(s: Seq<char>, i: int) -> Seq<Seq<char>>
    decreases s.len() - i,
{
    if i < 0 || i > s.len() {
        seq![]
    } else {
        let e = until_end(s, i, seq!['/']);
        let rest = if i <= e < s.len() { route_sections_from(s, e + 1) } else { seq![] };
        if all_white_space(s.subrange(i, e)) { rest } else { seq![s.subrange(i, e)] + rest }
    }
}

/// The sections of a route.
pub open spec fn route_sections(s: Seq<char>) -> Seq<Seq<char>> {
    route_sections_from(s, 0)
}

/// The script expression that matches one route section: a parameter when the
/// section starts with `${` (the `${` and `}` taken out), else literal text.
pub open spec fn section_text(section: Seq<char>) -> Seq<char> {
    if starts_at(section, 0, seq!['$', '{']) {
        "new SpallPropertyRouteSection(\""@ + escaped(replace_char(strip_dollar_brace(section, 0), '}', seq![]), '"', '\\')
            + "\")"@
    } else {
        "new SpallStringRouteSection(\""@ + escaped(section, '"', '\\') + "\")"@
    }
}

/// The script expression of a route: the list of its sections.
pub open spec fn route_text(route: Seq<char>) -> Seq<char> {
    "["@ + joined(route_sections(route).map_values(|s: Seq<char>| section_text(s)), ", "@) + "]"@
}

/// The statement that registers `route` for the page class `element_name`.
pub open spec fn route_registration(route: Seq<char>, element_name: Seq<char>) -> Seq<char> {
    "SpallRouter.routeList.push(["@ + route_text(route) + ","@ + element_name + "]);"@
}

/// The registration statements of all routes, one per line.
pub open spec fn routes_text(routes: Seq<Seq<char>>, element_name: Seq<char>) -> Seq<char> {
    joined(routes.map_values(|r: Seq<char>| route_registration(r, element_name)), "\n"@)
}

/// The generated text of an element: its class, and for a page the registration
/// of each of its routes. A page without routes fails.
pub open spec fn tree_text(meta: MetadataModel, nodes: Seq<NodeModel>) -> Result<Seq<char>, FileErrorModel> {
    if meta.element_type == ElementType::Page {
        let routes = inner_texts(nodes, pageroute_name(), nodes.len() as int);
        if routes.len() == 0 {
            Err(FileErrorModel::NoPageRoutes)
        } else {
            Ok(class_text(meta, nodes) + routes_text(routes, meta.compiled_element_name))
        }
    } else {
        Ok(class_text(meta, nodes))
    }
}

/// Joins each run of successive markup renderables into one.
pub fn join_successive_markup_renderables(renderables: &Vec<Renderable>) -> (r: Vec<Renderable>)
    ensures
        renderables_view(r@) == joined_markup(renderables_view(renderables@)),
{
    let ghost rv = renderables_view(renderables@);
    let mut new_renderables: Vec<Renderable> = Vec::new();
    let mut crnt_markup_string = String::new();
    let mut k: usize = 0;
    assert(renderables_view(new_renderables@) =~= seq![]);
    while k < renderables.len()
        invariant
            k <= renderables.len(),
            rv == renderables_view(renderables@),
            joined_markup_prefix(rv, k as nat) == (renderables_view(new_renderables@), crnt_markup_string@),
        decreases renderables.len() - k,
    {
        let ghost before = renderables_view(new_renderables@);
        match &renderables[k] {
            Renderable::Markup(markup_string) => {
                push_text(&mut crnt_markup_string, markup_string.as_str());
            },
            Renderable::Element { .. } => {
                new_renderables.push(Renderable::Markup(crnt_markup_string));
                crnt_markup_string = String::new();
                new_renderables.push(renderables[k].duplicate());
                assert(renderables_view(new_renderables@) =~= before.push(
                    RenderableModel::Markup(joined_markup_prefix(rv, k as nat).1),
                ).push(rv[k as int]));
            },
        }
        k = k + 1;
    }
    if !crnt_markup_string.as_str().is_empty() {
        let ghost before = renderables_view(new_renderables@);
        new_renderables.push(Renderable::Markup(crnt_markup_string));
        assert(renderables_view(new_renderables@) =~= before.push(RenderableModel::Markup(joined_markup_prefix(rv, k as nat).1)));
    }
    new_renderables
}

/// Simplifies a group of renderables before it is written out.
pub fn simplify_renderables(renderables: &Vec<Renderable>) -> (r: Vec<Renderable>)
    ensures
        renderables_view(r@) == joined_markup(renderables_view(renderables@)),
{
    join_successive_markup_renderables(renderables)
}

/// Writes the parameters of an element renderable.
fn compile_parameters(parameters: &Vec<ElementParameter>) -> (r: String)
    ensures
        r@ == joined(params_view(parameters@).map_values(|p: AttrModel| param_text(p)), ","@),
{
    let ghost parts = params_view(parameters@).map_values(|p: AttrModel| param_text(p));
    let mut r = String::new();
    let mut k: usize = 0;
    while k < parameters.len()
        invariant
            k <= parameters.len(),
            parts == params_view(parameters@).map_values(|p: AttrModel| param_text(p)),
            r@ == joined(parts.subrange(0, k as int), ","@),
        decreases parameters.len() - k,
    {
        let p = &parameters[k];
        let mut text = String::new();
        push_text(&mut text, p.name.as_str());
        if p.is_dynamic {
            push_text(&mut text, ":() => ");
            push_text(&mut text, p.value.as_str());
        } else {
            push_text(&mut text, ":() => \"");
            let value = escape_quotes(p.value.as_str(), '"', '\\');
            push_text(&mut text, value.as_str());
            push_text(&mut text, "\"");
        }
        assert(text@ == parts[k as int]);
        push_joined(&mut r, k == 0, ",", text.as_str());
        proof {
            lemma_joined_push(parts.subrange(0, k as int), text@, ","@);
            assert(parts.subrange(0, k as int).push(text@) =~= parts.subrange(0, k + 1));
        }
        k = k + 1;
    }
    assert(parts.subrange(0, k as int) =~= parts);
    r
}

/// Writes a list of renderables as the expressions that build them.
pub fn compile_renderables(renderables: &Vec<Renderable>) -> (r: String)
    ensures
        r@ == renderables_text(renderables_view(renderables@)),
{
    let ghost parts = renderables_view(renderables@).map_values(|x: RenderableModel| renderable_text(x));
    let mut r = String::new();
    let mut k: usize = 0;
    while k < renderables.len()
        invariant
            k <= renderables.len(),
            parts == renderables_view(renderables@).map_values(|x: RenderableModel| renderable_text(x)),
            r@ == joined(parts.subrange(0, k as int), ", "@),
        decreases renderables.len() - k,
    {
        let mut text = String::new();
        match &renderables[k] {
            Renderable::Markup(value) => {
                push_text(&mut text, "new SpallMarkupRenderable(`");
                let e = escape_quotes(value.as_str(), '`', '\\');
                push_text(&mut text, e.as_str());
                push_text(&mut text, "`)");
            },
            Renderable::Element { tag_name, compiled_element_name, path, parameters } => {
                push_text(&mut text, "new SpallElementRenderable(\"");
                let name = escape_quotes(tag_name.as_str(), '"', '\\');
                push_text(&mut text, name.as_str());
                push_text(&mut text, "\", ");
                push_text(&mut text, compiled_element_name.as_str());
                push_text(&mut text, ", \"");
                let quoted_path = escape_quotes(path.as_str(), '"', '\\');
                push_text(&mut text, quoted_path.as_str());
                push_text(&mut text, "\", { ");
                let ps = compile_parameters(parameters);
                push_text(&mut text, ps.as_str());
                push_text(&mut text, " })");
            },
        }
        assert(text@ == parts[k as int]);
        push_joined(&mut r, k == 0, ", ", text.as_str());
        proof {
            lemma_joined_push(parts.subrange(0, k as int), text@, ", "@);
            assert(parts.subrange(0, k as int).push(text@) =~= parts.subrange(0, k + 1));
        }
        k = k + 1;
    }
    assert(parts.subrange(0, k as int) =~= parts);
    r
}

/// Writes the body of the render method from the compile chunks.
pub fn compile_chunks(chunks: &Vec<CompileChunk>) -> (r: String)
    ensures
        r@ == render_body(chunks_view(chunks@)),
{
    let ghost parts = chunks_view(chunks@).map_values(|c: ChunkModel| chunk_text(c));
    let mut body = String::new();
    let mut k: usize = 0;
    while k < chunks.len()
        invariant
            k <= chunks.len(),
            parts == chunks_view(chunks@).map_values(|c: ChunkModel| chunk_text(c)),
            body@ == joined(parts.subrange(0, k as int), seq![]),
        decreases chunks.len() - k,
    {
        let mut text = String::new();
        match &chunks[k] {
            CompileChunk::Renderable(renderables) => {
                let simple_renderables = simplify_renderables(renderables);
                let string_renderables = compile_renderables(&simple_renderables);
                push_text(&mut text, "__spallRenderables.push(...[");
                push_text(&mut text, string_renderables.as_str());
                push_text(&mut text, "]);\n");
            },
            CompileChunk::Javascript(javascript) => {
                push_text(&mut text, javascript.as_str());
                push_text(&mut text, "\n");
            },
        }
        assert(text@ == parts[k as int]);
        let ghost before = body@;
        push_text(&mut body, text.as_str());
        proof {
            lemma_joined_push(parts.subrange(0, k as int), text@, seq![]);
            assert(parts.subrange(0, k as int).push(text@) =~= parts.subrange(0, k + 1));
            assert(before + seq![] + text@ =~= before + text@);
        }
        k = k + 1;
    }
    assert(parts.subrange(0, k as int) =~= parts);
    let mut result = String::new();
    push_text(&mut result, "var __spallRenderables = [];\n");
    push_text(&mut result, body.as_str());
    push_text(&mut result, "return __spallRenderables;");
    result
}

/// The inner text of the last node whose tag is `name`, if there is one.
pub fn find_last_inner_text(tree: &Tree, name: &str) -> (r: Option<String>)
    ensures
        r matches Some(t) ==> last_inner_text(tree@, name@, tree@.len() as int) == Some(t@),
        r is None ==> last_inner_text(tree@, name@, tree@.len() as int) is None,
{
    let mut n = tree.nodes.len();
    while n > 0
        invariant
            n <= tree.nodes.len(),
            last_inner_text(tree@, name@, tree@.len() as int) == last_inner_text(tree@, name@, n as int),
        decreases n,
    {
        let node = &tree.nodes[n - 1];
        assert(tree@[n - 1] == node@);
        if let NodeData::Markup(inner_data) = &node.data {
            if same_text(inner_data.tag_name.as_str(), name) {
                return Some(inner_data.inner_text.clone());
            }
        }
        n = n - 1;
    }
    None
}

/// The inner texts of all nodes whose tag is `name`, in order.
pub fn find_inner_texts(tree: &Tree, name: &str) -> (r: Vec<String>)
    ensures
        r@.map_values(|t: String| t@) == inner_texts(tree@, name@, tree@.len() as int),
{
    let mut r: Vec<String> = Vec::new();
    let mut n: usize = 0;
    while n < tree.nodes.len()
        invariant
            n <= tree.nodes.len(),
            r@.map_values(|t: String| t@) == inner_texts(tree@, name@, n as int),
        decreases tree.nodes.len() - n,
    {
        let node = &tree.nodes[n];
        assert(tree@[n as int] == node@);
        let ghost before = r@;
        if let NodeData::Markup(inner_data) = &node.data {
            if same_text(inner_data.tag_name.as_str(), name) {
                r.push(inner_data.inner_text.clone());
            }
        }
        assert(r@.map_values(|t: String| t@) =~= inner_texts(tree@, name@, n + 1));
        n = n + 1;
    }
    r
}

/// The user-written body of the class: the text of the `script` tag, if there is one.
pub fn find_class_body(tree: &Tree) -> (r: Option<String>)
    ensures
        r matches Some(t) ==> last_inner_text(tree@, script_tag_name(), tree@.len() as int) == Some(t@),
        r is None ==> last_inner_text(tree@, script_tag_name(), tree@.len() as int) is None,
{
    proof {
        reveal_strlit("script");
        assert("script"@ =~= script_tag_name());
    }
    find_last_inner_text(tree, "script")
}

/// The methods that only pages have.
pub fn compile_extra_methods(element_type: &ElementType, tree: &Tree) -> (r: String)
    ensures
        r@ == extra_methods_text(*element_type, tree@),
{
    match *element_type {
        ElementType::Basic => String::new(),
        ElementType::Page => {
            proof {
                reveal_strlit("title");
                assert("title"@ =~= title_name());
            }
            let page_title = match find_last_inner_text(tree, "title") {
                Some(t) => t,
                None => String::new(),
            };
            let mut r = String::new();
            push_text(&mut r, "\n                generateTitle() {\n                    return `");
            let title = escape_quotes(page_title.as_str(), '`', '\\');
            push_text(&mut r, title.as_str());
            push_text(&mut r, "`;\n                }");
            r
        },
    }
}

/// Writes the sections of a route as the list expression that matches it.
pub fn compile_page_route(raw_route: &str) -> (r: String)
    ensures
        r@ == route_text(raw_route@),
{
    let v = chars_of(raw_route);
    let slash = vec!['/'];
    assert(slash@ =~= seq!['/']);
    let ghost parts = route_sections(v@).map_values(|x: Seq<char>| section_text(x));
    let ghost done: Seq<Seq<char>> = seq![];
    let mut sections = String::new();
    let mut first = true;
    let mut i: usize = 0;
    let mut more = true;
    while more
        invariant
            i <= v.len(),
            v@ == raw_route@,
            slash@ == seq!['/'],
            parts == route_sections(v@).map_values(|x: Seq<char>| section_text(x)),
            more ==> route_sections(v@) == done + route_sections_from(v@, i as int),
            !more ==> route_sections(v@) == done,
            sections@ == joined(done.map_values(|x: Seq<char>| section_text(x)), ", "@),
            first == (done.len() == 0),
        decreases v.len() - i + if more { 1int } else { 0int },
    {
        let e = until_end_at(&v, i, &slash);
        proof { lemma_until_end(v@, i as int, seq!['/']); }
        let ghost old_done = done;
        if !all_white_between(&v, i, e) {
            let text = compile_section(&v, i, e);
            push_joined(&mut sections, first, ", ", text.as_str());
            proof {
                lemma_joined_push(old_done.map_values(|x: Seq<char>| section_text(x)), text@, ", "@);
                done = old_done.push(v@.subrange(i as int, e as int));
                assert(done.map_values(|x: Seq<char>| section_text(x))
                    =~= old_done.map_values(|x: Seq<char>| section_text(x)).push(text@));
                assert(route_sections_from(v@, i as int) == seq![v@.subrange(i as int, e as int)]
                    + (if e < v.len() { route_sections_from(v@, e + 1) } else { seq![] }));
                assert(old_done + route_sections_from(v@, i as int)
                    =~= done + (if e < v.len() { route_sections_from(v@, e + 1) } else { seq![] }));
            }
            first = false;
        }
        if e < v.len() {
            i = e + 1;
        } else {
            more = false;
            assert(done + seq![] =~= done);
        }
    }
    let mut r = String::new();
    push_text(&mut r, "[");
    push_text(&mut r, sections.as_str());
    push_text(&mut r, "]");
    r
}

/// Writes one route section, `v[from..to]`.
fn compile_section(v: &Vec<char>, from: usize, to: usize) -> (r: String)
    requires
        from <= to <= v.len(),
    ensures
        r@ == section_text(v@.subrange(from as int, to as int)),
{
    let ghost sec = v@.subrange(from as int, to as int);
    let mut r = String::new();
    if to - from >= 2 && v[from] == '$' && v[from + 1] == '{' {
        assert(starts_at(sec, 0, seq!['$', '{'])) by {
            assert(sec.subrange(0, 2) =~= seq!['$', '{']);
        }
        let mut stripped = String::new();
        let mut i = from;
        while i < to
            invariant
                from <= i <= to <= v.len(),
                sec == v@.subrange(from as int, to as int),
                stripped@ + strip_dollar_brace(sec, i - from) == strip_dollar_brace(sec, 0),
            decreases to - i,
        {
            if i + 1 < to && v[i] == '$' && v[i + 1] == '{' {
                i = i + 2;
            } else {
                let ghost before = stripped@;
                push_char(&mut stripped, v[i]);
                assert(before + strip_dollar_brace(sec, i - from) =~= stripped@ + strip_dollar_brace(sec, i + 1 - from));
                i = i + 1;
            }
        }
        assert(stripped@ + seq![] =~= stripped@);
        let cleaned = replace_all_char(stripped.as_str(), '}', "");
        proof { reveal_strlit(""); assert(""@ =~= seq![]); }
        push_text(&mut r, "new SpallPropertyRouteSection(\"");
        let quoted = escape_quotes(cleaned.as_str(), '"', '\\');
        push_text(&mut r, quoted.as_str());
        push_text(&mut r, "\")");
    } else {
        assert(!starts_at(sec, 0, seq!['$', '{'])) by {
            if starts_at(sec, 0, seq!['$', '{']) {
                assert(sec.subrange(0, 2)[0] == '$');
                assert(sec.subrange(0, 2)[1] == '{');
            }
        }
        let text = crate::text::string_from(v, from, to);
        let quoted = escape_quotes(text.as_str(), '"', '\\');
        push_text(&mut r, "new SpallStringRouteSection(\"");
        push_text(&mut r, quoted.as_str());
        push_text(&mut r, "\")");
    }
    r
}

/// Writes the registration statements of all routes of a page, one per line.
pub fn compile_all_page_routes(raw_page_routes: &Vec<String>, element_name: &str) -> (r: String)
    ensures
        r@ == routes_text(raw_page_routes@.map_values(|t: String| t@), element_name@),
{
    let ghost routes = raw_page_routes@.map_values(|t: String| t@);
    let ghost parts = routes.map_values(|x: Seq<char>| route_registration(x, element_name@));
    let mut r = String::new();
    let mut k: usize = 0;
    while k < raw_page_routes.len()
        invariant
            k <= raw_page_routes.len(),
            routes == raw_page_routes@.map_values(|t: String| t@),
            parts == routes.map_values(|x: Seq<char>| route_registration(x, element_name@)),
            r@ == joined(parts.subrange(0, k as int), "\n"@),
        decreases raw_page_routes.len() - k,
    {
        let compiled_route = compile_page_route(raw_page_routes[k].as_str());
        let mut text = String::new();
        push_text(&mut text, "SpallRouter.routeList.push([");
        push_text(&mut text, compiled_route.as_str());
        push_text(&mut text, ",");
        push_text(&mut text, element_name);
        push_text(&mut text, "]);");
        assert(text@ == parts[k as int]);
        push_joined(&mut r, k == 0, "\n", text.as_str());
        proof {
            lemma_joined_push(parts.subrange(0, k as int), text@, "\n"@);
            assert(parts.subrange(0, k as int).push(text@) =~= parts.subrange(0, k + 1));
        }
        k = k + 1;
    }
    assert(parts.subrange(0, k as int) =~= parts);
    r
}

/// Writes the generated text of an element from its tree. Fails for a page
/// without any route.
pub fn compile_tree(metadata: &ElementMetadata, tree: &Tree) -> (r: Result<String, FileCompilationError>)
    requires
        well_formed(tree@),
    ensures
        r matches Ok(t) ==> tree_text(metadata@, tree@) == Ok::<Seq<char>, FileErrorModel>(t@),
        r matches Err(e) ==> tree_text(metadata@, tree@) == Err::<Seq<char>, FileErrorModel>(e@),
{
    let chunks = create_compile_chunks(tree);
    let class_body = match find_class_body(tree) {
        Some(b) => b,
        None => String::new(),
    };
    let compiled_render_func = compile_chunks(&chunks);
    let extra_methods = compile_extra_methods(&metadata.element_type, tree);
    let name = metadata.compiled_element_name.as_str();
    let mut result = String::new();
    push_text(&mut result, "\n        class ");
    push_text(&mut result, name);
    push_text(&mut result, " extends ");
    push_text(&mut result, metadata.element_base_class.as_str());
    push_text(&mut result, " {\n            constructor(id, parentId, spallApp, path) {\n                super('");
    let quoted_name = escape_quotes(name, '\'', '\\');
    push_text(&mut result, quoted_name.as_str());
    push_text(&mut result, "', id, parentId, spallApp, path);\n            }\n\n            compiledGenerateRenderables() {\n                ");
    push_text(&mut result, compiled_render_func.as_str());
    push_text(&mut result, "\n            }\n\n            ");
    push_text(&mut result, extra_methods.as_str());
    push_text(&mut result, "\n\n            ");
    push_text(&mut result, class_body.as_str());
    push_text(&mut result, "\n        }\n    ");
    assert(result@ == class_text(metadata@, tree@));
    if metadata.element_type == ElementType::Page {
        proof {
            reveal_strlit("pageroute");
            assert("pageroute"@ =~= pageroute_name());
        }
        let page_routes = find_inner_texts(tree, "pageroute");
        if page_routes.len() == 0 {
            return Err(FileCompilationError::NoPageRoutes);
        }
        let routes = compile_all_page_routes(&page_routes, name);
        push_text(&mut result, routes.as_str());
    }
    Ok(result)
}

} // verus!
