use spallcomp::parser::{parse_element, NodeData};
use spallcomp::text_generation::{compile_chunks, compile_renderables, join_successive_markup_renderables};
use spallcomp::tokeniser::read_element;
use spallcomp::tree_analysis::{
    compile_tag_attributes, create_compile_chunks, CompileChunk, ElementParameter, Renderable,
};

#[test]
fn chunks_merge_runs_of_same_kind() {
    let tree = parse_element(&read_element("<p>a</p>~x();~~y();~<b></b>").unwrap()).unwrap();
    let chunks = create_compile_chunks(&tree);
    assert_eq!(chunks.len(), 3);
    match &chunks[0] {
        CompileChunk::Renderable(r) => assert_eq!(r.len(), 4),
        _ => panic!("expected renderables"),
    }
    match &chunks[1] {
        CompileChunk::Javascript(j) => assert_eq!(j, "x();y();"),
        _ => panic!("expected script"),
    }
    let body = compile_chunks(&chunks);
    assert!(body.starts_with("var __spallRenderables = [];\n"));
    assert!(body.ends_with("return __spallRenderables;"));
}

#[test]
fn element_paths_count_siblings() {
    let tree = parse_element(&read_element("<div><p></p><Item/></div><Other/>").unwrap()).unwrap();
    let chunks = create_compile_chunks(&tree);
    let mut paths = vec![];
    for c in &chunks {
        if let CompileChunk::Renderable(rs) = c {
            for r in rs {
                if let Renderable::Element { path, .. } = r {
                    paths.push(path.clone());
                }
            }
        }
    }
    assert_eq!(paths, vec!["0/1".to_string(), "1".to_string()]);
}

#[test]
fn markup_runs_join_around_elements() {
    let rs = vec![
        Renderable::Element {
            tag_name: "A".to_string(),
            compiled_element_name: "__SpallCompiledA".to_string(),
            path: "0".to_string(),
            parameters: vec![],
        },
        Renderable::Markup("<i>".to_string()),
        Renderable::Markup("</i>".to_string()),
    ];
    let joined = join_successive_markup_renderables(&rs);
    assert_eq!(joined.len(), 3);
    assert!(matches!(&joined[0], Renderable::Markup(m) if m.is_empty()));
    assert!(matches!(&joined[2], Renderable::Markup(m) if m == "<i></i>"));
}

#[test]
fn renderables_are_written_as_constructors() {
    let rs = vec![
        Renderable::Markup("a`b".to_string()),
        Renderable::Element {
            tag_name: "A".to_string(),
            compiled_element_name: "__SpallCompiledA".to_string(),
            path: "0/2".to_string(),
            parameters: vec![
                ElementParameter { name: "n".to_string(), value: "x + 1".to_string(), is_dynamic: true },
                ElementParameter { name: "t".to_string(), value: "hi".to_string(), is_dynamic: false },
            ],
        },
    ];
    assert_eq!(
        compile_renderables(&rs),
        "new SpallMarkupRenderable(`a\\`b`), new SpallElementRenderable(\"A\", __SpallCompiledA, \"0/2\", { n:() => x + 1,t:() => \"hi\" })"
    );
}

#[test]
fn attributes_are_written_for_markup() {
    let tree = parse_element(&read_element("<b !click=\"this.go()\" id=\"k\"></b>").unwrap()).unwrap();
    let node = tree.get_node(1);
    match &node.data {
        NodeData::Markup(m) => assert_eq!(
            compile_tag_attributes(&m.tag_attributes, ""),
            "click=\"SpallApp.instance.renderer.getElementById(${this.id}).go()\" id=\"k\""
        ),
        _ => panic!("expected markup"),
    }
}

#[test]
fn walk_enters_and_leaves_each_node() {
    let mut tree = parse_element(&read_element("<div><p></p></div>").unwrap()).unwrap();
    assert_eq!(
        tree.depth_first_map(),
        vec![(0, true), (1, true), (2, true), (2, false), (1, false), (0, false)]
    );
    tree.get_node_mut(2).children.clear();
    tree.get_root_mut().parent = None;
    assert_eq!(tree.get_root().children, vec![1]);
}
