use spallcomp::errs::{MarkupSyntaxError, UnbalancedTag};
use spallcomp::parser::{parse_element, NodeData, Tree};
use spallcomp::tokeniser::read_element;

fn parse(text: &str) -> Result<Tree, MarkupSyntaxError> {
    parse_element(&read_element(text).unwrap())
}

fn tag_name(tree: &Tree, index: usize) -> String {
    match &tree.get_node(index).data {
        NodeData::Markup(m) => m.tag_name.clone(),
        NodeData::InlineJavascript(_) => panic!("expected markup"),
    }
}

#[test]
fn round_trip_paragraph_tree() {
    let tree = parse("<p>hello</p>").unwrap();
    assert_eq!(tree.nodes.len(), 3);
    let root = tree.get_root();
    assert_eq!(root.children, vec![1]);
    assert_eq!(tag_name(&tree, 1), "p");
    assert_eq!(tree.get_node(1).children, vec![2]);
    match &tree.get_node(2).data {
        NodeData::Markup(m) => {
            assert_eq!(m.tag_name, "span");
            assert_eq!(m.inner_text, "hello");
        }
        NodeData::InlineJavascript(_) => panic!("expected a span"),
    }
    assert_eq!(tree.get_node(2).parent, Some(1));
}

#[test]
fn unbalanced_markup_names_both_tags() {
    let err = parse("<p><span></p>").err().unwrap();
    assert_eq!(
        err,
        MarkupSyntaxError::UnbalancedTag(UnbalancedTag::UnmatchingNames {
            start_tag_name: "span".to_string(),
            end_tag_name: "p".to_string(),
        })
    );
}

#[test]
fn unclosed_start_tag_is_reported() {
    let err = parse("<div><p></p>").err().unwrap();
    assert_eq!(
        err,
        MarkupSyntaxError::UnbalancedTag(UnbalancedTag::UnclosedStartTag { tag_name: "div".to_string() })
    );
}

#[test]
fn unopened_end_tag_is_reported() {
    let err = parse("</p>").err().unwrap();
    assert_eq!(err, MarkupSyntaxError::UnbalancedTag(UnbalancedTag::UnopenedEndTag { tag_name: "p".to_string() }));
}

#[test]
fn close_tag_with_attributes_is_rejected() {
    let err = parse("<p></p class=\"x\">").err().unwrap();
    assert_eq!(err, MarkupSyntaxError::AttributesOnCloseTag { tag_name: "p".to_string() });
}

#[test]
fn orphaned_node_after_root_is_closed() {
    let err = parse("</><p></p>").err().unwrap();
    assert_eq!(err, MarkupSyntaxError::OrphanedNode);
}

#[test]
fn spanless_tags_hold_their_text() {
    let tree = parse("<title>Home</title><pageroute>/home</pageroute>").unwrap();
    assert_eq!(tree.nodes.len(), 3);
    match &tree.get_node(1).data {
        NodeData::Markup(m) => assert_eq!(m.inner_text, "Home"),
        NodeData::InlineJavascript(_) => panic!("expected markup"),
    }
    assert!(tree.get_node(1).children.is_empty());
}

#[test]
fn balanced_markup_counts_nodes() {
    let tree = parse("<div><img/>text~go()~<b>x</b></div>").unwrap();
    // root, div, img, span, inline script, b, span
    assert_eq!(tree.nodes.len(), 7);
}

#[test]
fn new_tree_holds_root() {
    let mut tree = Tree::new();
    assert_eq!(tree.nodes.len(), 1);
    assert_eq!(tree.root, 0);
    assert_eq!(tag_name(&tree, 0), "");
    let child = spallcomp::parser::Node {
        data: NodeData::InlineJavascript(spallcomp::parser::NodeInlineJavascriptData { value: "x".to_string() }),
        children: vec![],
        parent: None,
    };
    assert_eq!(tree.add_node(0, child), 1);
    assert_eq!(tree.get_node(1).parent, Some(0));
    assert_eq!(tree.get_root().children, vec![1]);
}

#[test]
fn end_tag_with_nothing_else_open_was_never_opened() {
    let err = parse("<div></p>").err().unwrap();
    assert_eq!(err, MarkupSyntaxError::UnbalancedTag(UnbalancedTag::UnopenedEndTag { tag_name: "p".to_string() }));
    let err = parse("<a><div></p></a>").err().unwrap();
    assert_eq!(
        err,
        MarkupSyntaxError::UnbalancedTag(UnbalancedTag::UnmatchingNames {
            start_tag_name: "div".to_string(),
            end_tag_name: "p".to_string(),
        })
    );
}
