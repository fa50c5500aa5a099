use spallcomp::errs::{
    CompilationError, CssSyntaxError, FileCompilationError, MarkupSyntaxError, ProjectCompilationError, UnbalancedTag,
};
use spallcomp::tokeniser::{describe_tokens, find_javascript_type, find_tag_type, read_element, JavascriptType, TagType};

#[test]
fn markup_errors_describe_themselves() {
    let e = MarkupSyntaxError::UnbalancedTag(UnbalancedTag::UnmatchingNames {
        start_tag_name: "span".to_string(),
        end_tag_name: "p".to_string(),
    });
    assert_eq!(
        e.describe(),
        "Syntax error in markup. Unmatched tag names: opening tag was a \"span\" but closing tag was a \"p\""
    );
    assert_eq!(
        MarkupSyntaxError::AttributesOnCloseTag { tag_name: "p".to_string() }.describe(),
        "Syntax error in markup. Closing HTML tags cannot have attributes (tag name p)"
    );
    assert_eq!(
        UnbalancedTag::UnopenedEndTag { tag_name: "p".to_string() }.describe(),
        "End tag \"p\" has no matching start tag "
    );
}

#[test]
fn file_and_project_errors_describe_themselves() {
    let e = CompilationError::File {
        file_name: "Card.spall".to_string(),
        inner_error: FileCompilationError::InvalidElementName { name: "1bad".to_string() },
    };
    assert_eq!(e.describe(), "Error compiling Card.spall:\n    Element name \"1bad\" is not valid");
    assert_eq!(
        CompilationError::Project(ProjectCompilationError::NoMetaIndex).describe(),
        "Error compiling project:\n    No index.html defined in meta/ dir"
    );
    assert_eq!(
        FileCompilationError::CssSyntaxError(CssSyntaxError::UnexpectedEndOfFile).describe(),
        "Unexpected end of file"
    );
}

#[test]
fn tokens_describe_themselves() {
    let tokens = read_element("<a href=\"x\">go</a>~f()~").unwrap();
    assert_eq!(
        describe_tokens(&tokens),
        "[Start a tag with href=\"x\"] [Content: go] [End a tag] [Inline javascript: f()]"
    );
}

#[test]
fn kinds_are_classified() {
    assert_eq!(find_tag_type("</p"), TagType::End);
    assert_eq!(find_tag_type("<br/"), TagType::Standalone);
    assert_eq!(find_tag_type("<p"), TagType::Start);
    assert_eq!(find_javascript_type("if (x) {"), JavascriptType::BlockStart);
    assert_eq!(find_javascript_type("}"), JavascriptType::BlockEnd);
    assert_eq!(find_javascript_type("x = 1;"), JavascriptType::Standalone);
}
