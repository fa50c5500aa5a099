use spallcomp::css_compiler::compile_scoped_css;
use spallcomp::css_tokeniser::{read_all_css_properties, read_css_property, read_selectors, tokenise_css, CssToken};
use spallcomp::errs::{CssSyntaxError, FileCompilationError};

#[test]
fn test_read_selectors() {
    let (tokens, len) = read_selectors(".main, .big {").unwrap();
    assert_eq!(tokens.len(), 4);
    assert_eq!(len, 13);

    let (tokens, _) = read_selectors("{").unwrap();
    assert_eq!(tokens.len(), 1);

    let result = read_selectors(".main, .big");
    assert_eq!(result.is_err(), true);
}

#[test]
fn test_read_all_css_properties() {
    let (tokens, len) = read_all_css_properties("}aaaa").unwrap();
    assert_eq!(tokens.len(), 1);
    assert_eq!(len, 1);

    let (tokens, len) = read_all_css_properties("color: red; }aaa").unwrap();
    assert_eq!(tokens.len(), 5);
    assert_eq!(len, 13);

    let (tokens, len) = read_all_css_properties("color: red; background: blue; }aaa").unwrap();
    assert_eq!(tokens.len(), 9);
    assert_eq!(len, 31);
}

#[test]
fn test_read_css_property() {
    let (tokens, len) = read_css_property("color: red; ").unwrap();
    assert_eq!(tokens.len(), 4);
    assert_eq!(len, 11);
}

#[test]
fn scoped_rule_is_prefixed() {
    let out = compile_scoped_css(".btn { color: red; }", "Card").unwrap();
    assert_eq!(out, "._spCard .btn {\n    color: red;\n}\n\n");
}

#[test]
fn truncated_value_fails() {
    let err = compile_scoped_css(".btn { color: red", "Card").unwrap_err();
    assert_eq!(err, FileCompilationError::CssSyntaxError(CssSyntaxError::UnexpectedEndOfFile));
}

#[test]
fn selector_lists_keep_their_order() {
    let tokens = tokenise_css("a, b{x:1;}").unwrap();
    assert_eq!(tokens.len(), 9);
    assert!(matches!(&tokens[0], CssToken::Selector(s) if s == "a"));
    assert!(matches!(tokens[1], CssToken::Comma));
    let out = compile_scoped_css("a, b{x:1;}", "N").unwrap();
    assert_eq!(out, "._spN a, ._spN b {\n    x: 1;\n}\n\n");
}

#[test]
fn missing_colon_fails() {
    assert!(read_css_property("color red;").is_err());
}
