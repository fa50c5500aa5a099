use spallcomp::errs::MarkupSyntaxError;
use spallcomp::tokeniser::{
    read_element, read_html_tag, read_inline_javascript, read_javascript, read_tag_attribute, read_tag_attributes,
    read_tag_content, TagType, Token,
};

#[test]
fn test_read_html_tag() {
    let mut data = read_html_tag("<h1>").unwrap();
    assert_eq!(data.0.name, "h1");
    assert_eq!(data.0.tag_type, TagType::Start);
    assert_eq!(data.1, 4);

    data = read_html_tag("</paragraph>this bit won't be there").unwrap();
    assert_eq!(data.0.name, "paragraph");
    assert_eq!(data.0.tag_type, TagType::End);
    assert_eq!(data.1, 12);

    data = read_html_tag("<input />").unwrap();
    assert_eq!(data.0.name, "input");
    assert_eq!(data.0.tag_type, TagType::Standalone);
    assert_eq!(data.1, 9);

    data = read_html_tag("<input style='red' />").unwrap();
    assert_eq!(data.0.name, "input");
    assert_eq!(data.0.tag_type, TagType::Standalone);
    assert_eq!(data.1, 21);

    data = read_html_tag("<input/>").unwrap();
    assert_eq!(data.0.name, "input");
    assert_eq!(data.0.tag_type, TagType::Standalone);
    assert_eq!(data.1, 8);
}

#[test]
fn test_read_tag_attribute() {
    let mut data = read_tag_attribute("style='color: blue'").unwrap();
    assert_eq!(data.0.name, "style");
    assert_eq!(data.0.value, "color: blue");
    assert_eq!(data.1, 19);

    data = read_tag_attribute("style='color: blue'  ").unwrap();
    assert_eq!(data.0.name, "style");
    assert_eq!(data.0.value, "color: blue");
    assert_eq!(data.1, 19);

    data = read_tag_attribute(r#"style="color: blue\""  "#).unwrap();
    assert_eq!(data.0.name, "style");
    assert_eq!(data.0.value, r#"color: blue\""#);
    assert_eq!(data.1, 21);
}

#[test]
fn test_read_tag_content() {
    assert_eq!(read_tag_content("Hello world</h1>"), "Hello world");
}

#[test]
fn test_read_javascript() {
    assert_eq!(read_javascript("var x = 5;</script>"), "var x = 5;");
    assert_eq!(read_javascript("var x = '</script>';</script>"), "var x = '</script>';");
}

#[test]
fn test_read_inline_javascript() {
    let mut data = read_inline_javascript("~if (x == 5) {\n");
    assert_eq!(data.0.value, "if (x == 5) {");
    assert_eq!(data.1, 15);

    data = read_inline_javascript("~}~");
    assert_eq!(data.0.value, "}");
    assert_eq!(data.1, 3);

    data = read_inline_javascript("~var x = 5~");
    assert_eq!(data.0.value, "var x = 5");
    assert_eq!(data.1, 11);

    data = read_inline_javascript("~var x = 5\n");
    assert_eq!(data.0.value, "var x = 5");
    assert_eq!(data.1, 11);
}

#[test]
fn dynamic_attribute_drops_its_mark() {
    let (attr, len) = read_tag_attribute("!onclick=\"this.go()\"").unwrap();
    assert_eq!(attr.name, "onclick");
    assert_eq!(attr.value, "this.go()");
    assert!(attr.is_dynamic);
    assert_eq!(len, 20);
}

#[test]
fn attributes_stop_at_tag_end() {
    let (attrs, len) = read_tag_attributes("a=\"1\" b='2'>rest").unwrap();
    assert_eq!(attrs.len(), 2);
    assert_eq!(attrs[1].name, "b");
    assert_eq!(attrs[1].value, "2");
    assert_eq!(len, 11);
}

#[test]
fn unterminated_attribute_value_is_end_of_file() {
    assert_eq!(read_tag_attribute("style=\"red").unwrap_err(), MarkupSyntaxError::UnexpectedEndOfFile);
    assert_eq!(read_html_tag("<p class=\"x").unwrap_err(), MarkupSyntaxError::UnexpectedEndOfFile);
    assert_eq!(read_html_tag("").unwrap_err(), MarkupSyntaxError::UnexpectedEndOfFile);
}

#[test]
fn round_trip_paragraph_tokens() {
    let tokens = read_element("<p>hello</p>").unwrap();
    assert_eq!(tokens.len(), 3);
    match &tokens[0] {
        Token::Tag(t) => {
            assert_eq!(t.name, "p");
            assert_eq!(t.tag_type, TagType::Start);
        }
        _ => panic!("expected a tag"),
    }
    match &tokens[1] {
        Token::Content(c) => assert_eq!(c.value, "hello"),
        _ => panic!("expected content"),
    }
    match &tokens[2] {
        Token::Tag(t) => {
            assert_eq!(t.name, "p");
            assert_eq!(t.tag_type, TagType::End);
        }
        _ => panic!("expected a tag"),
    }
}

#[test]
fn standalone_input_tokenizes_alike() {
    for text in ["<input/>", "<input />"] {
        let tokens = read_element(text).unwrap();
        assert_eq!(tokens.len(), 1);
        match &tokens[0] {
            Token::Tag(t) => {
                assert_eq!(t.name, "input");
                assert_eq!(t.tag_type, TagType::Standalone);
                assert_eq!(t.attributes.len(), 0);
            }
            _ => panic!("expected a tag"),
        }
    }
}

#[test]
fn tag_attributes_are_read_back() {
    let tokens = read_element("<div class=\"main\">").unwrap();
    assert_eq!(tokens.len(), 1);
    match &tokens[0] {
        Token::Tag(t) => {
            assert_eq!(t.name, "div");
            assert_eq!(t.tag_type, TagType::Start);
            assert_eq!(t.attributes.len(), 1);
            assert_eq!(t.attributes[0].name, "class");
            assert_eq!(t.attributes[0].value, "main");
            assert!(!t.attributes[0].is_dynamic);
        }
        _ => panic!("expected a tag"),
    }
}

#[test]
fn whitespace_between_tags_is_dropped() {
    let tokens = read_element("<div>\n    <p></p>\n</div>\n").unwrap();
    assert_eq!(tokens.len(), 4);
}

#[test]
fn script_body_is_read_raw() {
    let tokens = read_element("<script>if (a < b) { x(\"</script>\"); }</script>").unwrap();
    assert_eq!(tokens.len(), 3);
    match &tokens[1] {
        Token::Content(c) => assert_eq!(c.value, "if (a < b) { x(\"</script>\"); }"),
        _ => panic!("expected content"),
    }
}

#[test]
fn inline_script_tokens() {
    let tokens = read_element("<p>~let x = 1~</p>").unwrap();
    assert_eq!(tokens.len(), 3);
    match &tokens[1] {
        Token::InlineJavascript(j) => assert_eq!(j.value, "let x = 1"),
        _ => panic!("expected inline script"),
    }
}
