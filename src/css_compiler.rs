//! Rewrites a stylesheet so that every selector is scoped to one element.
use vstd::prelude::*;
use crate::css_tokeniser::{css_tokens, css_view, tokenise_css, CssModel, CssToken};
use crate::errs::{CssSyntaxError, FileCompilationError, FileErrorModel};
use crate::text::{joined, lemma_joined_push, push_text};

verus! {

/// How a token is written back, with each selector prefixed by the element's scoping class.
pub open spec fn css_token_text(t: CssModel, element_name: Seq<char>) -> Seq<char> {
    match t {
        CssModel::BlockEnd => "}\n\n"@,
        CssModel::BlockStart => " {\n"@,
        CssModel::Colon => ": "@,
        CssModel::Comma => ", "@,
        CssModel::Comment(v) => "/* "@ + v + " */"@,
        CssModel::PropertyName(n) => "    "@ + n,
        CssModel::PropertyValue(v) => v,
        CssModel::Semicolon => ";\n"@,
        CssModel::Selector(v) => "._sp"@ + element_name + " "@ + v,
    }
}

/// The scoped stylesheet for the element `element_name`, or the error of the source.
pub open spec fn scoped_css(source: Seq<char>, element_name: Seq<char>) -> Result<Seq<char>, FileErrorModel> {
    match css_tokens(source) {
        None => Err(FileErrorModel::Css(CssSyntaxError::UnexpectedEndOfFile)),
        Some(t) => Ok(joined(t.map_values(|x: CssModel| css_token_text(x, element_name)), seq![])),
    }
}

/// Compiles a stylesheet scoped to the element `element_name`: each selector is
/// prefixed with the element's scoping class, and the rest is written back in a
/// normal form.
pub fn compile_scoped_css(file_content: &str, element_name: &str) -> (r: Result<String, FileCompilationError>)
    ensures
        r matches Ok(t) ==> scoped_css(file_content@, element_name@) == Ok::<Seq<char>, FileErrorModel>(t@),
        r matches Err(e) ==> scoped_css(file_content@, element_name@) == Err::<Seq<char>, FileErrorModel>(e@),
{
    let tokens = match tokenise_css(file_content) {
        Ok(t) => t,
        Err(e) => { return Err(FileCompilationError::CssSyntaxError(e)); },
    };
    let ghost parts = css_view(tokens@).map_values(|x: CssModel| css_token_text(x, element_name@));
    let mut result = String::new();
    let mut k: usize = 0;
    while k < tokens.len()
        invariant
            k <= tokens.len(),
            parts == css_view(tokens@).map_values(|x: CssModel| css_token_text(x, element_name@)),
            result@ == joined(parts.subrange(0, k as int), seq![]),
        decreases tokens.len() - k,
    {
        let mut text = String::new();
        match &tokens[k] {
            CssToken::BlockEnd => push_text(&mut text, "}\n\n"),
            CssToken::BlockStart => push_text(&mut text, " {\n"),
            CssToken::Colon => push_text(&mut text, ": "),
            CssToken::Comma => push_text(&mut text, ", "),
            CssToken::Comment(value) => {
                push_text(&mut text, "/* ");
                push_text(&mut text, value.as_str());
                push_text(&mut text, " */");
            },
            CssToken::PropertyName(name) => {
                push_text(&mut text, "    ");
                push_text(&mut text, name.as_str());
            },
            CssToken::PropertyValue(value) => push_text(&mut text, value.as_str()),
            CssToken::Semicolon => push_text(&mut text, ";\n"),
            CssToken::Selector(value) => {
                push_text(&mut text, "._sp");
                push_text(&mut text, element_name);
                push_text(&mut text, " ");
                push_text(&mut text, value.as_str());
            },
        }
        assert(text@ == parts[k as int]);
        let ghost before = result@;
        push_text(&mut result, text.as_str());
        proof {
            lemma_joined_push(parts.subrange(0, k as int), text@, seq![]);
            assert(parts.subrange(0, k as int).push(text@) =~= parts.subrange(0, k + 1));
            assert(before + seq![] + text@ =~= before + text@);
        }
        k = k + 1;
    }
    assert(parts.subrange(0, k as int) =~= parts);
    Ok(result)
}

} // verus!
