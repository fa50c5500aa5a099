//! Compiles the text of one element file into the text of its class.
use vstd::prelude::*;
use crate::element_metadata::{determine_element_metadata, metadata_of, ElementType};
use crate::errs::{FileCompilationError, FileErrorModel, MarkupErrorModel};
use crate::parser::{parse_element, parse_tokens};
use crate::text_generation::{compile_tree, tree_text};
use crate::tokeniser::{read_element, tokenize};

verus! {

/// The result of compiling an element.
#[derive(Debug)]
pub struct CompiledElement {
    pub content: String,
    pub element_name: String,
    pub compiled_element_name: String,
}

/// The generated text of the element `name` of kind `element_type` whose file
/// holds `source`, or the error it ends in: an invalid name first, then a tag
/// cut off by the end of the text, then a markup error, then a page without routes.
pub open spec fn element_output(source: Seq<char>, name: Seq<char>, element_type: ElementType) -> Result<Seq<char>, FileErrorModel> {
    match metadata_of(name, element_type) {
        Err(e) => Err(e),
        Ok(meta) => match tokenize(source) {
            None => Err(FileErrorModel::Markup(MarkupErrorModel::UnexpectedEndOfFile)),
            Some(tokens) => match parse_tokens(tokens) {
                Err(e) => Err(FileErrorModel::Markup(e)),
                Ok(nodes) => tree_text(meta, nodes),
            },
        },
    }
}

/// Whether `r` is what compiling `source` as the element `name` of kind
/// `element_type` gives: the generated text with the element's names, or the error.
pub open spec fn compile_outcome(
    source: Seq<char>,
    name: Seq<char>,
    element_type: ElementType,
    r: Result<CompiledElement, FileCompilationError>,
) -> bool {
    match r {
        Ok(c) => {
            &&& element_output(source, name, element_type) == Ok::<Seq<char>, FileErrorModel>(c.content@)
            &&& c.element_name@ == name
            &&& metadata_of(name, element_type) matches Ok(m)
            &&& c.compiled_element_name@ == m.compiled_element_name
        },
        Err(e) => element_output(source, name, element_type) == Err::<Seq<char>, FileErrorModel>(e@),
    }
}

/// Compiling the same source text for the same element twice gives the same
/// outcome: both succeed with the same text and names, or both fail with the
/// same error.
pub proof fn lemma_compile_idempotent(
    source: Seq<char>,
    name: Seq<char>,
    element_type: ElementType,
    first: Result<CompiledElement, FileCompilationError>,
    second: Result<CompiledElement, FileCompilationError>,
)
    requires
        compile_outcome(source, name, element_type, first),
        compile_outcome(source, name, element_type, second),
    ensures
        first matches Ok(a) ==> second matches Ok(b) && a.content@ == b.content@ && a.element_name@ == b.element_name@
            && a.compiled_element_name@ == b.compiled_element_name@,
        first matches Err(a) ==> second matches Err(b) && a@ == b@,
{
}

/// Compiles the element `element_name` of kind `element_type` from the text of its file.
pub fn compile_element(file_content: &str, element_name: &str, element_type: ElementType)
    -> (r: Result<CompiledElement, FileCompilationError>)
    ensures
        compile_outcome(file_content@, element_name@, element_type, r),
{
    let metadata = determine_element_metadata(element_name, element_type)?;
    let tokens = match read_element(file_content) {
        Ok(t) => t,
        Err(e) => { return Err(FileCompilationError::MarkupSyntaxError(e)); },
    };
    let tree = match parse_element(&tokens) {
        Ok(t) => t,
        Err(e) => { return Err(FileCompilationError::MarkupSyntaxError(e)); },
    };
    let content = compile_tree(&metadata, &tree)?;
    Ok(CompiledElement {
        content,
        element_name: element_name.to_owned(),
        compiled_element_name: metadata.compiled_element_name,
    })
}

} // verus!
