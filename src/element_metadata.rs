//! The name checks and naming rules of an element: its compiled class name and
//! the framework class it extends.
use vstd::prelude::*;
use crate::errs::{FileCompilationError, FileErrorModel};
use crate::text::{char_is_alphabetic, char_is_alphanumeric, is_alphabetic, is_alphanumeric, push_text, same_text};

verus! {

/// The kind of an element.
#[derive(Clone, Copy, Debug, PartialEq, Eq, Structural)]
pub enum ElementType {
    Basic,
    Page,
}

/// What the generated class of an element is called and what it extends.
#[derive(Debug)]
pub struct ElementMetadata {
    pub compiled_element_name: String,
    pub element_base_class: String,
    pub element_type: ElementType,
}

/// What element metadata holds.
pub struct MetadataModel {
    pub compiled_element_name: Seq<char>,
    pub element_base_class: Seq<char>,
    pub element_type: ElementType,
}

impl View for ElementMetadata {
    type V = MetadataModel;

    open spec fn view(&self) -> MetadataModel {
        MetadataModel {
            compiled_element_name: self.compiled_element_name@,
            element_base_class: self.element_base_class@,
            element_type: self.element_type,
        }
    }
}

/// Whether `name` can name an element: not empty, starting with a letter, and
/// made of letters and digits only.
pub open spec fn name_valid(name: Seq<char>) -> bool {
    &&& name.len() > 0
    &&& is_alphabetic(name[0])
    &&& forall|k: int| 0 <= k < name.len() ==> is_alphanumeric(#[trigger] name[k])
}

/// The class name generated for the element `name`.
pub open spec fn compiled_name(name: Seq<char>) -> Seq<char> {
    "__SpallCompiled"@ + name
}

/// The framework class that the element `name` of kind `element_type` extends.
pub open spec fn base_class(element_type: ElementType, name: Seq<char>) -> Seq<char> {
    if element_type == ElementType::Basic {
        if name == "Root"@ { "SpallRootElement"@ } else { "SpallElement"@ }
    } else {
        "SpallPage"@
    }
}

/// The metadata of the element `name` of kind `element_type`, or the error for an invalid name.
pub open spec fn metadata_of(name: Seq<char>, element_type: ElementType) -> Result<MetadataModel, FileErrorModel> {
    if name_valid(name) {
        Ok(MetadataModel {
            compiled_element_name: compiled_name(name),
            element_base_class: base_class(element_type, name),
            element_type,
        })
    } else {
        Err(FileErrorModel::InvalidElementName(name))
    }
}

/// Checks the element's name and works out its metadata.
pub fn determine_element_metadata(element_name: &str, element_type: ElementType) -> (r: Result<ElementMetadata, FileCompilationError>)
    ensures
        r matches Ok(m) ==> metadata_of(element_name@, element_type) == Ok::<MetadataModel, FileErrorModel>(m@),
        r matches Err(e) ==> metadata_of(element_name@, element_type) == Err::<MetadataModel, FileErrorModel>(e@),
{
    if !element_name_valid(element_name) {
        return Err(FileCompilationError::InvalidElementName { name: element_name.to_owned() });
    }
    let compiled_element_name = generate_compiled_element_name(element_name);
    let element_base_class = find_element_base_class(&element_type, element_name);
    Ok(ElementMetadata { compiled_element_name, element_base_class, element_type })
}

/// The class name generated for an element.
pub fn generate_compiled_element_name(element_name: &str) -> (r: String)
    ensures
        r@ == compiled_name(element_name@),
{
    let mut r = String::new();
    push_text(&mut r, "__SpallCompiled");
    push_text(&mut r, element_name);
    r
}

/// Whether the name can name an element.
pub fn element_name_valid(element_name: &str) -> (r: bool)
    ensures
        r == name_valid(element_name@),
{
    let v = crate::text::chars_of(element_name);
    if v.len() == 0 {
        return false;
    }
    if !char_is_alphabetic(v[0]) {
        return false;
    }
    let mut k: usize = 0;
    while k < v.len()
        invariant
            k <= v.len(),
            v@ == element_name@,
            forall|m: int| 0 <= m < k ==> is_alphanumeric(#[trigger] v@[m]),
        decreases v.len() - k,
    {
        if !char_is_alphanumeric(v[k]) {
            return false;
        }
        k = k + 1;
    }
    true
}

/// The framework class that an element extends.
pub fn find_element_base_class(element_type: &ElementType, element_name: &str) -> (r: String)
    ensures
        r@ == base_class(*element_type, element_name@),
{
    if *element_type == ElementType::Basic {
        if same_text(element_name, "Root") {
            "SpallRootElement".to_owned()
        } else {
            "SpallElement".to_owned()
        }
    } else {
        "SpallPage".to_owned()
    }
}

} // verus!
