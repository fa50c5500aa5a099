//! The errors that compiling a project, a file or a piece of markup can end in.
use vstd::prelude::*;
use crate::text::push_text;

verus! {

/// An error of the whole compilation run.
#[derive(Debug, PartialEq, Eq)]
pub enum CompilationError {
    Project(ProjectCompilationError),
    File { file_name: String, inner_error: FileCompilationError },
}

/// A project-level error: a required directory or file is missing.
#[derive(Debug, PartialEq, Eq)]
pub enum ProjectCompilationError {
    NoElementsDirectory,
    ErrorIndexingDirectory { directory: String, reason: String },
    NoMetaDirectory,
    NoRootElement,
    NoMetaIndex,
    /// A framework file names a dependency that is not among the framework files.
    MissingFrameworkFile { name: String },
    /// The dependencies of the framework files run in a circle.
    FrameworkDependencyCycle { name: String },
}

/// An error in one element or stylesheet file.
#[derive(Debug, PartialEq, Eq)]
pub enum FileCompilationError {
    InvalidElementName { name: String },
    NoPageRoutes,
    CssSyntaxError(CssSyntaxError),
    MarkupSyntaxError(MarkupSyntaxError),
}

/// An error in a scoped stylesheet.
#[derive(Debug, Clone, Copy, PartialEq, Eq)]
pub enum CssSyntaxError {
    /// A selector list, a property name or a property value runs to the end of the text.
    UnexpectedEndOfFile,
}

/// An error in the markup of an element.
#[derive(Debug, PartialEq, Eq)]
pub enum MarkupSyntaxError {
    AttributesOnCloseTag { tag_name: String },
    UnbalancedTag(UnbalancedTag),
    OrphanedNode,
    UnmatchedTokenTypes,
    /// A tag or an attribute value runs to the end of the text.
    UnexpectedEndOfFile,
}

/// Start and end tags that do not pair up.
#[derive(Debug, PartialEq, Eq)]
pub enum UnbalancedTag {
    UnmatchingNames { start_tag_name: String, end_tag_name: String },
    UnclosedStartTag { tag_name: String },
    UnopenedEndTag { tag_name: String },
}

/// What a markup error says.
pub enum MarkupErrorModel {
    AttributesOnCloseTag(Seq<char>),
    UnmatchingNames(Seq<char>, Seq<char>),
    UnclosedStartTag(Seq<char>),
    UnopenedEndTag(Seq<char>),
    OrphanedNode,
    UnmatchedTokenTypes,
    UnexpectedEndOfFile,
}

impl View for MarkupSyntaxError {
    type V = MarkupErrorModel;

    open spec fn view(&self) -> MarkupErrorModel {
        match self {
            MarkupSyntaxError::AttributesOnCloseTag { tag_name } => MarkupErrorModel::AttributesOnCloseTag(tag_name@),
            MarkupSyntaxError::UnbalancedTag(UnbalancedTag::UnmatchingNames { start_tag_name, end_tag_name }) =>
                MarkupErrorModel::UnmatchingNames(start_tag_name@, end_tag_name@),
            MarkupSyntaxError::UnbalancedTag(UnbalancedTag::UnclosedStartTag { tag_name }) =>
                MarkupErrorModel::UnclosedStartTag(tag_name@),
            MarkupSyntaxError::UnbalancedTag(UnbalancedTag::UnopenedEndTag { tag_name }) =>
                MarkupErrorModel::UnopenedEndTag(tag_name@),
            MarkupSyntaxError::OrphanedNode => MarkupErrorModel::OrphanedNode,
            MarkupSyntaxError::UnmatchedTokenTypes => MarkupErrorModel::UnmatchedTokenTypes,
            MarkupSyntaxError::UnexpectedEndOfFile => MarkupErrorModel::UnexpectedEndOfFile,
        }
    }
}

/// What a file error says.
pub enum FileErrorModel {
    InvalidElementName(Seq<char>),
    NoPageRoutes,
    Css(CssSyntaxError),
    Markup(MarkupErrorModel),
}

impl View for FileCompilationError {
    type V = FileErrorModel;

    open spec fn view(&self) -> FileErrorModel {
        match self {
            FileCompilationError::InvalidElementName { name } => FileErrorModel::InvalidElementName(name@),
            FileCompilationError::NoPageRoutes => FileErrorModel::NoPageRoutes,
            FileCompilationError::CssSyntaxError(e) => FileErrorModel::Css(*e),
            FileCompilationError::MarkupSyntaxError(e) => FileErrorModel::Markup(e@),
        }
    }
}

impl UnbalancedTag {
    /// The message that describes the error.
    pub fn describe(&self) -> (r: String)
        ensures
            r@ == self.message(),
    {
        let mut r = String::new();
        match self {
            UnbalancedTag::UnmatchingNames { start_tag_name, end_tag_name } => {
                push_text(&mut r, "Unmatched tag names: opening tag was a \"");
                push_text(&mut r, start_tag_name.as_str());
                push_text(&mut r, "\" but closing tag was a \"");
                push_text(&mut r, end_tag_name.as_str());
                push_text(&mut r, "\"");
            },
            UnbalancedTag::UnclosedStartTag { tag_name } => {
                push_text(&mut r, "Tag \"");
                push_text(&mut r, tag_name.as_str());
                push_text(&mut r, "\" was not closed");
            },
            UnbalancedTag::UnopenedEndTag { tag_name } => {
                push_text(&mut r, "End tag \"");
                push_text(&mut r, tag_name.as_str());
                push_text(&mut r, "\" has no matching start tag ");
            },
        }
        r
    }

    /// The message that describes the error.
    pub open spec fn message(&self) -> Seq<char> {
        match self {
            UnbalancedTag::UnmatchingNames { start_tag_name, end_tag_name } =>
                "Unmatched tag names: opening tag was a \""@ + start_tag_name@ + "\" but closing tag was a \""@
                    + end_tag_name@ + "\""@,
            UnbalancedTag::UnclosedStartTag { tag_name } => "Tag \""@ + tag_name@ + "\" was not closed"@,
            UnbalancedTag::UnopenedEndTag { tag_name } => "End tag \""@ + tag_name@ + "\" has no matching start tag "@,
        }
    }
}

impl MarkupSyntaxError {
    /// The message that describes the error.
    pub open spec fn message(&self) -> Seq<char> {
        "Syntax error in markup. "@ + match self {
            MarkupSyntaxError::AttributesOnCloseTag { tag_name } =>
                "Closing HTML tags cannot have attributes (tag name "@ + tag_name@ + ")"@,
            MarkupSyntaxError::UnbalancedTag(inner) => inner.message(),
            MarkupSyntaxError::OrphanedNode =>
                "Found orphaned node - all nodes must have a parent, except for the root"@,
            MarkupSyntaxError::UnmatchedTokenTypes =>
                "Token types do not match (have you missed an open/close tag?)"@,
            MarkupSyntaxError::UnexpectedEndOfFile => "Unexpected end of file"@,
        }
    }

    /// The message that describes the error.
    pub fn describe(&self) -> (r: String)
        ensures
            r@ == self.message(),
    {
        let mut r = String::new();
        push_text(&mut r, "Syntax error in markup. ");
        match self {
            MarkupSyntaxError::AttributesOnCloseTag { tag_name } => {
                push_text(&mut r, "Closing HTML tags cannot have attributes (tag name ");
                push_text(&mut r, tag_name.as_str());
                push_text(&mut r, ")");
            },
            MarkupSyntaxError::UnbalancedTag(inner) => {
                let m = inner.describe();
                push_text(&mut r, m.as_str());
            },
            MarkupSyntaxError::OrphanedNode => {
                push_text(&mut r, "Found orphaned node - all nodes must have a parent, except for the root");
            },
            MarkupSyntaxError::UnmatchedTokenTypes => {
                push_text(&mut r, "Token types do not match (have you missed an open/close tag?)");
            },
            MarkupSyntaxError::UnexpectedEndOfFile => {
                push_text(&mut r, "Unexpected end of file");
            },
        }
        r
    }
}

impl CssSyntaxError {
    /// The message that describes the error.
    pub open spec fn message(&self) -> Seq<char> {
        "Unexpected end of file"@
    }

    /// The message that describes the error.
    pub fn describe(&self) -> (r: String)
        ensures
            r@ == self.message(),
    {
        "Unexpected end of file".to_owned()
    }
}

impl FileCompilationError {
    /// The message that describes the error.
    pub open spec fn message(&self) -> Seq<char> {
        match self {
            FileCompilationError::InvalidElementName { name } => "Element name \""@ + name@ + "\" is not valid"@,
            FileCompilationError::NoPageRoutes => "No page route was defined"@,
            FileCompilationError::CssSyntaxError(e) => e.message(),
            FileCompilationError::MarkupSyntaxError(e) => e.message(),
        }
    }

    /// The message that describes the error.
    pub fn describe(&self) -> (r: String)
        ensures
            r@ == self.message(),
    {
        match self {
            FileCompilationError::InvalidElementName { name } => {
                let mut r = String::new();
                push_text(&mut r, "Element name \"");
                push_text(&mut r, name.as_str());
                push_text(&mut r, "\" is not valid");
                r
            },
            FileCompilationError::NoPageRoutes => "No page route was defined".to_owned(),
            FileCompilationError::CssSyntaxError(e) => e.describe(),
            FileCompilationError::MarkupSyntaxError(e) => e.describe(),
        }
    }
}

impl ProjectCompilationError {
    /// The message that describes the error.
    pub open spec fn message(&self) -> Seq<char> {
        match self {
            ProjectCompilationError::NoElementsDirectory =>
                "Could not find elements/ directory, are you sure there is a spall project located here?"@,
            ProjectCompilationError::ErrorIndexingDirectory { directory, reason } =>
                "Error indexing "@ + directory@ + ": "@ + reason@,
            ProjectCompilationError::NoMetaDirectory =>
                "Could not find meta/ directory, are you sure there is a spall project located here?"@,
            ProjectCompilationError::NoRootElement => "No root element (elements/Root.spall) defined."@,
            ProjectCompilationError::NoMetaIndex => "No index.html defined in meta/ dir"@,
            ProjectCompilationError::MissingFrameworkFile { name } => "Could not find file "@ + name@,
            ProjectCompilationError::FrameworkDependencyCycle { name } =>
                "Framework files depend on each other in a circle (at "@ + name@ + ")"@,
        }
    }

    /// The message that describes the error.
    pub fn describe(&self) -> (r: String)
        ensures
            r@ == self.message(),
    {
        match self {
            ProjectCompilationError::NoElementsDirectory =>
                "Could not find elements/ directory, are you sure there is a spall project located here?".to_owned(),
            ProjectCompilationError::ErrorIndexingDirectory { directory, reason } => {
                let mut r = String::new();
                push_text(&mut r, "Error indexing ");
                push_text(&mut r, directory.as_str());
                push_text(&mut r, ": ");
                push_text(&mut r, reason.as_str());
                r
            },
            ProjectCompilationError::NoMetaDirectory =>
                "Could not find meta/ directory, are you sure there is a spall project located here?".to_owned(),
            ProjectCompilationError::NoRootElement => "No root element (elements/Root.spall) defined.".to_owned(),
            ProjectCompilationError::NoMetaIndex => "No index.html defined in meta/ dir".to_owned(),
            ProjectCompilationError::MissingFrameworkFile { name } => {
                let mut r = String::new();
                push_text(&mut r, "Could not find file ");
                push_text(&mut r, name.as_str());
                r
            },
            ProjectCompilationError::FrameworkDependencyCycle { name } => {
                let mut r = String::new();
                push_text(&mut r, "Framework files depend on each other in a circle (at ");
                push_text(&mut r, name.as_str());
                push_text(&mut r, ")");
                r
            },
        }
    }
}

impl CompilationError {
    /// The message that describes the error.
    pub open spec fn message(&self) -> Seq<char> {
        match self {
            CompilationError::Project(inner) => "Error compiling project:\n    "@ + inner.message(),
            CompilationError::File { file_name, inner_error } =>
                "Error compiling "@ + file_name@ + ":\n    "@ + inner_error.message(),
        }
    }

    /// The message that describes the error.
    pub fn describe(&self) -> (r: String)
        ensures
            r@ == self.message(),
    {
        let mut r = String::new();
        match self {
            CompilationError::Project(inner) => {
                push_text(&mut r, "Error compiling project:\n    ");
                let m = inner.describe();
                push_text(&mut r, m.as_str());
            },
            CompilationError::File { file_name, inner_error } => {
                push_text(&mut r, "Error compiling ");
                push_text(&mut r, file_name.as_str());
                push_text(&mut r, ":\n    ");
                let m = inner_error.describe();
                push_text(&mut r, m.as_str());
            },
        }
        r
    }
}

} // verus!
