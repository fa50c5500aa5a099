//! Compiler for element files: a hybrid of markup and script that becomes a
//! JavaScript class for a small client-side framework, and for stylesheets
//! scoped to one element.
//!
//! The element pipeline reads the text into tokens (`tokeniser`), builds the
//! node tree (`parser`), walks it into compile chunks (`tree_analysis`) and
//! writes the class (`text_generation`); `element_compiler` runs it end to end.
//! `css_tokeniser` and `css_compiler` scope a stylesheet. Every function states
//! its result over the spec functions of its module.
use vstd::prelude::*;

pub mod balance;
pub mod compiler_utils;
pub mod css_compiler;
pub mod css_tokeniser;
pub mod element_compiler;
pub mod element_metadata;
pub mod errs;
pub mod framework_runtime;
pub mod parser;
pub mod request_routing;
pub mod round_trip;
pub mod settings;
pub mod text;
pub mod text_generation;
pub mod tokeniser;
pub mod tokeniser_utils;
pub mod tree_analysis;

verus! {

} // verus!
