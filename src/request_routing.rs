//! What the development server serves for a request path.
use vstd::prelude::*;
use crate::text::same_text;

verus! {

/// What a request asks for.
#[derive(Clone, Copy, Debug, PartialEq, Eq, Structural)]
pub enum RequestedItem {
    /// The single-page application's index.
    Spa,
    /// A file under the static or scripts directory.
    StaticFile,
    /// A path that climbs out of the application root.
    Invalid,
}

/// What a request asks for, from the first component of its path after the
/// root (`.` and `..` standing for the current and parent directory).
pub open spec fn requested_item(first_component: Option<Seq<char>>) -> RequestedItem {
    match first_component {
        None => RequestedItem::Spa,
        Some(c) => if c == "."@ || c == ".."@ {
            RequestedItem::Invalid
        } else if c == "static"@ || c == "scripts"@ {
            RequestedItem::StaticFile
        } else {
            RequestedItem::Spa
        },
    }
}

/// Decides what a request asks for from the first component of its path.
pub fn determine_requested_item(first_component: Option<&str>) -> (r: RequestedItem)
    ensures
        r == requested_item(match first_component {
            Some(c) => Some(c@),
            None => None,
        }),
{
    match first_component {
        None => RequestedItem::Spa,
        Some(c) => {
            if same_text(c, ".") || same_text(c, "..") {
                RequestedItem::Invalid
            } else if same_text(c, "static") || same_text(c, "scripts") {
                RequestedItem::StaticFile
            } else {
                RequestedItem::Spa
            }
        },
    }
}

} // verus!
