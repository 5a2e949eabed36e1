//! Core of a content-to-artifact site build engine.
//!
//! The library models the build pipeline over plain values: a source tree of
//! directories, page files and static files; an overlay ("theme") merged
//! beneath it; date-ordered sibling links; a snapshot of the previous build's
//! outputs used to decide staleness; taxonomy aggregation; pagination; and
//! the layout chain that a page's content is threaded through.  All
//! filesystem scanning, template rendering and content conversion happen
//! outside the library, which only receives and returns plain values.

use vstd::prelude::*;

pub mod config;
pub mod converters;
pub mod dates;
pub mod frontmatter;
pub mod ids;
pub mod layout;
pub mod page;
pub mod paginate;
pub mod paths;
pub mod site;
pub mod stale;
pub mod taxonomy;
pub mod theme;
pub mod tree;
pub mod value;

verus! {

/// A structural or configuration failure that aborts the whole build.
#[derive(Debug)]
pub enum BuildError {
    /// Two pages declared the same page id.
    DuplicateId(String),
    /// A required directory was not found.
    MissingDirectory(String),
    /// The theme configuration names no theme.
    MissingThemeName,
    /// A layout (directly or indirectly) names itself as its own parent.
    LayoutCycle(String),
    /// A pagination expression did not resolve to a sequence.
    PaginationExpressionInvalid,
}

impl BuildError {
    /// A human-readable description of the failure.
    pub fn message(&self) -> String {
        match self {
            BuildError::DuplicateId(id) => {
                let mut s = "duplicate page id: ".to_owned();
                s.append(id.as_str());
                s
            },
            BuildError::MissingDirectory(d) => {
                let mut s = "missing directory: ".to_owned();
                s.append(d.as_str());
                s
            },
            BuildError::MissingThemeName => "theme_name not found in theme configuration".to_owned(),
            BuildError::LayoutCycle(l) => {
                let mut s = "layout cycle at: ".to_owned();
                s.append(l.as_str());
                s
            },
            BuildError::PaginationExpressionInvalid => {
                "pagination expression did not resolve to a sequence".to_owned()
            },
        }
    }
}

} // verus!
