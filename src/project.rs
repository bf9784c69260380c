//! The project manifest: what a `project.json` file holds.
use vstd::prelude::*;

verus! {

/// A project: its name and metadata, and the file that programs start from.
#[derive(Debug)]
pub struct Project {
    pub name: String,
    pub version: String,
    pub authors: Option<Vec<String>>,
    pub description: Option<String>,
    pub kind: String,
    pub entry: String,
}

} // verus!
