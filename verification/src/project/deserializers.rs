//! The fields of the files that describe teams and packages, as a parser
//! hands them over.
use vstd::prelude::*;

verus! {

#[derive(Clone, Debug)]
pub struct Metadata {
    pub owner: Option<String>,
}

#[derive(Clone, Debug)]
pub struct JavascriptPackage {
    pub metadata: Option<Metadata>,
}

#[derive(Clone, Debug)]
pub struct RubyPackage {
    pub owner: Option<String>,
    pub metadata: Option<Metadata>,
}

#[derive(Clone, Debug)]
pub struct Github {
    pub team: String,
    pub do_not_add_to_codeowners_file: bool,
}

#[derive(Clone, Debug)]
pub struct Ruby {
    pub owned_gems: Vec<String>,
}

#[derive(Clone, Debug)]
pub struct Team {
    pub name: String,
    pub github: Github,
    pub ruby: Option<Ruby>,
    pub owned_globs: Vec<String>,
    pub unowned_globs: Vec<String>,
}

/// What a list field that a file leaves out holds.
pub fn empty_string_vec() -> (r: Vec<String>)
    ensures
        r@.len() == 0,
{
    Vec::new()
}

/// What a flag that a file leaves out holds.
pub fn bool_false() -> (r: bool)
    ensures
        r == false,
{
    false
}

} // verus!
