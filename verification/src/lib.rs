//! Generation and validation of GitHub `CODEOWNERS` files: which team owns
//! which file of a project, decided from team files, annotations, package
//! files, directory markers and globs.
use vstd::prelude::*;

pub mod cache;
pub mod config;
pub mod crosscheck;
pub mod files;
pub mod globs;
pub mod ignore;
pub mod ownership;
pub mod path;
pub mod path_utils;
pub mod project;
pub mod project_builder;
pub mod project_file_builder;
pub mod regex_match;
pub mod strmap;
pub mod runner;
pub mod sort;
pub mod text;
pub mod verify;

verus! {

/// `String::push` appends one character: the text after the call is the text
/// before it with `ch` added at the end.
pub assume_specification[ String::push ](s: &mut String, ch: char)
    ensures
        final(s)@ == old(s)@.push(ch),
;

} // verus!
