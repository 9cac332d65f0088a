//! A path relative to a root, when it lies under the root.
use vstd::prelude::*;

use crate::path::{
    components, join_path, join_path_spec, render, root_component, strip_prefix, strip_prefix_spec,
};

verus! {

/// `path` relative to `root` when it lies under `root`; `path` itself
/// otherwise.
pub open spec fn relative_to_spec(root: Seq<char>, path: Seq<char>) -> Seq<char> {
    match strip_prefix_spec(root, path) {
        Some(r) => r,
        None => path,
    }
}

/// `path` relative to `root` when it lies under `root`; `path` itself
/// otherwise.
pub fn relative_to(root: &str, path: &str) -> (r: String)
    ensures
        r@ == relative_to_spec(root@, path@),
{
    match strip_prefix(root, path) {
        Some(r) => r,
        None => path.to_owned(),
    }
}

/// Like `relative_to`, as an owned path.
pub fn relative_to_buf(root: &str, path: &str) -> (r: String)
    ensures
        r@ == relative_to_spec(root@, path@),
{
    relative_to(root, path)
}

/// The components that cleaning keeps of the components `cs`, read from the
/// first: a `.` is left out; a `..` takes out the name before it, is left
/// out right after the root, and is kept otherwise; any other component is
/// kept.
pub open spec fn clean_components(cs: Seq<Seq<char>>) -> Seq<Seq<char>>
    decreases cs.len(),
{
    if cs.len() == 0 {
        Seq::empty()
    } else {
        let out = clean_components(cs.drop_last());
        let c = cs.last();
        if c == seq!['.'] {
            out
        } else if c == seq!['.', '.'] {
            if out.len() > 0 && out.last() == root_component() {
                out
            } else if out.len() > 0 && out.last() != seq!['.', '.'] && out.last() != seq!['.'] {
                out.drop_last()
            } else {
                out.push(c)
            }
        } else {
            out.push(c)
        }
    }
}

/// A path cleaned lexically: the components that cleaning keeps, written as
/// a path, or `.` when none is kept.
pub open spec fn spec_clean_path(p: Seq<char>) -> Seq<char> {
    let out = clean_components(components(p));
    if out.len() > 0 {
        render(out)
    } else {
        seq!['.']
    }
}

/// Calls `path_clean::clean`. Its documentation and source: for each
/// component of the path, a `.` is dropped, a `..` drops the name before it,
/// is dropped right after the root, and is kept otherwise; the kept
/// components are collected into a path, `.` when there is none.
#[verifier::external_body]
fn clean_path(p: &str) -> (r: String)
    ensures
        r@ == spec_clean_path(p@),
{
    path_clean::clean(p).to_string_lossy().into_owned()
}

/// A path given on the command line, taken under the project's root and
/// cleaned.
pub fn absolute_clean_path(project_root: &str, path: &str) -> (r: String)
    ensures
        r@ == spec_clean_path(join_path_spec(project_root@, path@)),
{
    let joined = join_path(project_root, path);
    clean_path(joined.as_str())
}

} // verus!
