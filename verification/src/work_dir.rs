//! The work directory: where the build runner keeps its own files, in each project.

use crate::paths::{components, join_path, joined_path, path_components, PathComponent, PathComponentView};
use crate::text::str_eq;
use vstd::prelude::*;

verus! {

/// Name of the directory in which the build runner stores its own files.
pub const WORK_DIR_NAME: &'static str = ".zinoma";

/// One of the normal components of `path` is the work directory.
pub open spec fn in_work_dir(path: Seq<char>) -> bool {
    path_components(path).contains(PathComponentView::Normal(WORK_DIR_NAME@))
}

/// Whether one of the normal components of `path` is the work directory.
pub fn is_in_work_dir(path: &str) -> (b: bool)
    ensures
        b == in_work_dir(path@),
{
    let cs = components(path);
    let ghost v = cs.deep_view();
    for i in 0..cs.len()
        invariant
            v == cs.deep_view(),
            v == path_components(path@),
            forall|k: int| 0 <= k < i ==> v[k] != PathComponentView::Normal(WORK_DIR_NAME@),
    {
        match &cs[i] {
            PathComponent::Normal(name) => {
                if str_eq(name.as_str(), WORK_DIR_NAME) {
                    assert(v[i as int] == cs@[i as int].deep_view());
                    return true;
                }
            },
            _ => {},
        }
        assert(v[i as int] == cs@[i as int].deep_view());
    }
    assert(!v.contains(PathComponentView::Normal(WORK_DIR_NAME@)));
    false
}

/// The work directory of the project in `project_dir`.
pub fn get_work_dir_path(project_dir: &str) -> (r: String)
    ensures
        r@ == joined_path(project_dir@, WORK_DIR_NAME@),
{
    join_path(project_dir, WORK_DIR_NAME)
}

/// Whether a directory entry whose file name is `file_name` is a work directory.
/// An entry whose name is not valid Unicode has no name here, and is not one.
pub fn is_work_dir(file_name: Option<&str>) -> (b: bool)
    ensures
        b == (file_name.deep_view() == Some(WORK_DIR_NAME@)),
{
    match file_name {
        Some(name) => str_eq(name, WORK_DIR_NAME),
        None => false,
    }
}

} // verus!
