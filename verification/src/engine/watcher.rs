//! What the file watcher of a target makes of a changed path.

use crate::paths::{file_name, path_file_name};
use crate::work_dir::{in_work_dir, is_in_work_dir};
use crate::text::{ends_with, starts_with, str_ends_with, str_starts_with};
use vstd::prelude::*;

verus! {

/// A file name that a text editor gives to its temporary files: a backup of
/// IntelliJ IDEA (`name~`) or a swap file of Vim (`.name.swp`, `.name.swx`).
pub open spec fn is_tmp_editor_name(name: Seq<char>) -> bool {
    ||| ends_with(name, seq!['~'])
    ||| starts_with(name, seq!['.']) && (ends_with(name, seq!['.', 's', 'w', 'p']) || ends_with(name, seq!['.', 's', 'w', 'x']))
}

/// Whether the file at `file_path` (a path that has a file name) is a temporary
/// file of a text editor, whose changes do not invalidate a target.
pub fn is_tmp_editor_file(file_path: &str) -> (b: bool)
    requires
        path_file_name(file_path@) is Some,
    ensures
        b == is_tmp_editor_name(path_file_name(file_path@)->0),
{
    let found = file_name(file_path);
    let name = found.unwrap();
    assert(name@ == path_file_name(file_path@)->0);
    let name = name.as_str();
    proof {
        reveal_strlit("~");
        reveal_strlit(".");
        reveal_strlit(".swp");
        reveal_strlit(".swx");
        assert("~"@ =~= seq!['~']);
        assert("."@ =~= seq!['.']);
        assert(".swp"@ =~= seq!['.', 's', 'w', 'p']);
        assert(".swx"@ =~= seq!['.', 's', 'w', 'x']);
    }
    if str_ends_with(name, "~") {
        return true;
    }
    if str_starts_with(name, ".") && (str_ends_with(name, ".swp") || str_ends_with(name, ".swx")) {
        return true;
    }
    false
}

/// Like `is_tmp_editor_file`, for any path: `None` when the path has no file name.
pub fn tmp_editor_file_check(file_path: &str) -> (r: Option<bool>)
    ensures
        match path_file_name(file_path@) {
            Some(name) => r == Some(is_tmp_editor_name(name)),
            None => r is None,
        },
{
    if file_name(file_path).is_none() {
        return None;
    }
    Some(is_tmp_editor_file(file_path))
}

} // verus!

verus! {

/// A changed path that invalidates a target: neither a temporary file of an
/// editor nor a file of the work directory.
pub open spec fn is_relevant_path(path: Seq<char>) -> bool {
    !is_tmp_editor_name(path_file_name(path)->0) && !in_work_dir(path)
}

pub open spec fn relevant(paths: Seq<Seq<char>>) -> Seq<Seq<char>> {
    paths.filter(|p: Seq<char>| is_relevant_path(p))
}

/// The changed paths, each of which has a file name, that invalidate a target, in order.
pub fn relevant_paths(paths: &Vec<String>) -> (r: Vec<String>)
    requires
        forall|i: int| 0 <= i < paths@.len() ==> path_file_name(#[trigger] paths@[i]@) is Some,
    ensures
        r.deep_view() == relevant(paths.deep_view()),
{
    let ghost ps = paths.deep_view();
    let mut r: Vec<String> = Vec::new();
    for i in 0..paths.len()
        invariant
            ps == paths.deep_view(),
            forall|j: int| 0 <= j < paths@.len() ==> path_file_name(#[trigger] paths@[j]@) is Some,
            r.deep_view() == relevant(ps.take(i as int)),
    {
        assert(ps.take(i + 1) =~= ps.take(i as int).push(ps[i as int]));
        proof {
            ps.take(i as int).lemma_filter_push(ps[i as int], |p: Seq<char>| is_relevant_path(p));
        }
        assert(ps[i as int] == paths@[i as int]@);
        if !is_tmp_editor_file(paths[i].as_str()) && !is_in_work_dir(paths[i].as_str()) {
            let ghost r0 = r;
            r.push(crate::text::owned(paths[i].as_str()));
            proof {
                assert(r@.drop_last() =~= r0@);
                crate::text::lemma_push_deep_view(r0, r);
            }
        }
    }
    assert(ps.take(paths.len() as int) =~= ps);
    r
}

/// Like `relevant_paths`, for any paths: `None` when one has no file name.
pub fn relevant_paths_checked(paths: &Vec<String>) -> (r: Option<Vec<String>>)
    ensures
        match r {
            Some(v) => (forall|i: int| 0 <= i < paths@.len() ==> path_file_name(#[trigger] paths@[i]@) is Some)
                && v.deep_view() == relevant(paths.deep_view()),
            None => exists|i: int| 0 <= i < paths@.len() && path_file_name(#[trigger] paths@[i]@) is None,
        },
{
    for i in 0..paths.len()
        invariant
            forall|j: int| 0 <= j < i ==> path_file_name(#[trigger] paths@[j]@) is Some,
    {
        if file_name(paths[i].as_str()).is_none() {
            return None;
        }
    }
    Some(relevant_paths(paths))
}

} // verus!
