//! The path operations of the standard library that the build logic relies on.
//!
//! Paths are carried as strings. What a path operation returns depends on the
//! platform's path syntax, so it is named here and the standard library computes it.

use crate::text::lemma_push_deep_view;
use vstd::prelude::*;

verus! {

/// The path that `Path::join` builds from `base` and `rel` on this platform.
pub uninterp spec fn joined_path(base: Seq<char>, rel: Seq<char>) -> Seq<char>;

/// The final component of `path` as `Path::file_name` reports it on this platform.
pub uninterp spec fn path_file_name(path: Seq<char>) -> Option<Seq<char>>;

/// A component of a path, as `std::path::Component` tells them apart; names
/// are held as strings.
#[derive(Debug)]
pub enum PathComponent {
    Prefix(String),
    RootDir,
    CurDir,
    ParentDir,
    Normal(String),
}

pub enum PathComponentView {
    Prefix(Seq<char>),
    RootDir,
    CurDir,
    ParentDir,
    Normal(Seq<char>),
}

impl DeepView for PathComponent {
    type V = PathComponentView;

    open spec fn deep_view(&self) -> PathComponentView {
        match self {
            PathComponent::Prefix(p) => PathComponentView::Prefix(p@),
            PathComponent::RootDir => PathComponentView::RootDir,
            PathComponent::CurDir => PathComponentView::CurDir,
            PathComponent::ParentDir => PathComponentView::ParentDir,
            PathComponent::Normal(n) => PathComponentView::Normal(n@),
        }
    }
}

/// The components of `path`, in order, as `Path::components` yields them.
pub uninterp spec fn path_components(path: Seq<char>) -> Seq<PathComponentView>;

/// Calls `std::path::Path::join`. The contract only names the result: it is the
/// joined path of `base` and `rel`, a function of the two strings.
#[verifier::external_body]
pub(crate) fn join_path(base: &str, rel: &str) -> (r: String)
    ensures
        r@ == joined_path(base@, rel@),
{
    std::path::Path::new(base).join(rel).to_string_lossy().into_owned()
}

/// Calls `std::path::Path::file_name`. The contract only names the result.
#[verifier::external_body]
pub(crate) fn file_name(path: &str) -> (r: Option<String>)
    ensures
        r.deep_view() == path_file_name(path@),
{
    std::path::Path::new(path).file_name().map(|n| n.to_string_lossy().into_owned())
}

/// Calls `std::path::Path::components`, each component converted as it is.
/// The contract only names the result.
#[verifier::external_body]
pub(crate) fn components(path: &str) -> (r: Vec<PathComponent>)
    ensures
        r.deep_view() == path_components(path@),
{
    std::path::Path::new(path).components().map(|c| match c {
        std::path::Component::Prefix(p) => PathComponent::Prefix(p.as_os_str().to_string_lossy().into_owned()),
        std::path::Component::RootDir => PathComponent::RootDir,
        std::path::Component::CurDir => PathComponent::CurDir,
        std::path::Component::ParentDir => PathComponent::ParentDir,
        std::path::Component::Normal(n) => PathComponent::Normal(n.to_string_lossy().into_owned()),
    }).collect()
}

/// The paths `ps`, each relative to `dir`.
pub open spec fn joined_paths(dir: Seq<char>, ps: Seq<Seq<char>>) -> Seq<Seq<char>> {
    ps.map_values(|p: Seq<char>| joined_path(dir, p))
}

pub fn join_paths(dir: &str, paths: &Vec<String>) -> (r: Vec<String>)
    ensures
        r.deep_view() == joined_paths(dir@, paths.deep_view()),
{
    let mut r: Vec<String> = Vec::new();
    for i in 0..paths.len()
        invariant
            r.deep_view() == joined_paths(dir@, paths.deep_view()).take(i as int),
    {
        let ghost r0 = r;
        r.push(join_path(dir, paths[i].as_str()));
        proof {
            assert(r@.drop_last() =~= r0@);
            lemma_push_deep_view(r0, r);
            assert(r.deep_view() =~= joined_paths(dir@, paths.deep_view()).take(i + 1));
        }
    }
    assert(joined_paths(dir@, paths.deep_view()).take(paths.len() as int) =~= joined_paths(dir@, paths.deep_view()));
    r
}

} // verus!
