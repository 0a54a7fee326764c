//! Targets of a build flow numbered by their position: each target refers to
//! its dependencies by their numbers.

use vstd::prelude::*;

verus! {

/// The number of a target: its position in the list of targets.
pub type TargetId = usize;

#[derive(Debug, Clone)]
pub struct Target {
    pub id: TargetId,
    pub name: String,
    pub dependencies: Vec<TargetId>,
    /// The directory of the target's project.
    pub path: String,
    pub input_paths: Vec<String>,
    pub output_paths: Vec<String>,
    pub build_list: Vec<String>,
    pub service: Option<String>,
}

pub struct TargetView {
    pub id: nat,
    pub name: Seq<char>,
    pub dependencies: Seq<nat>,
    pub path: Seq<char>,
    pub input_paths: Seq<Seq<char>>,
    pub output_paths: Seq<Seq<char>>,
    pub build_list: Seq<Seq<char>>,
    pub service: Option<Seq<char>>,
}

impl View for Target {
    type V = TargetView;

    open spec fn view(&self) -> TargetView {
        TargetView {
            id: self.id as nat,
            name: self.name@,
            dependencies: self.dependencies@.map_values(|d: usize| d as nat),
            path: self.path@,
            input_paths: self.input_paths.deep_view(),
            output_paths: self.output_paths.deep_view(),
            build_list: self.build_list.deep_view(),
            service: self.service.deep_view(),
        }
    }
}

impl DeepView for Target {
    type V = TargetView;

    open spec fn deep_view(&self) -> TargetView {
        self@
    }
}

} // verus!
