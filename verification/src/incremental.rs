//! Incremental runs keyed by checksums: a target's build is skipped when the
//! checksums of its input and output paths are those saved after its last
//! successful build.

use crate::paths::{join_path, joined_path};
use crate::text::owned;
use vstd::prelude::*;

verus! {

/// How an incremental run ended: skipped, or run with the given result.
#[derive(Debug, PartialEq)]
pub enum IncrementalRunResult<T> {
    Skipped,
    Run(T),
}

/// Runs builds incrementally, with the checksums saved in `checksum_dir`.
#[derive(Debug)]
pub struct IncrementalRunner {
    pub checksum_dir: String,
}

impl IncrementalRunner {
    pub fn new(checksum_dir: &str) -> (r: IncrementalRunner)
        ensures
            r.checksum_dir@ == checksum_dir@,
    {
        IncrementalRunner { checksum_dir: owned(checksum_dir) }
    }

    /// The file where the checksum `identifier` is saved.
    pub fn get_checksum_file(&self, identifier: &str) -> (r: String)
        ensures
            r@ == joined_path(self.checksum_dir@, identifier@ + ".checksum"@),
    {
        let mut name = owned(identifier);
        name.append(".checksum");
        join_path(self.checksum_dir.as_str(), name.as_str())
    }

    /// Whether the checksum just computed is the one saved (both absent counts as a match).
    pub fn does_checksum_match(&self, checksum: &Option<String>, saved_checksum: &Option<String>) -> (b: bool)
        ensures
            b == (checksum.deep_view() == saved_checksum.deep_view()),
    {
        match (checksum, saved_checksum) {
            (Some(a), Some(b)) => *a == *b,
            (None, None) => true,
            _ => false,
        }
    }

    /// Whether a run is skipped: only a target that declares inputs is built
    /// incrementally, so a run is skipped when there is an input checksum, it is
    /// the saved one, and the checksums of the outputs match too.
    pub fn should_skip(&self, inputs: &Option<String>, saved_inputs: &Option<String>,
        outputs: &Option<String>, saved_outputs: &Option<String>) -> (b: bool)
        ensures
            b == (inputs is Some && inputs.deep_view() == saved_inputs.deep_view()
                && outputs.deep_view() == saved_outputs.deep_view()),
    {
        inputs.is_some() && self.does_checksum_match(inputs, saved_inputs)
            && self.does_checksum_match(outputs, saved_outputs)
    }
}

/// The identifier of the checksum of the inputs of the target `target_name`.
pub fn inputs_identifier(target_name: &str) -> (r: String)
    ensures
        r@ == target_name@ + ".inputs"@,
{
    let mut r = owned(target_name);
    r.append(".inputs");
    r
}

/// The identifier of the checksum of the outputs of the target `target_name`.
pub fn outputs_identifier(target_name: &str) -> (r: String)
    ensures
        r@ == target_name@ + ".outputs"@,
{
    let mut r = owned(target_name);
    r.append(".outputs");
    r
}

} // verus!
