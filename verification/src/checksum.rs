//! Checksums of targets, saved under the checksum directory of the working directory.

use crate::text::owned;
use vstd::prelude::*;

verus! {

/// The directory, relative to the working directory, where checksums are saved.
pub const CHECKSUM_DIRECTORY: &'static str = ".buildy";

/// The file where the checksum of `target` is saved.
pub fn checksum_file_name(target: &str) -> (r: String)
    ensures
        r@ == CHECKSUM_DIRECTORY@ + "/"@ + target@ + ".checksum"@,
{
    let mut r = owned(CHECKSUM_DIRECTORY);
    r.append("/");
    r.append(target);
    r.append(".checksum");
    r
}

/// Whether `checksum` is the checksum saved for a target (`None` when none is saved).
pub fn does_checksum_match(checksum: &str, saved_checksum: &Option<String>) -> (b: bool)
    ensures
        b == (saved_checksum.deep_view() == Some(checksum@)),
{
    match saved_checksum {
        Some(old) => crate::text::str_eq(checksum, old.as_str()),
        None => false,
    }
}

} // verus!
