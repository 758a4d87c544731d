//! What a save file promises about itself.
//!
//! Every type in the game can be written down; what this module adds is the
//! version stamped on the front of a save, so a park written by a future
//! openpark is refused rather than half-read.

use vstd::prelude::*;

verus! {

/// What this openpark writes, and the highest it can read.
pub const FORMAT: u32 = 1;

/// What the default save is called.
pub const DEFAULT_PATH: &'static str = "openpark.save.json";

/// Why a save was refused.
#[derive(Debug, Clone, Copy, PartialEq, Eq, Structural)]
pub enum SaveError {
    /// It was written in a format this build does not read.
    WrongVersion(u32),
}

/// Whether a save stamped `version` can be read by this build.
///
/// Only its own format: until there is a released version to be compatible
/// with, a save from a different number is simply refused.
pub fn check_version(version: u32) -> (r: Result<(), SaveError>)
    ensures
        r is Ok <==> version == FORMAT,
        r is Err ==> r == Err::<(), SaveError>(SaveError::WrongVersion(version)),
{
    if version == FORMAT {
        Ok(())
    } else {
        Err(SaveError::WrongVersion(version))
    }
}

} // verus!
