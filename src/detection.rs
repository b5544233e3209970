//! Node.js installations found on the system outside the manager.
use vstd::prelude::*;

use crate::text::{contains_str, lower_of, lowercase, str_contains};

verus! {

/// Where an installation was found.
#[derive(Clone, Copy, Debug, PartialEq, Eq, Structural)]
pub enum DetectionSource {
    PathEnvironment,
    SystemInstallation,
    NvmManaged,
}

impl DetectionSource {
    /// The label shown for the source.
    pub fn label(&self) -> (r: &'static str)
        ensures
            r@ == match *self {
                DetectionSource::PathEnvironment => "PATH"@,
                DetectionSource::SystemInstallation => "System"@,
                DetectionSource::NvmManaged => "NVM"@,
            },
    {
        match self {
            DetectionSource::PathEnvironment => "PATH",
            DetectionSource::SystemInstallation => "System",
            DetectionSource::NvmManaged => "NVM",
        }
    }
}

/// One Node.js installation outside the manager.
#[derive(Debug, Clone)]
pub struct SystemNodeInfo {
    pub path: String,
    pub version: String,
    pub npm_version: Option<String>,
    pub source: DetectionSource,
}

/// Whether a path belongs to a version manager: its lowercase form
/// mentions `nvm`.
pub fn is_nvm_managed(path: &str) -> (r: bool)
    ensures
        r == contains_str(lower_of(path@), "nvm"@),
{
    proof {
        reveal_strlit("nvm");
    }
    let l = lowercase(path);
    str_contains(l.as_str(), "nvm")
}

} // verus!
