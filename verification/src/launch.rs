//! The launch decision: how a chosen path must be handed to the operating
//! system, and the error a failed process creation surfaces.

use vstd::prelude::*;
use vstd::string::StringExecFns;
use crate::pathname::{spec_path_ext, path_split};
use crate::text::chars_of;

verus! {

/// How a path must be dispatched.
#[derive(Clone, Copy, PartialEq, Eq, Structural, Debug)]
pub enum LaunchMethod {
    /// Hand the file to the platform shell's "open" verb, so shortcut
    /// resolution is honored.
    ShellOpen,
    /// Spawn the path directly as a new, detached child process.
    DirectSpawn,
}

/// Why a process could not be created, with the path it was for.  Never
/// fatal to the caller.
pub struct LaunchError {
    /// The path whose launch failed.
    pub path: String,
    /// The underlying cause, as the operating system reported it.
    pub cause: String,
}

impl LaunchError {
    /// A launch failure for the given path with the given cause.
    pub fn new(path: String, cause: String) -> (r: LaunchError)
        ensures
            r.path@ == path@,
            r.cause@ == cause@,
    {
        LaunchError { path, cause }
    }

    /// A human-readable account of the failure.
    pub fn message(&self) -> (r: String)
        ensures
            r@ == "failed to launch "@ + self.path@ + ": "@ + self.cause@,
    {
        let mut s = String::from_str("failed to launch ");
        s.append(self.path.as_str());
        s.append(": ");
        s.append(self.cause.as_str());
        s
    }
}

/// The dispatch a path calls for: a path whose extension is exactly `lnk`
/// goes through the shell's "open" verb; every other path is spawned
/// directly.
pub fn launch_method(path: &str) -> (m: LaunchMethod)
    ensures
        (m is ShellOpen) == (spec_path_ext(path@) == Option::Some("lnk"@)),
{
    let se = path_split(path);
    match se.1 {
        Option::None => LaunchMethod::DirectSpawn,
        Option::Some(ext) => {
            let lnk = chars_of("lnk");
            if crate::text::chars_eq(&ext, &lnk) {
                LaunchMethod::ShellOpen
            } else {
                LaunchMethod::DirectSpawn
            }
        },
    }
}

} // verus!
