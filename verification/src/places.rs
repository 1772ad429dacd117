//! The user's well-known folders, as the platform reports them.

use vstd::prelude::*;

verus! {

/// The desktop platforms NodeDesk runs on.
#[derive(PartialEq, Eq, Structural, Clone, Copy, Debug)]
pub enum Platform {
    Windows,
    Linux,
    MacOs,
}

/// `dirs::home_dir`, as text. Trusted; nothing is promised of the result,
/// which depends on the platform and the environment the process runs in.
#[verifier::external_body]
pub(crate) fn home_dir() -> (res: Option<String>) {
    dirs::home_dir().map(|p| p.to_string_lossy().to_string())
}

/// `dirs::download_dir`, as text. Trusted; nothing is promised of the
/// result, which depends on the platform and the environment.
#[verifier::external_body]
pub(crate) fn download_dir() -> (res: Option<String>) {
    dirs::download_dir().map(|p| p.to_string_lossy().to_string())
}

} // verus!
