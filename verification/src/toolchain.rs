//! The pre-flight toolchain probe: turning the raw output of the version
//! commands into a status report.  Running the commands is the embedding
//! program's task; it hands the raw bytes and success flags here.
use vstd::prelude::*;
use vstd::utf8::{decode_utf8, valid_utf8};
use crate::text::{bytes_to_string, trim_ascii_ws, trimmed};

verus! {

/// Whether the build toolchain is present, with the version banner of each
/// of its commands where one was obtained.
#[derive(Debug)]
pub struct ToolchainStatus {
    pub installed: bool,
    pub cargo_version: Option<String>,
    pub rustc_version: Option<String>,
    pub rustup_version: Option<String>,
}

/// What a version probe yields: the command's output, trimmed and decoded,
/// when the command succeeded and its trimmed output is valid text; nothing
/// otherwise.
pub open spec fn version_spec(success: bool, out: Seq<u8>) -> Option<Seq<char>> {
    if success && valid_utf8(trimmed(out)) {
        Some(decode_utf8(trimmed(out)))
    } else {
        None::<Seq<char>>
    }
}

/// Turns one version command's outcome into its banner: the output trimmed
/// of surrounding whitespace, kept only when the command succeeded and the
/// result is valid text.
pub fn version_from_output(success: bool, out: &[u8]) -> (r: Option<String>)
    ensures
        match r {
            Some(s) => version_spec(success, out@) == Some(s@),
            None => version_spec(success, out@) is None,
        },
{
    if success {
        let t = trim_ascii_ws(out);
        bytes_to_string(t)
    } else {
        None
    }
}

/// Assembles the probe report: the toolchain counts as installed exactly
/// when both the build command and the compiler answered with a version.
pub fn toolchain_status(
    cargo_version: Option<String>,
    rustc_version: Option<String>,
    rustup_version: Option<String>,
) -> (s: ToolchainStatus)
    ensures
        s.installed == (cargo_version is Some && rustc_version is Some),
        s.cargo_version == cargo_version,
        s.rustc_version == rustc_version,
        s.rustup_version == rustup_version,
{
    let installed = cargo_version.is_some() && rustc_version.is_some();
    ToolchainStatus { installed, cargo_version, rustc_version, rustup_version }
}

} // verus!
