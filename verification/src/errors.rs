//! Failure taxonomy of the initialization sequence.
//!
//! A wrong host build or a conflicting third-party patch is unrecoverable
//! and aborts initialization; the optional companion components merely
//! disable their feature when missing. Win32-style failures carry the raw
//! error code as a plain value.

use vstd::prelude::*;

verus! {

#[derive(Debug)]
pub enum Error {
    /// A win32-style API call failed; carries its error code.
    WinApiError(i32),
    /// An exported symbol of the companion library was not found.
    FunctionNotFound(String),
    /// The patch site does not hold the expected call opcode: wrong host
    /// build or a conflicting modification.
    MaybeInvalidGameOrPluginConflicting,
    /// The host's network client library is not loaded; carries the error
    /// code of the failed lookup.
    SampNotLoaded(i32),
    /// The network client's entry point matches no known build.
    IncompatibleSampVersion,
    /// The scripting loader's entry point matches no known build; carries
    /// the unrecognized entry point.
    IncompatibleMoonLoaderVersion(u32),
}

impl Error {
    /// The diagnostic text logged for this failure.
    pub open spec fn spec_message(&self) -> Seq<char> {
        match self {
            Error::WinApiError(_) => "WinAPI error"@,
            Error::FunctionNotFound(symbol) => "GetProcAddress failed for symbol: "@ + symbol@,
            Error::MaybeInvalidGameOrPluginConflicting => "Maybe invalid game or conflicting plugin"@,
            Error::SampNotLoaded(_) => "Library 'samp.dll' not found"@,
            Error::IncompatibleSampVersion => "Incompatible SA-MP version"@,
            Error::IncompatibleMoonLoaderVersion(_) => "Incompatible MoonLoader version"@,
        }
    }

    pub fn message(&self) -> (r: String)
        ensures
            r@ == self.spec_message(),
    {
        match self {
            Error::WinApiError(_) => String::from_str("WinAPI error"),
            Error::FunctionNotFound(symbol) => {
                let mut s = String::from_str("GetProcAddress failed for symbol: ");
                s.append(symbol.as_str());
                s
            },
            Error::MaybeInvalidGameOrPluginConflicting => String::from_str(
                "Maybe invalid game or conflicting plugin",
            ),
            Error::SampNotLoaded(_) => String::from_str("Library 'samp.dll' not found"),
            Error::IncompatibleSampVersion => String::from_str("Incompatible SA-MP version"),
            Error::IncompatibleMoonLoaderVersion(_) => String::from_str(
                "Incompatible MoonLoader version",
            ),
        }
    }
}

} // verus!