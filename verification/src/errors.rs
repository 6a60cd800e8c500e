//! The failure cases of a run, each with the context its diagnostic needs,
//! and their mapping to process exit codes and diagnostic lines.

use vstd::prelude::*;
use vstd::string::StringExecFns;

verus! {

/// A failed run: configuration errors, read errors, and empty input.
#[derive(Debug, PartialEq, Eq)]
pub enum CliError {
    MissingFilePath,
    InvalidMinLength { value: String, reason: String },
    InvalidStartsWith { value: String, reason: String },
    FileNotFound(String),
    FileReadPermission(String),
    FileReadError(String),
    EmptyFile,
}

/// The mathematical image of a `CliError`.
pub ghost enum CliErrorV {
    MissingFilePath,
    InvalidMinLength { value: Seq<char>, reason: Seq<char> },
    InvalidStartsWith { value: Seq<char>, reason: Seq<char> },
    FileNotFound(Seq<char>),
    FileReadPermission(Seq<char>),
    FileReadError(Seq<char>),
    EmptyFile,
}

impl View for CliError {
    type V = CliErrorV;

    open spec fn view(&self) -> CliErrorV {
        match self {
            CliError::MissingFilePath => CliErrorV::MissingFilePath,
            CliError::InvalidMinLength { value, reason } => CliErrorV::InvalidMinLength {
                value: value@,
                reason: reason@,
            },
            CliError::InvalidStartsWith { value, reason } => CliErrorV::InvalidStartsWith {
                value: value@,
                reason: reason@,
            },
            CliError::FileNotFound(path) => CliErrorV::FileNotFound(path@),
            CliError::FileReadPermission(path) => CliErrorV::FileReadPermission(path@),
            CliError::FileReadError(message) => CliErrorV::FileReadError(message@),
            CliError::EmptyFile => CliErrorV::EmptyFile,
        }
    }
}

/// The process exit code of each failure case.
pub open spec fn spec_exit_code(e: CliErrorV) -> int {
    match e {
        CliErrorV::MissingFilePath => 1,
        CliErrorV::InvalidMinLength { .. } => 2,
        CliErrorV::InvalidStartsWith { .. } => 3,
        CliErrorV::FileNotFound(_) => 4,
        CliErrorV::FileReadPermission(_) => 5,
        CliErrorV::FileReadError(_) => 6,
        CliErrorV::EmptyFile => 7,
    }
}

/// Maps a failure to its process exit code.
pub fn exit_code(e: &CliError) -> (r: i32)
    ensures
        r as int == spec_exit_code(e@),
{
    match e {
        CliError::MissingFilePath => 1,
        CliError::InvalidMinLength { .. } => 2,
        CliError::InvalidStartsWith { .. } => 3,
        CliError::FileNotFound(_) => 4,
        CliError::FileReadPermission(_) => 5,
        CliError::FileReadError(_) => 6,
        CliError::EmptyFile => 7,
    }
}

/// The diagnostic line of each failure case.
pub open spec fn spec_diagnostic(e: CliErrorV) -> Seq<char> {
    match e {
        CliErrorV::MissingFilePath => "Error: Missing file path."@,
        CliErrorV::InvalidMinLength { value, reason } => "Error: Invalid --min-length '"@ + value
            + "': "@ + reason,
        CliErrorV::InvalidStartsWith { value, reason } => "Error: Invalid --starts-with '"@ + value
            + "': "@ + reason,
        CliErrorV::FileNotFound(path) => "Error: File '"@ + path + "' not found."@,
        CliErrorV::FileReadPermission(path) => "Error: Permission denied reading '"@ + path
            + "'."@,
        CliErrorV::FileReadError(message) => "Error: Failed to read file: "@ + message,
        CliErrorV::EmptyFile => "Error: File is empty."@,
    }
}

/// Renders the diagnostic line of a failure.
pub fn diagnostic(e: &CliError) -> (r: String)
    ensures
        r@ == spec_diagnostic(e@),
{
    match e {
        CliError::MissingFilePath => "Error: Missing file path.".to_owned(),
        CliError::InvalidMinLength { value, reason } => {
            let mut s = "Error: Invalid --min-length '".to_owned();
            s.append(value.as_str());
            s.append("': ");
            s.append(reason.as_str());
            proof {
                assert(s@ =~= spec_diagnostic(e@));
            }
            s
        },
        CliError::InvalidStartsWith { value, reason } => {
            let mut s = "Error: Invalid --starts-with '".to_owned();
            s.append(value.as_str());
            s.append("': ");
            s.append(reason.as_str());
            proof {
                assert(s@ =~= spec_diagnostic(e@));
            }
            s
        },
        CliError::FileNotFound(path) => {
            let mut s = "Error: File '".to_owned();
            s.append(path.as_str());
            s.append("' not found.");
            proof {
                assert(s@ =~= spec_diagnostic(e@));
            }
            s
        },
        CliError::FileReadPermission(path) => {
            let mut s = "Error: Permission denied reading '".to_owned();
            s.append(path.as_str());
            s.append("'.");
            proof {
                assert(s@ =~= spec_diagnostic(e@));
            }
            s
        },
        CliError::FileReadError(message) => {
            let mut s = "Error: Failed to read file: ".to_owned();
            s.append(message.as_str());
            proof {
                assert(s@ =~= spec_diagnostic(e@));
            }
            s
        },
        CliError::EmptyFile => "Error: File is empty.".to_owned(),
    }
}

} // verus!
