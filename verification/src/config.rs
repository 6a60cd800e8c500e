//! The run configuration and the command-line scan that builds it.

use vstd::prelude::*;
use vstd::string::StringExecFns;

use crate::chars::char_is_letter;
use crate::chars::fold_char;
use crate::chars::fold_char_exec;
use crate::chars::is_letter_char;
use crate::chars::str_eq;
use crate::errors::CliError;
use crate::errors::CliErrorV;
use crate::numbers::is_usize_numeral;
use crate::numbers::parse_usize;
use crate::numbers::usize_numeral_value;
use crate::words::word_views;

verus! {

/// The validated configuration of one run.
#[derive(Debug, PartialEq, Eq)]
pub struct Config {
    pub file_path: String,
    pub min_length: usize,
    pub starts_with: Option<char>,
}

/// The mathematical image of a `Config`.
pub ghost struct ConfigV {
    pub file_path: Seq<char>,
    pub min_length: usize,
    pub starts_with: Option<char>,
}

impl View for Config {
    type V = ConfigV;

    open spec fn view(&self) -> ConfigV {
        ConfigV {
            file_path: self.file_path@,
            min_length: self.min_length,
            starts_with: self.starts_with,
        }
    }
}

/// One left-to-right scan over the arguments after the file path. A
/// recognized flag consumes the following argument as its value; later
/// occurrences override earlier ones; anything else is skipped.
pub open spec fn scan_flags(
    args: Seq<Seq<char>>,
    i: int,
    min_length: usize,
    starts_with: Option<char>,
) -> Result<(usize, Option<char>), CliErrorV>
    decreases args.len() - i,
{
    if i >= args.len() {
        Ok((min_length, starts_with))
    } else if args[i] == "--min-length"@ {
        if i + 1 >= args.len() {
            Err(CliErrorV::InvalidMinLength { value: ""@, reason: "Missing value"@ })
        } else if !is_usize_numeral(args[i + 1]) {
            Err(CliErrorV::InvalidMinLength { value: args[i + 1], reason: "Not a number"@ })
        } else {
            scan_flags(args, i + 2, usize_numeral_value(args[i + 1]) as usize, starts_with)
        }
    } else if args[i] == "--starts-with"@ {
        if i + 1 >= args.len() {
            Err(CliErrorV::InvalidStartsWith { value: ""@, reason: "Missing value"@ })
        } else if args[i + 1].len() == 0 {
            Err(CliErrorV::InvalidStartsWith { value: args[i + 1], reason: "Not a char"@ })
        } else if !is_letter_char(args[i + 1][0]) {
            Err(CliErrorV::InvalidStartsWith { value: args[i + 1], reason: "Must be a letter"@ })
        } else {
            scan_flags(args, i + 2, min_length, Some(fold_char(args[i + 1][0])))
        }
    } else {
        scan_flags(args, i + 1, min_length, starts_with)
    }
}

/// The configuration that a full argument list produces: the file path is
/// argument one, the flags are scanned from argument two on.
pub open spec fn spec_parse_args(args: Seq<Seq<char>>) -> Result<ConfigV, CliErrorV> {
    if args.len() < 2 {
        Err(CliErrorV::MissingFilePath)
    } else {
        match scan_flags(args, 2, 0, None) {
            Ok((min_length, starts_with)) => Ok(
                ConfigV { file_path: args[1], min_length, starts_with },
            ),
            Err(e) => Err(e),
        }
    }
}

impl Config {
    /// Builds the configuration from the full argument list, program name
    /// included at index zero.
    pub fn new(args: Vec<String>) -> (r: Result<Config, CliError>)
        ensures
            match r {
                Ok(c) => spec_parse_args(word_views(args@)) == Ok::<ConfigV, CliErrorV>(c@),
                Err(e) => spec_parse_args(word_views(args@)) == Err::<ConfigV, CliErrorV>(e@),
            },
    {
        let ghost av = word_views(args@);
        if args.len() < 2 {
            return Err(CliError::MissingFilePath);
        }
        let file_path = args[1].clone();
        let mut min_length: usize = 0;
        let mut starts_with: Option<char> = None;
        let mut i: usize = 2;
        while i < args.len()
            invariant
                2 <= i,
                av == word_views(args@),
                args@.len() >= 2,
                scan_flags(av, 2, 0, None) == scan_flags(av, i as int, min_length, starts_with),
            decreases args@.len() - i,
        {
            let a = &args[i];
            assert(a@ == av[i as int]);
            if str_eq(a.as_str(), "--min-length") {
                if i + 1 >= args.len() {
                    return Err(
                        CliError::InvalidMinLength {
                            value: "".to_owned(),
                            reason: "Missing value".to_owned(),
                        },
                    );
                }
                assert(args@[i + 1]@ == av[i + 1]);
                match parse_usize(args[i + 1].as_str()) {
                    Some(v) => {
                        min_length = v;
                        i = i + 2;
                    },
                    None => {
                        return Err(
                            CliError::InvalidMinLength {
                                value: args[i + 1].clone(),
                                reason: "Not a number".to_owned(),
                            },
                        );
                    },
                }
            } else if str_eq(a.as_str(), "--starts-with") {
                if i + 1 >= args.len() {
                    return Err(
                        CliError::InvalidStartsWith {
                            value: "".to_owned(),
                            reason: "Missing value".to_owned(),
                        },
                    );
                }
                assert(args@[i + 1]@ == av[i + 1]);
                let vn = args[i + 1].as_str().unicode_len();
                if vn == 0 {
                    return Err(
                        CliError::InvalidStartsWith {
                            value: args[i + 1].clone(),
                            reason: "Not a char".to_owned(),
                        },
                    );
                }
                let c0 = args[i + 1].as_str().get_char(0);
                if !char_is_letter(c0) {
                    return Err(
                        CliError::InvalidStartsWith {
                            value: args[i + 1].clone(),
                            reason: "Must be a letter".to_owned(),
                        },
                    );
                }
                starts_with = Some(fold_char_exec(c0));
                i = i + 2;
            } else {
                i = i + 1;
            }
        }
        Ok(Config { file_path, min_length, starts_with })
    }
}

} // verus!
