//! Command-line arguments: where definitions are read from and where the
//! generated repositories go.
use vstd::prelude::*;

use crate::text::same_text;

verus! {

/// Why argument parsing stopped without a pair of directories.
#[derive(Debug)]
pub enum ArgsError {
    /// `--help` or `-h`: the caller prints usage and exits successfully.
    HelpRequested,
    /// `--version` or `-V`: the caller prints the version and exits successfully.
    VersionRequested,
    /// A flag that takes a value came last; holds the flag's long name.
    MissingValue(String),
    /// An argument that is no known flag.
    UnknownArgument(String),
}

/// Model of an `ArgsError`.
pub enum ArgsErrorModel {
    HelpRequested,
    VersionRequested,
    MissingValue(Seq<char>),
    UnknownArgument(Seq<char>),
}

impl DeepView for ArgsError {
    type V = ArgsErrorModel;

    open spec fn deep_view(&self) -> ArgsErrorModel {
        match self {
            ArgsError::HelpRequested => ArgsErrorModel::HelpRequested,
            ArgsError::VersionRequested => ArgsErrorModel::VersionRequested,
            ArgsError::MissingValue(f) => ArgsErrorModel::MissingValue(f@),
            ArgsError::UnknownArgument(a) => ArgsErrorModel::UnknownArgument(a@),
        }
    }
}

/// The text shown for a parsing error.
pub open spec fn args_error_message(e: ArgsErrorModel) -> Seq<char> {
    match e {
        ArgsErrorModel::HelpRequested => "help requested"@,
        ArgsErrorModel::VersionRequested => "version requested"@,
        ArgsErrorModel::MissingValue(f) => "missing value for "@ + f,
        ArgsErrorModel::UnknownArgument(a) => "unknown argument: "@ + a
            + "\n\nRun with --help for usage."@,
    }
}

impl ArgsError {
    /// The text shown for this error.
    pub fn message(&self) -> (m: String)
        ensures
            m@ == args_error_message(self.deep_view()),
    {
        match self {
            ArgsError::HelpRequested => String::from_str("help requested"),
            ArgsError::VersionRequested => String::from_str("version requested"),
            ArgsError::MissingValue(f) => String::from_str("missing value for ").concat(
                f.as_str(),
            ),
            ArgsError::UnknownArgument(a) => String::from_str("unknown argument: ").concat(
                a.as_str(),
            ).concat("\n\nRun with --help for usage."),
        }
    }
}

/// The definitions directory used when none is given.
pub open spec fn default_definitions_dir() -> Seq<char> {
    "fixtures/definitions"@
}

/// The output directory used when none is given.
pub open spec fn default_output_dir() -> Seq<char> {
    "fixtures/generated"@
}

/// The outcome of reading `args` from index `i` on, with the directories chosen
/// so far: flags are read left to right, a later flag overrides an earlier one,
/// and the first help, version, incomplete or unknown argument stops the read.
pub open spec fn parse_from(args: Seq<Seq<char>>, i: int, defs: Seq<char>, out: Seq<char>) -> Result<
    (Seq<char>, Seq<char>),
    ArgsErrorModel,
>
    decreases args.len() - i,
{
    if i < 0 || i >= args.len() {
        Ok((defs, out))
    } else {
        let a = args[i];
        if a == "--help"@ || a == "-h"@ {
            Err(ArgsErrorModel::HelpRequested)
        } else if a == "--version"@ || a == "-V"@ {
            Err(ArgsErrorModel::VersionRequested)
        } else if a == "--definitions"@ || a == "-d"@ {
            if i + 1 < args.len() {
                parse_from(args, i + 2, args[i + 1], out)
            } else {
                Err(ArgsErrorModel::MissingValue("--definitions"@))
            }
        } else if a == "--output"@ || a == "-o"@ {
            if i + 1 < args.len() {
                parse_from(args, i + 2, defs, args[i + 1])
            } else {
                Err(ArgsErrorModel::MissingValue("--output"@))
            }
        } else {
            Err(ArgsErrorModel::UnknownArgument(a))
        }
    }
}

/// The outcome of parsing a full argument list; `args[0]`, the program name,
/// is skipped.
pub open spec fn spec_parse_args(args: Seq<Seq<char>>) -> Result<
    (Seq<char>, Seq<char>),
    ArgsErrorModel,
> {
    parse_from(args, 1, default_definitions_dir(), default_output_dir())
}

/// Reads the definitions and output directories from the program's arguments.
pub fn parse_args(args: &[String]) -> (r: Result<(String, String), ArgsError>)
    ensures
        match r {
            Ok((d, o)) => spec_parse_args(args@.map_values(|s: String| s@)) == Ok::<
                (Seq<char>, Seq<char>),
                ArgsErrorModel,
            >((d@, o@)),
            Err(e) => spec_parse_args(args@.map_values(|s: String| s@)) == Err::<
                (Seq<char>, Seq<char>),
                ArgsErrorModel,
            >(e.deep_view()),
        },
{
    let ghost a = args@.map_values(|s: String| s@);
    let mut defs = String::from_str("fixtures/definitions");
    let mut out = String::from_str("fixtures/generated");
    let mut i: usize = 1;
    while i < args.len()
        invariant
            a == args@.map_values(|s: String| s@),
            1 <= i,
            spec_parse_args(a) == parse_from(a, i as int, defs@, out@),
        decreases args.len() - i,
    {
        let arg = args[i].as_str();
        assert(a[i as int] == arg@);
        if same_text(arg, "--help") || same_text(arg, "-h") {
            return Err(ArgsError::HelpRequested);
        } else if same_text(arg, "--version") || same_text(arg, "-V") {
            return Err(ArgsError::VersionRequested);
        } else if same_text(arg, "--definitions") || same_text(arg, "-d") {
            if i + 1 < args.len() {
                assert(a[i + 1] == args@[i + 1]@);
                defs = args[i + 1].clone();
                i = i + 2;
            } else {
                return Err(ArgsError::MissingValue(String::from_str("--definitions")));
            }
        } else if same_text(arg, "--output") || same_text(arg, "-o") {
            if i + 1 < args.len() {
                assert(a[i + 1] == args@[i + 1]@);
                out = args[i + 1].clone();
                i = i + 2;
            } else {
                return Err(ArgsError::MissingValue(String::from_str("--output")));
            }
        } else {
            return Err(ArgsError::UnknownArgument(args[i].clone()));
        }
    }
    (Ok((defs, out)))
}

} // verus!
