//! Configuration binding: resolving the overlapping argument forms, parsing
//! the three size strings, repairing inverted file-size bounds, and rejecting
//! configurations that could never converge.

use vstd::prelude::*;
use crate::size::{parse_size, parse_spec, outcome_of, SizeError, ParseOutcome};

verus! {

/// A required argument that can be given by flag or positionally.
#[derive(Debug, Clone, Copy, PartialEq, Eq, Structural)]
pub enum RequiredArg {
    FolderPath,
    Size,
}

/// Which of the three size strings is meant.
#[derive(Debug, Clone, Copy, PartialEq, Eq, Structural)]
pub enum SizeField {
    Target,
    MinFile,
    MaxFile,
}

/// Why no runnable configuration could be built.
#[derive(Debug)]
pub enum ConfigError {
    /// One of the size strings was rejected.
    SizeParse { which: SizeField, err: SizeError },
    /// A required argument was supplied by neither form.
    MissingArgument { which: RequiredArg },
    /// Both file-size bounds are zero while the target is positive, so the
    /// generation loop could never make progress.
    ImpossibleProgress,
}

/// The diagnostic line of each binding failure.
pub open spec fn config_error_message(e: ConfigError) -> Seq<char> {
    match e {
        ConfigError::SizeParse { which: _, err } => crate::size::size_error_message(err),
        ConfigError::MissingArgument { which: RequiredArg::FolderPath } => "Folder path must be specified"@,
        ConfigError::MissingArgument { which: RequiredArg::Size } => "Size must be specified"@,
        ConfigError::ImpossibleProgress => "both file size bounds are zero but the target size is positive"@,
    }
}

impl ConfigError {
    /// Renders the diagnostic line for this failure.
    pub fn message(&self) -> (s: String)
        ensures
            s@ == config_error_message(*self),
    {
        match self {
            ConfigError::SizeParse { which: _, err } => err.message(),
            ConfigError::MissingArgument { which: RequiredArg::FolderPath } => String::from_str(
                "Folder path must be specified",
            ),
            ConfigError::MissingArgument { which: RequiredArg::Size } => String::from_str(
                "Size must be specified",
            ),
            ConfigError::ImpossibleProgress => String::from_str(
                "both file size bounds are zero but the target size is positive",
            ),
        }
    }
}

/// The immutable configuration of one run.
#[derive(Debug)]
pub struct Config {
    /// Destination directory; need not exist yet.
    pub folder_path: String,
    /// The loop stops once this many bytes were written.
    pub target_size: u64,
    /// Files land at depth zero up to this many directories below the root.
    pub max_depth: u64,
    /// Lower bound on each file's size.
    pub min_file_size: u64,
    /// Upper bound on each file's size.
    pub max_file_size: u64,
}

impl Config {
    /// The bounds are ordered, and a positive target has a way forward.
    pub open spec fn wf(self) -> bool {
        &&& self.min_file_size <= self.max_file_size
        &&& (self.target_size > 0 ==> self.max_file_size > 0)
    }
}

/// The raw material of a configuration, as the argument provider hands it
/// over: both forms of the two required arguments, and the optional settings
/// with their defaults already applied.
pub struct RawArgs {
    pub folder_flag: Option<String>,
    pub folder_pos: Option<String>,
    pub size_flag: Option<String>,
    pub size_pos: Option<String>,
    pub depth: u64,
    pub min: String,
    pub max: String,
}

/// The flagged form wins over the positional one.
pub open spec fn resolve_spec(flagged: Option<String>, positional: Option<String>) -> Option<
    String,
> {
    if flagged is Some {
        flagged
    } else {
        positional
    }
}

impl RawArgs {
    /// The folder path that the two forms resolve to.
    pub open spec fn folder_resolved(self) -> Option<String> {
        resolve_spec(self.folder_flag, self.folder_pos)
    }

    /// The target-size string that the two forms resolve to.
    pub open spec fn size_resolved(self) -> Option<String> {
        resolve_spec(self.size_flag, self.size_pos)
    }
}

/// Picks between the flagged and the positional form of an argument.
pub fn resolve_arg(flagged: Option<String>, positional: Option<String>) -> (r: Option<String>)
    ensures
        r == resolve_spec(flagged, positional),
{
    match flagged {
        Some(f) => Some(f),
        None => positional,
    }
}

/// The `max < min` repair: an inverted pair of bounds is replaced by two
/// copies of the lower bound; an ordered pair is kept.
pub open spec fn repair_spec(min: u64, max: u64) -> (u64, u64) {
    if max < min {
        (min, min)
    } else {
        (min, max)
    }
}

/// Repairs the file-size bounds, and says whether anything was repaired.
pub fn repair_bounds(min: u64, max: u64) -> (r: ((u64, u64), bool))
    ensures
        r.0 == repair_spec(min, max),
        r.1 == (max < min),
{
    if max < min {
        ((min, min), true)
    } else {
        ((min, max), false)
    }
}

/// Repairing already-repaired bounds changes nothing.
pub proof fn lemma_repair_idempotent(min: u64, max: u64)
    ensures
        repair_spec(repair_spec(min, max).0, repair_spec(min, max).1) == repair_spec(min, max),
{
}

/// What binding a configuration yields.
#[verifier::ext_equal]
pub enum BindOutcome {
    Bound {
        folder: Seq<char>,
        target: int,
        depth: int,
        min: int,
        max: int,
        repaired: bool,
    },
    MissingFolder,
    MissingSize,
    BadSize { which: SizeField, out: ParseOutcome },
    Impossible,
}

/// Binds a configuration: resolve the two required arguments (flag wins over
/// positional), parse the three size strings in the order target, minimum,
/// maximum, repair inverted bounds, and reject a positive target whose
/// repaired upper bound is zero.
pub open spec fn bind_spec(args: RawArgs) -> BindOutcome {
    if args.folder_resolved() is None {
        BindOutcome::MissingFolder
    } else if args.size_resolved() is None {
        BindOutcome::MissingSize
    } else {
        let ts = parse_spec(args.size_resolved().unwrap()@);
        if !(ts is Value) {
            BindOutcome::BadSize { which: SizeField::Target, out: ts }
        } else {
            let mn = parse_spec(args.min@);
            if !(mn is Value) {
                BindOutcome::BadSize { which: SizeField::MinFile, out: mn }
            } else {
                let mx = parse_spec(args.max@);
                if !(mx is Value) {
                    BindOutcome::BadSize { which: SizeField::MaxFile, out: mx }
                } else {
                    let target = ts->Value_0;
                    let min0 = mn->Value_0;
                    let max0 = mx->Value_0;
                    let repaired = max0 < min0;
                    let maxr = if max0 < min0 {
                        min0
                    } else {
                        max0
                    };
                    if target > 0 && maxr == 0 {
                        BindOutcome::Impossible
                    } else {
                        BindOutcome::Bound {
                            folder: args.folder_resolved().unwrap()@,
                            target,
                            depth: args.depth as int,
                            min: min0,
                            max: maxr,
                            repaired,
                        }
                    }
                }
            }
        }
    }
}

/// Builds the configuration of a run from the raw arguments.
///
/// Returns the configuration together with a flag that says whether the
/// `max < min` repair fired, so the caller can warn about it.
pub fn bind_config(args: RawArgs) -> (r: Result<(Config, bool), ConfigError>)
    ensures
        (match r {
            Ok(p) => bind_spec(args) == (BindOutcome::Bound {
                folder: p.0.folder_path@,
                target: p.0.target_size as int,
                depth: p.0.max_depth as int,
                min: p.0.min_file_size as int,
                max: p.0.max_file_size as int,
                repaired: p.1,
            }) && p.0.wf(),
            Err(ConfigError::MissingArgument { which }) => (which == RequiredArg::FolderPath
                && bind_spec(args) == BindOutcome::MissingFolder) || (which == RequiredArg::Size
                && bind_spec(args) == BindOutcome::MissingSize),
            Err(ConfigError::SizeParse { which, err }) => bind_spec(args) == (BindOutcome::BadSize {
                which,
                out: outcome_of(Err::<u64, SizeError>(err)),
            }),
            Err(ConfigError::ImpossibleProgress) => bind_spec(args) == BindOutcome::Impossible,
        }),
{
    let RawArgs { folder_flag, folder_pos, size_flag, size_pos, depth, min, max } = args;
    let folder_path = match resolve_arg(folder_flag, folder_pos) {
        Some(f) => f,
        None => {
            return Err(ConfigError::MissingArgument { which: RequiredArg::FolderPath });
        },
    };
    let size_str = match resolve_arg(size_flag, size_pos) {
        Some(sz) => sz,
        None => {
            return Err(ConfigError::MissingArgument { which: RequiredArg::Size });
        },
    };
    let target_size = match parse_size(size_str.as_str()) {
        Ok(v) => v,
        Err(e) => {
            return Err(ConfigError::SizeParse { which: SizeField::Target, err: e });
        },
    };
    let min_file_size = match parse_size(min.as_str()) {
        Ok(v) => v,
        Err(e) => {
            return Err(ConfigError::SizeParse { which: SizeField::MinFile, err: e });
        },
    };
    let max_parsed = match parse_size(max.as_str()) {
        Ok(v) => v,
        Err(e) => {
            return Err(ConfigError::SizeParse { which: SizeField::MaxFile, err: e });
        },
    };
    let repaired = max_parsed < min_file_size;
    let max_file_size = if max_parsed < min_file_size {
        min_file_size
    } else {
        max_parsed
    };
    if target_size > 0 && max_file_size == 0 {
        return Err(ConfigError::ImpossibleProgress);
    }
    let c = Config { folder_path, target_size, max_depth: depth, min_file_size, max_file_size };
    proof {
        assert(bind_spec(args) =~= (BindOutcome::Bound {
            folder: c.folder_path@,
            target: c.target_size as int,
            depth: c.max_depth as int,
            min: c.min_file_size as int,
            max: c.max_file_size as int,
            repaired,
        }));
    }
    Ok((c, repaired))
}

} // verus!
