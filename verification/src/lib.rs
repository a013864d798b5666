//! Masstin: a lateral-movement correlation engine for authentication and
//! connection logs.
//!
//! Heterogeneous sources (Windows event logs, Linux login-accounting files and
//! text logs, cloud EDR query feeds) are decoded into one canonical event
//! schema; canonical tables are merged, deduplicated, aggregated into
//! host-to-host edges, and emitted as idempotent graph upsert operations.
use vstd::prelude::*;

pub mod archive;
pub mod correlate;
pub mod cortex;
pub mod elastic;
pub mod emit;
pub mod linuxbin;
pub mod linuxtext;
pub mod merge;
pub mod model;
pub mod sink;
pub mod text;
pub mod timestamp;
pub mod winevent;

verus! {

/// Per-run configuration threaded explicitly through decoders and engines,
/// in place of process-wide mutable state.
pub struct RunConfig {
    pub debug: bool,
}

impl RunConfig {
    pub fn new() -> (cfg: RunConfig)
        ensures
            !cfg.debug,
    {
        RunConfig { debug: false }
    }
}

/// Turns verbose diagnostics on or off for one run.
pub fn set_debug_mode(cfg: &mut RunConfig, val: bool)
    ensures
        final(cfg).debug == val,
{
    cfg.debug = val;
}

/// Reports whether verbose diagnostics are on for this run.
pub fn is_debug_mode(cfg: &RunConfig) -> (r: bool)
    ensures
        r == cfg.debug,
{
    cfg.debug
}

/// The actions one run can perform.
pub enum ActionType {
    /// Decode event-log containers from files and directories into a table.
    Parse,
    /// Correlate a table and load the edges into the graph sink.
    Load,
    /// Merge previously generated tables into one time-sorted table.
    Merge,
    /// Decode log-shipper JSON records into a table.
    ParserElastic,
    /// Query the EDR service for network records.
    ParseCortex,
    /// Query the EDR service for forensics records.
    ParseCortexEvtxForensics,
    /// Decode Linux accounting files and text logs into a table.
    ParseLinux,
}

/// One run's command-line configuration, as plain values.
pub struct Cli {
    pub action: ActionType,
    pub directory: Vec<String>,
    pub file: Vec<String>,
    pub output: Option<String>,
    pub database: Option<String>,
    pub user: Option<String>,
    pub overwrite: bool,
    pub stdout: bool,
    pub debug: bool,
    pub cortex_url: Option<String>,
    pub start_time: Option<String>,
    pub end_time: Option<String>,
    pub filter_cortex_ip: Option<String>,
}

/// What an argument precheck can refuse.
pub enum ArgError {
    /// The action needs at least one file or directory.
    NoInputs,
    /// The load action needs a file, a database and a user.
    LoadIncomplete,
    /// Merging needs at least two files.
    TooFewMergeInputs,
    /// The query actions need a service endpoint of the expected shape.
    BadQueryUrl,
}

/// Whether the configured endpoint has the required prefix.
pub open spec fn spec_url_ok(u: Option<Seq<char>>) -> bool {
    match u {
        Some(s) => text::spec_starts_with(s, "https://api-"@),
        None => false,
    }
}

/// The pure part of argument validation: which argument combinations each
/// action refuses, before any look at the file system.
pub open spec fn spec_precheck(cli: &Cli) -> Option<ArgError> {
    match cli.action {
        ActionType::Parse | ActionType::ParserElastic | ActionType::ParseLinux => {
            if cli.directory@.len() == 0 && cli.file@.len() == 0 {
                Some(ArgError::NoInputs)
            } else {
                None
            }
        },
        ActionType::Load => {
            if cli.file@.len() == 0 || cli.database is None || cli.user is None {
                Some(ArgError::LoadIncomplete)
            } else {
                None
            }
        },
        ActionType::Merge => {
            if cli.file@.len() < 2 {
                Some(ArgError::TooFewMergeInputs)
            } else {
                None
            }
        },
        ActionType::ParseCortex | ActionType::ParseCortexEvtxForensics => {
            if !spec_url_ok(
                match cli.cortex_url {
                    Some(ref s) => Some(s@),
                    None => None,
                },
            ) {
                Some(ArgError::BadQueryUrl)
            } else {
                None
            }
        },
    }
}

/// Checks the pure argument rules of the chosen action.
pub fn precheck_args(cli: &Cli) -> (r: Option<ArgError>)
    ensures
        r == spec_precheck(cli),
{
    match cli.action {
        ActionType::Parse | ActionType::ParserElastic | ActionType::ParseLinux => {
            if cli.directory.len() == 0 && cli.file.len() == 0 {
                Some(ArgError::NoInputs)
            } else {
                None
            }
        },
        ActionType::Load => {
            if cli.file.len() == 0 || cli.database.is_none() || cli.user.is_none() {
                Some(ArgError::LoadIncomplete)
            } else {
                None
            }
        },
        ActionType::Merge => {
            if cli.file.len() < 2 {
                Some(ArgError::TooFewMergeInputs)
            } else {
                None
            }
        },
        ActionType::ParseCortex | ActionType::ParseCortexEvtxForensics => {
            let ok = match &cli.cortex_url {
                Some(u) => {
                    let uc = text::chars_of(u.as_str());
                    let pat: Vec<char> = vec![
                        'h',
                        't',
                        't',
                        'p',
                        's',
                        ':',
                        '/',
                        '/',
                        'a',
                        'p',
                        'i',
                        '-',
                    ];
                    proof {
                        reveal_strlit("https://api-");
                        assert(pat@ =~= "https://api-"@);
                    }
                    text::starts_with(&uc, &pat)
                },
                None => false,
            };
            if !ok {
                Some(ArgError::BadQueryUrl)
            } else {
                None
            }
        },
    }
}

} // verus!
