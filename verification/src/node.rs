//! Node-manager domain types: the error kinds, the node status, the node
//! configuration with its default, and the decisions the manager makes —
//! which command-line arguments a start uses and when a start or stop is
//! legal. Spawning and stopping the process itself happens outside this
//! crate; it asks these functions what to do.

use vstd::prelude::*;

use crate::index::dec_digits;
use crate::index::u64_to_dec;
use crate::text::chars_to_string;

verus! {

/// Everything that can go wrong around the managed node and the
/// pipeline's decoders.
#[derive(Debug)]
pub enum GaiaError {
    Io(String),
    CommandFailed(String),
    ParseError(String),
    InvalidState(String),
    InitializationFailed(String),
    Internal(String),
}

/// The display form of an error.
pub open spec fn error_text(e: GaiaError) -> Seq<char> {
    match e {
        GaiaError::Io(m) => "IO error: "@ + m@,
        GaiaError::CommandFailed(m) => "Command failed: "@ + m@,
        GaiaError::ParseError(m) => "Parse error: "@ + m@,
        GaiaError::InvalidState(m) => "Invalid state: "@ + m@,
        GaiaError::InitializationFailed(m) => "Initialization failed: "@ + m@,
        GaiaError::Internal(m) => "Internal error: "@ + m@,
    }
}

impl GaiaError {
    /// The error as one line of text, kind first.
    pub fn message(&self) -> (r: String)
        ensures
            r@ == error_text(*self),
    {
        match self {
            GaiaError::Io(m) => {
                let mut s = String::from_str("IO error: ");
                s.append(m.as_str());
                s
            },
            GaiaError::CommandFailed(m) => {
                let mut s = String::from_str("Command failed: ");
                s.append(m.as_str());
                s
            },
            GaiaError::ParseError(m) => {
                let mut s = String::from_str("Parse error: ");
                s.append(m.as_str());
                s
            },
            GaiaError::InvalidState(m) => {
                let mut s = String::from_str("Invalid state: ");
                s.append(m.as_str());
                s
            },
            GaiaError::InitializationFailed(m) => {
                let mut s = String::from_str("Initialization failed: ");
                s.append(m.as_str());
                s
            },
            GaiaError::Internal(m) => {
                let mut s = String::from_str("Internal error: ");
                s.append(m.as_str());
                s
            },
        }
    }
}

/// What the managed node is doing right now.
#[derive(Debug, Clone, PartialEq, Eq)]
pub enum GaiaNodeStatus {
    Running,
    Starting,
    Stopped,
    Syncing { current_height: u64, target_height: u64 },
    Error(String),
}

/// The display form of a status.
pub open spec fn status_text(s: GaiaNodeStatus) -> Seq<char> {
    match s {
        GaiaNodeStatus::Running => "Running"@,
        GaiaNodeStatus::Starting => "Starting"@,
        GaiaNodeStatus::Stopped => "Stopped"@,
        GaiaNodeStatus::Syncing { current_height, target_height } => "Syncing (current_height: "@
            + dec_digits(current_height as nat) + ", target_height: "@ + dec_digits(
            target_height as nat,
        ) + ")"@,
        GaiaNodeStatus::Error(m) => "Error: "@ + m@,
    }
}

impl GaiaNodeStatus {
    /// The status as one line of text.
    pub fn describe(&self) -> (r: String)
        ensures
            r@ == status_text(*self),
    {
        match self {
            GaiaNodeStatus::Running => String::from_str("Running"),
            GaiaNodeStatus::Starting => String::from_str("Starting"),
            GaiaNodeStatus::Stopped => String::from_str("Stopped"),
            GaiaNodeStatus::Syncing { current_height, target_height } => {
                let mut s = String::from_str("Syncing (current_height: ");
                let cur = chars_to_string(&u64_to_dec(*current_height));
                s.append(cur.as_str());
                s.append(", target_height: ");
                let tgt = chars_to_string(&u64_to_dec(*target_height));
                s.append(tgt.as_str());
                s.append(")");
                s
            },
            GaiaNodeStatus::Error(m) => {
                let mut s = String::from_str("Error: ");
                s.append(m.as_str());
                s
            },
        }
    }
}

/// Relies on `dirs::home_dir`: the platform's home directory, if the
/// environment provides one. The result depends on the environment, so
/// nothing is promised of it.
#[verifier::external_body]
fn home_dir_string() -> (r: Option<String>) {
    dirs::home_dir().map(|p| p.to_string_lossy().to_string())
}

/// How the node is started: its data directory, network, and verbosity.
#[derive(Debug, Clone)]
pub struct GaiaNodeConfig {
    pub data_dir: String,
    pub network: String,
    pub verbose: bool,
}

/// The default data directory for a given home directory: `.gaianet`
/// under the home, or under `/tmp` when the environment names no home.
pub open spec fn default_data_dir(home: Option<Seq<char>>) -> Seq<char> {
    match home {
        Option::Some(h) => h + "/.gaianet"@,
        Option::None => "/tmp"@ + "/.gaianet"@,
    }
}

/// The default configuration for a given home directory: mainnet, not
/// verbose, data under `.gaianet`.
pub fn config_from_home(home: Option<String>) -> (c: GaiaNodeConfig)
    ensures
        c.network@ == "mainnet"@,
        !c.verbose,
        c.data_dir@ == default_data_dir(match home {
            Option::Some(h) => Option::Some(h@),
            Option::None => Option::None,
        }),
{
    let base = match home {
        Option::Some(h) => h,
        Option::None => String::from_str("/tmp"),
    };
    let mut data_dir = base;
    data_dir.append("/.gaianet");
    GaiaNodeConfig { data_dir, network: String::from_str("mainnet"), verbose: false }
}

impl Default for GaiaNodeConfig {
    /// The configuration the manager starts from when the caller gives
    /// none: mainnet, not verbose, data in `.gaianet` under the home
    /// directory the environment names (or under `/tmp` without one).
    fn default() -> (c: GaiaNodeConfig)
        ensures
            c.network@ == "mainnet"@,
            !c.verbose,
            exists|p: Seq<char>| c.data_dir@ == #[trigger] (p + "/.gaianet"@),
    {
        let home = home_dir_string();
        let c = config_from_home(home);
        proof {
            reveal_strlit("/tmp");
        }
        c
    }
}

/// The argument list of the start command: `start --data-dir <dir>
/// --network <net>`, and `--verbose` when asked for.
pub fn start_args(config: &GaiaNodeConfig) -> (args: Vec<String>)
    ensures
        args@.len() == if config.verbose {
            6int
        } else {
            5int
        },
        args@[0]@ == "start"@,
        args@[1]@ == "--data-dir"@,
        args@[2]@ == config.data_dir@,
        args@[3]@ == "--network"@,
        args@[4]@ == config.network@,
        config.verbose ==> args@[5]@ == "--verbose"@,
{
    let mut args: Vec<String> = Vec::new();
    args.push(String::from_str("start"));
    args.push(String::from_str("--data-dir"));
    args.push(config.data_dir.clone());
    args.push(String::from_str("--network"));
    args.push(config.network.clone());
    if config.verbose {
        args.push(String::from_str("--verbose"));
    }
    args
}

/// Whether a start may proceed: only a stopped node may be started; any
/// other state is the defined invalid-state error.
pub fn ensure_can_start(status: &GaiaNodeStatus) -> (r: Result<(), GaiaError>)
    ensures
        r matches Ok(_) <==> *status matches GaiaNodeStatus::Stopped,
        r matches Err(e) ==> e matches GaiaError::InvalidState(m) && m@
            == "Node is already running"@,
{
    match status {
        GaiaNodeStatus::Stopped => Ok(()),
        _ => Err(GaiaError::InvalidState(String::from_str("Node is already running"))),
    }
}

/// Whether a stop may proceed: a stopped node cannot be stopped again;
/// that is the defined invalid-state error.
pub fn ensure_can_stop(status: &GaiaNodeStatus) -> (r: Result<(), GaiaError>)
    ensures
        r matches Ok(_) <==> !(*status matches GaiaNodeStatus::Stopped),
        r matches Err(e) ==> e matches GaiaError::InvalidState(m) && m@ == "Node is not running"@,
{
    match status {
        GaiaNodeStatus::Stopped => Err(
            GaiaError::InvalidState(String::from_str("Node is not running")),
        ),
        _ => Ok(()),
    }
}

} // verus!
