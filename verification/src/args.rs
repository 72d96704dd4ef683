//! The command line: whether to choose a drive, how often to poll, and where to log.
use vstd::prelude::*;
use vstd::string::*;

verus! {

broadcast use vstd::string::group_string_axioms;

/// Seconds between temperature checks when none is given.
pub const DEFAULT_INTERVAL: u64 = 3;

/// The options of the monitor.
pub struct Args {
    /// Choose the drive interactively.
    pub disk: bool,
    /// Seconds between temperature checks.
    pub interval: u64,
    /// Where to write the log, when given.
    pub log: Option<String>,
}

/// The log file used when none is given.
pub open spec fn default_log_path() -> Seq<char> {
    "ssd_temp.log"@
}

impl Args {
    /// The log file: the one given, else `ssd_temp.log` in the working directory.
    pub fn log_path(&self) -> (p: String)
        ensures
            p@ == match self.log {
                Some(l) => l@,
                None => default_log_path(),
            },
    {
        match &self.log {
            Some(l) => l.clone(),
            None => String::from_str("ssd_temp.log"),
        }
    }
}

impl Default for Args {
    /// No interactive choice, a 3-second interval and the default log file.
    fn default() -> (a: Args)
        ensures
            !a.disk,
            a.interval == DEFAULT_INTERVAL,
            a.log is None,
    {
        Args { disk: false, interval: DEFAULT_INTERVAL, log: None }
    }
}

} // verus!
