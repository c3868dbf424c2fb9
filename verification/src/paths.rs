//! The fixed locations of the supervisor's persisted state, built from
//! the caller's home directory. Directory creation and home discovery
//! stay with the surrounding binary; these functions decide the exact
//! paths.

use vstd::prelude::*;
use vstd::string::StringExecFns;

verus! {

/// The persisted-configuration file beneath the given home directory.
pub fn get_config_path(home: &str) -> (r: String)
    ensures
        r@ == home@ + "/.config/exeio/processes.json"@,
{
    let mut s = home.to_owned();
    s.append("/.config/exeio/processes.json");
    s
}

/// The per-process log directory beneath the given home directory.
pub fn get_logs_dir(home: &str) -> (r: String)
    ensures
        r@ == home@ + "/.local/share/exeio/logs"@,
{
    let mut s = home.to_owned();
    s.append("/.local/share/exeio/logs");
    s
}

/// The single-instance lock file beneath the given home directory.
pub fn get_lock_file_path(home: &str) -> (r: String)
    ensures
        r@ == home@ + "/.local/share/exeio/exeio.lock"@,
{
    let mut s = home.to_owned();
    s.append("/.local/share/exeio/exeio.lock");
    s
}

/// The log file assigned to a process id, inside the logs directory.
pub fn get_process_log_path(logs_dir: &str, process_id: &str) -> (r: String)
    ensures
        r@ == logs_dir@ + "/"@ + process_id@ + ".log"@,
{
    let mut s = logs_dir.to_owned();
    s.append("/");
    s.append(process_id);
    s.append(".log");
    s
}

/// The supervisor's own event log, inside the logs directory.
pub fn get_supervisor_log_path(logs_dir: &str) -> (r: String)
    ensures
        r@ == logs_dir@ + "/exeio.log"@,
{
    let mut s = logs_dir.to_owned();
    s.append("/exeio.log");
    s
}

} // verus!
