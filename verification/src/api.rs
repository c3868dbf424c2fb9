//! Validation of control-plane requests.
//!
//! The add endpoint accepts a definition only when its id is new and
//! non-blank, its command is non-blank, and a periodic definition names
//! a positive period. The accepted definition is completed with its
//! assigned log path.

use vstd::prelude::*;

use crate::config::ConfigView;
use crate::config::ProcessConfig;
use crate::paths::get_process_log_path;
use crate::registry::has_id;
use crate::registry::Registry;

verus! {

/// Whether a character counts as whitespace when ids and commands are
/// checked for blankness.
pub uninterp spec fn is_space_char(c: char) -> bool;

/// Relies on char::is_whitespace: a property of the character alone.
#[verifier::external_body]
fn char_is_space(c: char) -> (r: bool)
    ensures
        r == is_space_char(c),
{
    c.is_whitespace()
}

/// Nothing but whitespace: exactly the strings that trim to empty.
pub open spec fn is_blank_spec(s: Seq<char>) -> bool {
    forall|i: int| 0 <= i < s.len() ==> is_space_char(#[trigger] s[i])
}

/// Whether the string holds no non-whitespace character.
pub fn is_blank(s: &str) -> (r: bool)
    ensures
        r == is_blank_spec(s@),
{
    let total = s.unicode_len();
    let mut i: usize = 0;
    while i < total
        invariant
            i <= total,
            total == s@.len(),
            forall|j: int| 0 <= j < i ==> is_space_char(#[trigger] s@[j]),
        decreases total - i,
    {
        if !char_is_space(s.get_char(i)) {
            return false;
        }
        i = i + 1;
    }
    true
}

/// What an add request carries. The log path is never accepted from the
/// client; it is assigned during validation.
pub struct AddRequest {
    /// Requested unique id.
    pub id: String,
    /// Executable path or name.
    pub command: String,
    /// Arguments, in order.
    pub args: Vec<String>,
    /// Optional working directory.
    pub working_dir: Option<String>,
    /// Respawn after exit.
    pub auto_restart: bool,
    /// Persist the definition for the next supervisor run.
    pub save_for_next_run: bool,
    /// Run periodically instead of staying alive.
    pub periodic: Option<bool>,
    /// Period in seconds; required and positive iff periodic.
    pub period_seconds: Option<u64>,
}

/// Why an add request was rejected.
#[derive(Clone, Copy, PartialEq, Eq, Structural, Debug)]
pub enum AddError {
    /// A record with this id already exists.
    DuplicateId,
    /// The id is empty or whitespace.
    BlankId,
    /// The command is empty or whitespace.
    BlankCommand,
    /// A periodic definition without a period.
    PeriodMissing,
    /// A periodic definition with a zero period.
    PeriodZero,
}

/// The accepted definition carries the request's fields unchanged, the
/// request's periodic flag defaulted to false, and the assigned log
/// path.
pub open spec fn config_matches_request(c: ConfigView, req: AddRequest, logs_dir: Seq<char>) -> bool {
    &&& c.id == req.id@
    &&& c.command == req.command@
    &&& c.args == req.args.deep_view()
    &&& c.working_dir == req.working_dir.deep_view()
    &&& c.auto_restart == req.auto_restart
    &&& c.log_file == logs_dir + "/"@ + req.id@ + ".log"@
    &&& c.periodic == (req.periodic == Option::Some(true))
    &&& c.period_seconds == req.period_seconds
}

/// Validates an add request against the registry and builds the
/// definition to spawn. Errors are reported in the order the checks
/// run: duplicate id, blank id, blank command, then the period checks
/// for periodic definitions.
pub fn validate_add_request(registry: &Registry, req: &AddRequest, logs_dir: &str) -> (r: Result<
    ProcessConfig,
    AddError,
>)
    ensures
        ({
            let dup = has_id(registry@, req.id@);
            let blank_id = is_blank_spec(req.id@);
            let blank_cmd = is_blank_spec(req.command@);
            let periodic = req.periodic == Option::Some(true);
            &&& (dup ==> r == Result::<ProcessConfig, AddError>::Err(AddError::DuplicateId))
            &&& (!dup && blank_id ==> r == Result::<ProcessConfig, AddError>::Err(
                AddError::BlankId,
            ))
            &&& (!dup && !blank_id && blank_cmd ==> r == Result::<ProcessConfig, AddError>::Err(
                AddError::BlankCommand,
            ))
            &&& (!dup && !blank_id && !blank_cmd && periodic && req.period_seconds is None ==> r
                == Result::<ProcessConfig, AddError>::Err(AddError::PeriodMissing))
            &&& (!dup && !blank_id && !blank_cmd && periodic && req.period_seconds
                == Option::Some(0u64) ==> r == Result::<ProcessConfig, AddError>::Err(
                AddError::PeriodZero,
            ))
            &&& (!dup && !blank_id && !blank_cmd && (!periodic || (req.period_seconds
                matches Option::Some(p) && p > 0)) ==> (r matches Result::Ok(c)
                && config_matches_request(c@, *req, logs_dir@)))
        }),
{
    if registry.contains_id(&req.id) {
        return Result::Err(AddError::DuplicateId);
    }
    if is_blank(req.id.as_str()) {
        return Result::Err(AddError::BlankId);
    }
    if is_blank(req.command.as_str()) {
        return Result::Err(AddError::BlankCommand);
    }
    let periodic = match req.periodic {
        Option::Some(b) => b,
        Option::None => false,
    };
    if periodic {
        match req.period_seconds {
            Option::None => {
                return Result::Err(AddError::PeriodMissing);
            },
            Option::Some(p) => {
                if p == 0 {
                    return Result::Err(AddError::PeriodZero);
                }
            },
        }
    }
    let log_file = get_process_log_path(logs_dir, req.id.as_str());
    let working_dir = match &req.working_dir {
        Option::Some(d) => Option::Some(d.clone()),
        Option::None => Option::None,
    };
    let c = ProcessConfig {
        id: req.id.clone(),
        command: req.command.clone(),
        args: req.args.clone(),
        working_dir,
        auto_restart: req.auto_restart,
        log_file,
        periodic,
        period_seconds: req.period_seconds,
    };
    proof {
        assert(c.args.deep_view() =~= req.args.deep_view());
    }
    Result::Ok(c)
}

/// A pagination parameter: the given value, or the default when absent,
/// and never below one.
pub open spec fn clamped_param(p: Option<usize>, default: usize) -> usize {
    let v = match p {
        Option::Some(v) => v,
        Option::None => default,
    };
    if v >= 1 {
        v
    } else {
        1
    }
}

/// Clamps a pagination parameter to at least one, defaulting when the
/// query named none.
pub fn clamp_page_param(p: Option<usize>, default: usize) -> (r: usize)
    ensures
        r == clamped_param(p, default),
        r >= 1,
{
    let v = match p {
        Option::Some(v) => v,
        Option::None => default,
    };
    if v >= 1 {
        v
    } else {
        1
    }
}

} // verus!
