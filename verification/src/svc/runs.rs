//! Per-run state reconstructed from the `event_type` + `run_id` of a job's
//! events, following Marquez: the latest known event type decides the state,
//! but a terminal state is never downgraded by a non-terminal event that
//! arrives out of order.

use vstd::prelude::*;

use crate::svc::time::{micros_to_rfc3339, rfc3339_text};
use crate::text::{ascii_upper_seq, ascii_uppercase, concat2, owned};
use crate::strmap::str_eq;

verus! {

/// Marquez run states.
#[derive(Debug, Clone, Copy, PartialEq, Eq, Structural)]
pub enum RunState {
    New,
    Running,
    Completed,
    Failed,
    Aborted,
}

/// The run state an OpenLineage `eventType` (compared ASCII
/// case-insensitively) sets: `START`/`RUNNING` running, `COMPLETE`
/// completed, `FAIL` failed, `ABORT` aborted; any other type sets none.
pub open spec fn state_of_event_type(et: Seq<char>) -> Option<RunState> {
    let u = ascii_upper_seq(et);
    if u == "START"@ || u == "RUNNING"@ {
        Some(RunState::Running)
    } else if u == "COMPLETE"@ {
        Some(RunState::Completed)
    } else if u == "FAIL"@ {
        Some(RunState::Failed)
    } else if u == "ABORT"@ {
        Some(RunState::Aborted)
    } else {
        None
    }
}

impl RunState {
    pub open spec fn terminal(self) -> bool {
        self == RunState::Completed || self == RunState::Failed || self == RunState::Aborted
    }

    /// Map an OpenLineage `eventType` (case-insensitive) to a run state.
    pub fn from_event_type(et: &str) -> (r: Option<RunState>)
        ensures
            r == state_of_event_type(et@),
    {
        let u = ascii_uppercase(et);
        let u = u.as_str();
        if str_eq(u, "START") || str_eq(u, "RUNNING") {
            Some(RunState::Running)
        } else if str_eq(u, "COMPLETE") {
            Some(RunState::Completed)
        } else if str_eq(u, "FAIL") {
            Some(RunState::Failed)
        } else if str_eq(u, "ABORT") {
            Some(RunState::Aborted)
        } else {
            None
        }
    }

    pub open spec fn marquez_text(self) -> Seq<char> {
        match self {
            RunState::New => "NEW"@,
            RunState::Running => "RUNNING"@,
            RunState::Completed => "COMPLETED"@,
            RunState::Failed => "FAILED"@,
            RunState::Aborted => "ABORTED"@,
        }
    }

    /// The Marquez name of the state.
    pub fn as_marquez(self) -> (r: &'static str)
        ensures
            r@ == self.marquez_text(),
    {
        match self {
            RunState::New => "NEW",
            RunState::Running => "RUNNING",
            RunState::Completed => "COMPLETED",
            RunState::Failed => "FAILED",
            RunState::Aborted => "ABORTED",
        }
    }

    /// Whether the state is terminal (completed, failed or aborted).
    pub fn is_terminal(self) -> (r: bool)
        ensures
            r == self.terminal(),
    {
        match self {
            RunState::Completed | RunState::Failed | RunState::Aborted => true,
            _ => false,
        }
    }
}

/// One reconstructed run of a job.
#[derive(Debug)]
pub struct RunAgg {
    pub run_id: String,
    /// Latest known state.
    pub state: RunState,
    /// Epoch microseconds of the earliest and the latest event.
    pub first_seen: i64,
    pub last_seen: i64,
    /// Event time of the START event, if one was seen.
    pub started_at: Option<i64>,
    /// Event time of the terminal event, if one was seen.
    pub ended_at: Option<i64>,
}

pub open spec fn min_i64(a: i64, b: i64) -> i64 {
    if a <= b {
        a
    } else {
        b
    }
}

pub open spec fn max_i64(a: i64, b: i64) -> i64 {
    if a >= b {
        a
    } else {
        b
    }
}

/// Whether an event type is `START` (ASCII case-insensitively).
pub open spec fn is_start_type(et: Option<Seq<char>>) -> bool {
    match et {
        Some(e) => ascii_upper_seq(e) == "START"@,
        None => false,
    }
}

/// The run after one more of its events (type `et`, time `ts`, absent time
/// counting as 0 for first/last seen): first/last seen widen; a state-setting
/// type replaces a non-terminal state, and a terminal one replaces any state;
/// a terminal event with a time sets `ended_at`; a `START` with a time sets
/// `started_at`.
pub open spec fn run_after_event(run: RunAgg, et: Option<Seq<char>>, ts: Option<i64>) -> RunAgg {
    let t = match ts {
        Some(v) => v,
        None => 0,
    };
    let new_state = match et {
        Some(e) => state_of_event_type(e),
        None => None,
    };
    let state = match new_state {
        Some(s) => if s.terminal() || !run.state.terminal() {
            s
        } else {
            run.state
        },
        None => run.state,
    };
    let ended_at = match new_state {
        Some(s) => if s.terminal() && ts is Some {
            ts
        } else {
            run.ended_at
        },
        None => run.ended_at,
    };
    let started_at = if is_start_type(et) && ts is Some {
        ts
    } else {
        run.started_at
    };
    RunAgg {
        run_id: run.run_id,
        state,
        first_seen: min_i64(run.first_seen, t),
        last_seen: max_i64(run.last_seen, t),
        started_at,
        ended_at,
    }
}

/// Fold one event into a run (see [`run_after_event`]).
pub fn fold_run_event(run: &mut RunAgg, event_type: Option<&str>, ts: Option<i64>)
    ensures
        *final(run) == run_after_event(
            *old(run),
            match event_type {
                Some(e) => Some(e@),
                None => None,
            },
            ts,
        ),
{
    let new_state = match event_type {
        Some(e) => RunState::from_event_type(e),
        None => None,
    };
    let is_start = match event_type {
        Some(e) => {
            let u = ascii_uppercase(e);
            str_eq(u.as_str(), "START")
        },
        None => false,
    };
    let t = match ts {
        Some(v) => v,
        None => 0,
    };
    if t < run.first_seen {
        run.first_seen = t;
    }
    if t > run.last_seen {
        run.last_seen = t;
    }
    if let Some(s) = new_state {
        if s.is_terminal() || !run.state.is_terminal() {
            run.state = s;
        }
        if s.is_terminal() && ts.is_some() {
            run.ended_at = ts;
        }
    }
    if is_start && ts.is_some() {
        run.started_at = ts;
    }
}

/// A fresh run first seen at `t` (absent time counting as 0).
pub open spec fn new_run(run_id: String, ts: Option<i64>) -> RunAgg {
    let t = match ts {
        Some(v) => v,
        None => 0,
    };
    RunAgg { run_id, state: RunState::New, first_seen: t, last_seen: t, started_at: None, ended_at: None }
}

/// Minimal Marquez `Run` shape.
#[derive(Debug, Clone)]
pub struct LatestRun {
    pub id: String,
    pub created_at: String,
    pub updated_at: String,
    /// `NEW` | `RUNNING` | `COMPLETED` | `FAILED` | `ABORTED`.
    pub state: String,
    pub nominal_start_time: Option<String>,
    pub nominal_end_time: Option<String>,
    pub started_at: Option<String>,
    pub ended_at: Option<String>,
    pub duration_ms: u64,
}

/// START to terminal span in milliseconds when both times are known and in
/// order, else 0.
pub open spec fn run_duration_ms(started_at: Option<i64>, ended_at: Option<i64>) -> int {
    match (started_at, ended_at) {
        (Some(s), Some(e)) => if e >= s {
            (e - s) / 1000
        } else {
            0
        },
        _ => 0,
    }
}

pub open spec fn opt_rfc3339(t: Option<i64>) -> Option<Seq<char>> {
    match t {
        Some(v) => Some(rfc3339_text(v)),
        None => None,
    }
}

impl LatestRun {
    /// The Marquez run built from a reconstructed run.
    pub open spec fn renders(self, run: RunAgg) -> bool {
        &&& self.id == run.run_id
        &&& self.created_at@ == rfc3339_text(run.first_seen)
        &&& self.updated_at@ == rfc3339_text(run.last_seen)
        &&& self.state@ == run.state.marquez_text()
        &&& self.nominal_start_time is None
        &&& self.nominal_end_time is None
        &&& crate::text::opt_view(self.started_at) == opt_rfc3339(run.started_at)
        &&& crate::text::opt_view(self.ended_at) == opt_rfc3339(run.ended_at)
        &&& self.duration_ms == run_duration_ms(run.started_at, run.ended_at)
    }

    /// The single neutral run a job gets when none of its events carries a
    /// run id: id `norun:<job_id>`, state `COMPLETED`, duration 0.
    pub open spec fn is_neutral_for(self, job_id: Seq<char>, updated_at: Seq<char>) -> bool {
        &&& self.id@ == "norun:"@ + job_id
        &&& self.created_at@ == updated_at
        &&& self.updated_at@ == updated_at
        &&& self.state@ == "COMPLETED"@
        &&& self.nominal_start_time is None
        &&& self.nominal_end_time is None
        &&& self.started_at is None
        &&& self.ended_at is None
        &&& self.duration_ms == 0
    }

    /// A neutral run for a job whose events carry no run id.
    pub fn neutral(job_id: &str, updated_at: &str) -> (r: Self)
        ensures
            r.is_neutral_for(job_id@, updated_at@),
    {
        LatestRun {
            id: concat2("norun:", job_id),
            created_at: owned(updated_at),
            updated_at: owned(updated_at),
            state: owned("COMPLETED"),
            nominal_start_time: None,
            nominal_end_time: None,
            started_at: None,
            ended_at: None,
            duration_ms: 0,
        }
    }
}

fn opt_time(t: Option<i64>) -> (r: Option<String>)
    ensures
        crate::text::opt_view(r) == opt_rfc3339(t),
{
    match t {
        Some(v) => Some(micros_to_rfc3339(v)),
        None => None,
    }
}

/// Build the Marquez run from a reconstructed run.
pub fn build_run(run: &RunAgg) -> (r: LatestRun)
    ensures
        r.renders(*run),
{
    let duration_ms: u64 = match (run.started_at, run.ended_at) {
        (Some(s), Some(e)) => if e >= s {
            let d: i128 = (e as i128) - (s as i128);
            let q: i128 = d / 1000;
            assert(0 <= q <= u64::MAX) by (nonlinear_arith)
                requires
                    q == d / 1000,
                    0 <= d <= 0xffff_ffff_ffff_ffff,
            ;
            q as u64
        } else {
            0
        },
        _ => 0,
    };
    LatestRun {
        id: run.run_id.clone(),
        created_at: micros_to_rfc3339(run.first_seen),
        updated_at: micros_to_rfc3339(run.last_seen),
        state: owned(run.state.as_marquez()),
        nominal_start_time: None,
        nominal_end_time: None,
        started_at: opt_time(run.started_at),
        ended_at: opt_time(run.ended_at),
        duration_ms,
    }
}

/// A terminal run state (COMPLETED, FAILED, ABORTED) is never downgraded:
/// whatever event of the run arrives afterwards, in any order, the state
/// stays terminal, and an event with a non-terminal type leaves it as it is.
pub proof fn lemma_terminal_state_kept(run: RunAgg, et: Option<Seq<char>>, ts: Option<i64>)
    requires
        run.state.terminal(),
    ensures
        run_after_event(run, et, ts).state.terminal(),
        (match et {
            Some(e) => state_of_event_type(e) matches Some(s) && !s.terminal(),
            None => true,
        }) ==> run_after_event(run, et, ts).state == run.state,
{
}

/// The state each OpenLineage event type sets, whatever its ASCII case:
/// `START` and `RUNNING` set running, `COMPLETE` completed, `FAIL` failed and
/// `ABORT` aborted; any other type sets none.
pub proof fn lemma_event_type_states(e: Seq<char>)
    ensures
        ascii_upper_seq(e) == "START"@ ==> state_of_event_type(e) == Some(RunState::Running),
        ascii_upper_seq(e) == "RUNNING"@ ==> state_of_event_type(e) == Some(RunState::Running),
        ascii_upper_seq(e) == "COMPLETE"@ ==> state_of_event_type(e) == Some(RunState::Completed),
        ascii_upper_seq(e) == "FAIL"@ ==> state_of_event_type(e) == Some(RunState::Failed),
        ascii_upper_seq(e) == "ABORT"@ ==> state_of_event_type(e) == Some(RunState::Aborted),
        ascii_upper_seq(e) != "START"@ && ascii_upper_seq(e) != "RUNNING"@ && ascii_upper_seq(e) != "COMPLETE"@
            && ascii_upper_seq(e) != "FAIL"@ && ascii_upper_seq(e) != "ABORT"@ ==> state_of_event_type(e) is None,
{
    reveal_strlit("START");
    reveal_strlit("RUNNING");
    reveal_strlit("COMPLETE");
    reveal_strlit("FAIL");
    reveal_strlit("ABORT");
    assert("START"@.len() == 5 && "RUNNING"@.len() == 7 && "COMPLETE"@.len() == 8 && "FAIL"@.len() == 4
        && "ABORT"@.len() == 5);
    assert("START"@[0] != "ABORT"@[0]);
}

/// How each state renders in Marquez: `NEW`, `RUNNING`, `COMPLETED`,
/// `FAILED`, `ABORTED`.
pub proof fn lemma_state_texts()
    ensures
        RunState::New.marquez_text() == "NEW"@,
        RunState::Running.marquez_text() == "RUNNING"@,
        RunState::Completed.marquez_text() == "COMPLETED"@,
        RunState::Failed.marquez_text() == "FAILED"@,
        RunState::Aborted.marquez_text() == "ABORTED"@,
{
}

/// An event whose type is a terminal one (`COMPLETE`, `FAIL`, `ABORT`, any
/// ASCII case) leaves its run in that state, whatever state the run was in;
/// `START`/`RUNNING` sets running only over a state that is not terminal.
pub proof fn lemma_event_sets_state(run: RunAgg, e: Seq<char>, ts: Option<i64>)
    ensures
        ascii_upper_seq(e) == "ABORT"@ ==> run_after_event(run, Some(e), ts).state == RunState::Aborted,
        ascii_upper_seq(e) == "FAIL"@ ==> run_after_event(run, Some(e), ts).state == RunState::Failed,
        ascii_upper_seq(e) == "COMPLETE"@ ==> run_after_event(run, Some(e), ts).state == RunState::Completed,
        (ascii_upper_seq(e) == "START"@ || ascii_upper_seq(e) == "RUNNING"@) ==> run_after_event(
            run,
            Some(e),
            ts,
        ).state == if run.state.terminal() {
            run.state
        } else {
            RunState::Running
        },
{
    lemma_event_type_states(e);
}

} // verus!
