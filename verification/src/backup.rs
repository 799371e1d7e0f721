//! Store backups: when the timer runs, and what one run reports.

use vstd::prelude::*;

verus! {

/// Backup settings, resolved.
#[derive(Debug)]
pub struct BackupPolicy {
    pub dir: String,
    /// Nanoseconds between two timer runs. None: the timer is off (manual
    /// backups still work).
    pub interval: Option<u128>,
    /// 0: never prune.
    pub keep: usize,
}

#[derive(Debug)]
pub enum BackupError {
    /// Another backup (of the API or the timer) is running.
    Busy,
    Failed(String),
}

/// What the store wrote.
#[derive(Debug)]
pub struct BackupInfo {
    pub path: String,
    pub bytes: u64,
    pub took_ms: u64,
}

#[derive(Debug)]
pub struct BackupReport {
    pub info: BackupInfo,
    pub pruned: Vec<String>,
}

/// What a run leaves behind besides its report.
#[derive(Debug)]
pub struct BackupEffects {
    /// Size to record as the last good backup.
    pub recorded: Option<u64>,
    pub failure_counted: bool,
    /// Level, kind and detail of the alert to publish.
    pub alert: Option<(String, String, String)>,
}

/// Shortest delay before a timer run, in nanoseconds: one minute.
pub const RUN_FLOOR: u128 = 60_000_000_000;

/// The time since the newest backup; none where the clock went back.
pub open spec fn backup_age(newest: u128, now: u128) -> int {
    if now >= newest {
        now - newest
    } else {
        0
    }
}

/// What is left of the interval since the newest backup, at least a minute; a
/// minute when there is none.
pub open spec fn run_delay(newest: Option<u128>, now: u128, interval: u128) -> int {
    match newest {
        Some(t) => if interval - backup_age(t, now) > RUN_FLOOR {
            interval - backup_age(t, now)
        } else {
            RUN_FLOOR as int
        },
        None => RUN_FLOOR as int,
    }
}

/// Delay before the next timer run, in nanoseconds like its arguments.
pub fn next_run_after(newest: Option<u128>, now: u128, interval: u128) -> (r: u128)
    ensures
        r == run_delay(newest, now, interval),
{
    match newest {
        Some(t) => {
            let age: u128 = if now >= t {
                now - t
            } else {
                0
            };
            let left: u128 = if interval >= age {
                interval - age
            } else {
                0
            };
            if left > RUN_FLOOR {
                left
            } else {
                RUN_FLOOR
            }
        },
        None => RUN_FLOOR,
    }
}

/// What starting the timer does.
#[derive(Debug)]
pub struct BackupTimer {
    /// Second and size of the newest backup on disk: the last success that is
    /// known, whether or not the timer runs.
    pub last_success: Option<(u128, u64)>,
    /// Delay of the first run and of every later one; None: no timer.
    pub delays: Option<(u128, u128)>,
}

/// Start the timer, given the moment and the size of the newest backup on
/// disk.
pub fn spawn_backup_timer(policy: &BackupPolicy, newest: Option<(u128, u64)>, now: u128) -> (r:
    BackupTimer)
    ensures
        r.last_success == (match newest {
            Some((t, bytes)) => Some(((t / 1_000_000_000) as u128, bytes)),
            None => None,
        }),
        match policy.interval {
            None => r.delays is None,
            Some(every) => {
                let t: Option<u128> = match newest {
                    Some((t, _)) => Some(t),
                    None => None,
                };
                r.delays matches Some((first, later)) && first == run_delay(t, now, every) && later
                    == every
            },
        },
{
    let last_success = match newest {
        Some((t, bytes)) => Some((t / 1_000_000_000, bytes)),
        None => None,
    };
    let t: Option<u128> = match newest {
        Some((t, _)) => Some(t),
        None => None,
    };
    let delays = match policy.interval {
        None => None,
        Some(every) => Some((next_run_after(t, now, every), every)),
    };
    BackupTimer { last_success, delays }
}

/// One backup and prune. `written` is what the store answered, or None where
/// another run holds the lock and the store was not asked; `pruned` is what
/// the prune after a good backup removed. A failed prune removes nothing and
/// does not fail the backup.
pub fn run_backup(
    written: Option<Result<BackupInfo, String>>,
    pruned: Result<Vec<String>, String>,
) -> (r: (Result<BackupReport, BackupError>, BackupEffects))
    ensures
        match written {
            None => r.0 matches Err(BackupError::Busy) && r.1.recorded is None
                && !r.1.failure_counted && r.1.alert is None,
            Some(Ok(info)) => {
                &&& r.0 matches Ok(report) && report.info == info && report.pruned@ == (
                match pruned {
                    Ok(v) => v@,
                    Err(_) => Seq::empty(),
                })
                &&& r.1.recorded == Some(info.bytes) && !r.1.failure_counted && r.1.alert is None
            },
            Some(Err(why)) => {
                &&& r.0 matches Err(BackupError::Failed(w)) && w@ == why@
                &&& r.1.recorded is None && r.1.failure_counted
                &&& r.1.alert matches Some((level, kind, detail)) && level@ == "warning"@ && kind@
                    == "backup_failed"@ && detail@ == why@
            },
        },
{
    match written {
        None => (
            Err(BackupError::Busy),
            BackupEffects { recorded: None, failure_counted: false, alert: None },
        ),
        Some(Ok(info)) => {
            let removed: Vec<String> = match pruned {
                Ok(v) => v,
                Err(_) => Vec::new(),
            };
            let bytes: u64 = info.bytes;
            (
                Ok(BackupReport { info, pruned: removed }),
                BackupEffects { recorded: Some(bytes), failure_counted: false, alert: None },
            )
        },
        Some(Err(why)) => {
            let alert = Some(
                ("warning".to_string(), "backup_failed".to_string(), why.clone()),
            );
            (
                Err(BackupError::Failed(why)),
                BackupEffects { recorded: None, failure_counted: true, alert },
            )
        },
    }
}

/// The timer never runs before the interval since the newest backup is over
/// (where the clock did not go back), nor within the first minute, and never
/// waits longer than the interval or a minute.
pub proof fn law_timer_keeps_the_interval(newest: Option<u128>, now: u128, interval: u128)
    ensures
        run_delay(newest, now, interval) >= RUN_FLOOR,
        run_delay(newest, now, interval) <= interval || run_delay(newest, now, interval)
            == RUN_FLOOR,
        newest matches Some(t) ==> t <= now ==> now + run_delay(newest, now, interval) >= t
            + interval,
{
}

} // verus!
