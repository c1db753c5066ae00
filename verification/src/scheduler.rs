//! The background scan scheduler: the settings it reads, what it remembers
//! of past scans, and the decision, at each tick, whether to ask for a
//! scan and of which kind.
use vstd::prelude::*;
use crate::text::{chars_of, owned, str_eq};

verus! {

/// An incremental scan is due this many seconds after the last one.
pub const INCREMENTAL_INTERVAL_SECS: u64 = 14400;

/// A full scan is due this many seconds after the last one.
pub const FULL_INTERVAL_SECS: u64 = 604800;

/// No scan starts within this many seconds of the last one ending.
pub const DISK_IDLE_SECS: u64 = 30;

/// The volume scanned when none is configured.
pub const DEFAULT_SCAN_DISK: &'static str = "C:\\";

/// What closing the main window does.
#[derive(Debug, Clone, Copy, PartialEq, Eq, Structural)]
pub enum CloseBehavior {
    Exit,
    Tray,
}

impl Default for CloseBehavior {
    fn default() -> (r: CloseBehavior)
        ensures
            r == CloseBehavior::Exit,
    {
        CloseBehavior::Exit
    }
}

/// The scheduler's settings.
#[derive(Debug, Clone, Copy)]
pub struct TrackASettings {
    pub close_behavior: CloseBehavior,
    pub scheduler_enabled: bool,
    pub scheduler_idle_minutes: u64,
}

impl Default for TrackASettings {
    fn default() -> (r: TrackASettings)
        ensures
            r.close_behavior == CloseBehavior::Exit,
            r.scheduler_enabled,
            r.scheduler_idle_minutes == 5,
    {
        TrackASettings { close_behavior: CloseBehavior::Exit, scheduler_enabled: true, scheduler_idle_minutes: 5 }
    }
}

/// The settings given the stored values: `tray` closes to the tray, any
/// other text exits; the idle minutes are at least one; absent values keep
/// their defaults.
pub fn read_track_a_settings(
    close_behavior: Option<&str>,
    scheduler_enabled: Option<bool>,
    scheduler_idle_minutes: Option<u64>,
) -> (r: TrackASettings)
    ensures
        r.close_behavior == match close_behavior {
            Some(v) => if v@ == "tray"@ { CloseBehavior::Tray } else { CloseBehavior::Exit },
            None => CloseBehavior::Exit,
        },
        r.scheduler_enabled == match scheduler_enabled {
            Some(b) => b,
            None => true,
        },
        r.scheduler_idle_minutes == match scheduler_idle_minutes {
            Some(m) => if m >= 1 { m } else { 1 },
            None => 5,
        },
{
    let mut out = TrackASettings::default();
    match close_behavior {
        Some(v) => {
            out.close_behavior = if str_eq(v, "tray") { CloseBehavior::Tray } else { CloseBehavior::Exit };
        },
        None => {},
    }
    match scheduler_enabled {
        Some(b) => {
            out.scheduler_enabled = b;
        },
        None => {},
    }
    match scheduler_idle_minutes {
        Some(m) => {
            out.scheduler_idle_minutes = if m >= 1 { m } else { 1 };
        },
        None => {},
    }
    out
}

/// The volume to scan: the configured one when it is not empty, else
/// [`DEFAULT_SCAN_DISK`].
pub fn default_target_disk(configured: Option<&str>) -> (r: String)
    ensures
        r@ == match configured {
            Some(d) => if d@.len() > 0 { d@ } else { DEFAULT_SCAN_DISK@ },
            None => DEFAULT_SCAN_DISK@,
        },
{
    match configured {
        Some(d) => {
            if chars_of(d).len() > 0 {
                owned(d)
            } else {
                owned(DEFAULT_SCAN_DISK)
            }
        },
        None => owned(DEFAULT_SCAN_DISK),
    }
}

/// The kinds of scans.
#[derive(Debug, Clone, Copy, PartialEq, Eq, Structural)]
pub enum ScanKind {
    Incremental,
    Full,
}

/// When the last scans ended (seconds since the epoch).
#[derive(Debug, Clone, Copy)]
pub struct SchedulerInner {
    pub last_incremental: Option<u64>,
    pub last_full: Option<u64>,
}

/// What the scheduler remembers.
pub struct SchedulerState {
    pub inner: SchedulerInner,
}

/// What the scheduler reports.
pub struct SchedulerStatus {
    pub last_incremental: Option<u64>,
    pub last_full: Option<u64>,
    pub next_scheduled: Option<u64>,
    pub enabled: bool,
}

impl SchedulerState {
    /// A scheduler that has seen no scan.
    pub fn new() -> (r: SchedulerState)
        ensures
            r.inner.last_incremental is None,
            r.inner.last_full is None,
    {
        SchedulerState { inner: SchedulerInner { last_incremental: None, last_full: None } }
    }

    /// A scan of the kind ended at `now`: a full scan counts as an
    /// incremental one too.
    pub fn record_scan_done(&mut self, kind: ScanKind, now: u64)
        ensures
            final(self).inner == after_scan(old(self).inner, kind, now),
    {
        match kind {
            ScanKind::Incremental => {
                self.inner.last_incremental = Some(now);
            },
            ScanKind::Full => {
                self.inner.last_full = Some(now);
                self.inner.last_incremental = Some(now);
            },
        }
    }

    /// The status: the last scans and when the next incremental scan is
    /// due.
    pub fn status(&self, enabled: bool) -> (r: SchedulerStatus)
        requires
            self.inner.last_incremental matches Some(t) ==> t + INCREMENTAL_INTERVAL_SECS <= u64::MAX,
        ensures
            r.last_incremental == self.inner.last_incremental,
            r.last_full == self.inner.last_full,
            r.next_scheduled == match self.inner.last_incremental {
                Some(t) => Some((t + INCREMENTAL_INTERVAL_SECS) as u64),
                None => None,
            },
            r.enabled == enabled,
    {
        let next_scheduled = match self.inner.last_incremental {
            Some(t) => Some(t + INCREMENTAL_INTERVAL_SECS),
            None => None,
        };
        SchedulerStatus {
            last_incremental: self.inner.last_incremental,
            last_full: self.inner.last_full,
            next_scheduled,
            enabled,
        }
    }
}

/// At least `interval` seconds passed since `last`, or there was no scan.
pub open spec fn is_due(last: Option<u64>, now: u64, interval: u64) -> bool {
    match last {
        Some(t) => now - t >= interval,
        None => true,
    }
}

/// The later of two optional times (none only when both are).
pub open spec fn later(a: Option<u64>, b: Option<u64>) -> Option<u64> {
    match (a, b) {
        (Some(x), Some(y)) => Some(if x >= y { x } else { y }),
        (Some(x), None) => Some(x),
        (None, Some(y)) => Some(y),
        (None, None) => None,
    }
}

/// The scan a tick asks for, if any: the scheduler is enabled; an
/// incremental or a full scan is due; the last scan ended at least
/// [`DISK_IDLE_SECS`] ago; the machine is on mains power; the user has
/// been idle at least the configured minutes. A due full scan takes
/// precedence.
pub open spec fn tick_choice(
    settings: TrackASettings,
    inner: SchedulerInner,
    now: u64,
    on_ac_power: bool,
    idle_secs: u64,
) -> Option<ScanKind> {
    let inc_due = is_due(inner.last_incremental, now, INCREMENTAL_INTERVAL_SECS);
    let full_due = is_due(inner.last_full, now, FULL_INTERVAL_SECS);
    let threshold = if settings.scheduler_idle_minutes * 60 > u64::MAX {
        u64::MAX as int
    } else {
        settings.scheduler_idle_minutes * 60
    };
    if !settings.scheduler_enabled || (!inc_due && !full_due) {
        None
    } else if later(inner.last_incremental, inner.last_full) matches Some(t) && now - t < DISK_IDLE_SECS {
        None
    } else if !on_ac_power || idle_secs < threshold {
        None
    } else if full_due {
        Some(ScanKind::Full)
    } else {
        Some(ScanKind::Incremental)
    }
}

/// The scan a tick asks for (see [`tick_choice`]); differences of times
/// are taken saturating at zero.
pub fn tick_decision(
    settings: &TrackASettings,
    inner: &SchedulerInner,
    now: u64,
    on_ac_power: bool,
    idle_secs: u64,
) -> (r: Option<ScanKind>)
    ensures
        r == tick_choice(*settings, *inner, now, on_ac_power, idle_secs),
{
    if !settings.scheduler_enabled {
        return None;
    }
    let inc_due = match inner.last_incremental {
        Some(t) => now.saturating_sub(t) >= INCREMENTAL_INTERVAL_SECS,
        None => true,
    };
    let full_due = match inner.last_full {
        Some(t) => now.saturating_sub(t) >= FULL_INTERVAL_SECS,
        None => true,
    };
    if !inc_due && !full_due {
        return None;
    }
    let recent: Option<u64> = match (inner.last_incremental, inner.last_full) {
        (Some(x), Some(y)) => Some(if x >= y { x } else { y }),
        (Some(x), None) => Some(x),
        (None, Some(y)) => Some(y),
        (None, None) => None,
    };
    match recent {
        Some(t) => {
            if now.saturating_sub(t) < DISK_IDLE_SECS {
                return None;
            }
        },
        None => {},
    }
    if !on_ac_power {
        return None;
    }
    let threshold: u64 = if settings.scheduler_idle_minutes > u64::MAX / 60 {
        u64::MAX
    } else {
        settings.scheduler_idle_minutes * 60
    };
    if idle_secs < threshold {
        return None;
    }
    if full_due {
        Some(ScanKind::Full)
    } else {
        Some(ScanKind::Incremental)
    }
}

/// Seconds since the last input: the tick counter's distance (modulo
/// 2^32) from the last input's tick, in whole seconds; zero when the last
/// input is unknown.
pub fn get_user_idle_seconds(last_input_tick: Option<u32>, now_tick: u32) -> (r: u64)
    ensures
        r == match last_input_tick {
            Some(t) => (if now_tick >= t { now_tick - t } else { now_tick + 0x1_0000_0000 - t }) / 1000,
            None => 0,
        },
{
    match last_input_tick {
        Some(t) => {
            let elapsed_ms = now_tick.wrapping_sub(t);
            proof {
                assert(elapsed_ms == (if now_tick >= t { now_tick - t } else { now_tick + 0x1_0000_0000 - t }))
                    by (bit_vector)
                    requires elapsed_ms == now_tick.wrapping_sub(t);
            }
            (elapsed_ms as u64) / 1000
        },
        None => 0,
    }
}

/// Whether the machine runs on mains power: the line status reads
/// connected (1) or unknown (255), or could not be read.
pub fn is_on_ac_power(ac_line_status: Option<u8>) -> (r: bool)
    ensures
        r == match ac_line_status {
            Some(s) => s == 1 || s == 255,
            None => true,
        },
{
    match ac_line_status {
        Some(s) => s == 1 || s == 255,
        None => true,
    }
}

/// What the scheduler remembers after a scan of the kind ended at `now`.
pub open spec fn after_scan(inner: SchedulerInner, kind: ScanKind, now: u64) -> SchedulerInner {
    SchedulerInner {
        last_incremental: Some(now),
        last_full: if kind == ScanKind::Full { Some(now) } else { inner.last_full },
    }
}

/// Right after a scan ends, whatever its kind, no tick asks for another
/// one until [`DISK_IDLE_SECS`] have passed.
pub proof fn law_no_scan_right_after_one(
    settings: TrackASettings,
    inner: SchedulerInner,
    kind: ScanKind,
    now: u64,
    later_now: u64,
    on_ac_power: bool,
    idle_secs: u64,
)
    requires
        now <= later_now < now + DISK_IDLE_SECS,
    ensures
        tick_choice(settings, after_scan(inner, kind, now), later_now, on_ac_power, idle_secs) is None,
{
}

/// A full scan also satisfies the need for an incremental one: right after
/// it, an incremental scan is not due before its interval.
pub proof fn law_full_scan_counts_as_incremental(inner: SchedulerInner, now: u64, later_now: u64)
    requires
        now <= later_now < now + INCREMENTAL_INTERVAL_SECS,
    ensures
        !is_due(after_scan(inner, ScanKind::Full, now).last_incremental, later_now, INCREMENTAL_INTERVAL_SECS),
        !is_due(after_scan(inner, ScanKind::Full, now).last_full, later_now, FULL_INTERVAL_SECS),
{
}

} // verus!
