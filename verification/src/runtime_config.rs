//! The running configuration and the outcome of reloads.
//!
//! The effective configuration is what runs: a good reload lays the settings
//! of the loaded file over it, while settings that need a restart keep the
//! value that they had at boot.

use crate::config::{ConfigView, SbcConfig, config_changes, config_diff, overlay_reload_keys};
use crate::config;
use crate::text::{clone_opt, clone_strings};
use crate::text;
use vstd::prelude::*;

verus! {

#[derive(Debug, Clone, Copy, PartialEq, Eq, Structural)]
pub enum ReloadSource {
    Boot,
    Sighup,
    Api,
}

/// What one reload did.
#[derive(Debug)]
pub struct ReloadReport {
    /// Seconds since the Unix epoch.
    pub ts: u64,
    pub source: ReloadSource,
    pub ok: bool,
    pub error: Option<String>,
    /// Settings whose effective value changed.
    pub applied: Vec<String>,
    /// Settings that the loaded file changed but that only a restart applies.
    pub restart_required: Vec<String>,
    /// The store was read again (false where there is none).
    pub hydrated: bool,
}

/// What a report holds.
#[verifier::ext_equal]
pub struct ReportView {
    pub ts: u64,
    pub source: ReloadSource,
    pub ok: bool,
    pub error: Option<Seq<char>>,
    pub applied: Seq<Seq<char>>,
    pub restart_required: Seq<Seq<char>>,
    pub hydrated: bool,
}

impl View for ReloadReport {
    type V = ReportView;

    open spec fn view(&self) -> ReportView {
        ReportView {
            ts: self.ts,
            source: self.source,
            ok: self.ok,
            error: text::opt_string(self.error),
            applied: text::string_views(self.applied@),
            restart_required: text::string_views(self.restart_required@),
            hydrated: self.hydrated,
        }
    }
}

impl Clone for ReloadReport {
    fn clone(&self) -> (r: Self)
        ensures
            r@ == self@,
    {
        ReloadReport {
            ts: self.ts,
            source: self.source,
            ok: self.ok,
            error: clone_opt(&self.error),
            applied: clone_strings(&self.applied),
            restart_required: clone_strings(&self.restart_required),
            hydrated: self.hydrated,
        }
    }
}

pub open spec fn opt_report(r: Option<ReloadReport>) -> Option<ReportView> {
    match r {
        Some(x) => Some(x@),
        None => None,
    }
}

/// The configuration at one moment.
#[derive(Debug)]
pub struct Snapshot {
    pub boot: SbcConfig,
    pub effective: SbcConfig,
    pub last_loaded: SbcConfig,
    pub path: Option<String>,
    /// Seconds since the Unix epoch.
    pub loaded_at: u64,
    pub source: ReloadSource,
    pub last_reload: Option<ReloadReport>,
}

/// What a snapshot holds.
#[verifier::ext_equal]
pub struct SnapshotView {
    pub boot: ConfigView,
    pub effective: ConfigView,
    pub last_loaded: ConfigView,
    pub path: Option<Seq<char>>,
    pub loaded_at: u64,
    pub source: ReloadSource,
    pub last_reload: Option<ReportView>,
}

impl View for Snapshot {
    type V = SnapshotView;

    open spec fn view(&self) -> SnapshotView {
        SnapshotView {
            boot: self.boot@,
            effective: self.effective@,
            last_loaded: self.last_loaded@,
            path: text::opt_string(self.path),
            loaded_at: self.loaded_at,
            source: self.source,
            last_reload: opt_report(self.last_reload),
        }
    }
}

fn copy_report(r: &Option<ReloadReport>) -> (c: Option<ReloadReport>)
    ensures
        opt_report(c) == opt_report(*r),
{
    match r {
        Some(x) => Some(x.clone()),
        None => None,
    }
}

impl Clone for Snapshot {
    fn clone(&self) -> (r: Self)
        ensures
            r@ == self@,
    {
        Snapshot {
            boot: self.boot.clone(),
            effective: self.effective.clone(),
            last_loaded: self.last_loaded.clone(),
            path: clone_opt(&self.path),
            loaded_at: self.loaded_at,
            source: self.source,
            last_reload: copy_report(&self.last_reload),
        }
    }
}

/// The configuration with the number of reloads recorded so far, by which a
/// waiting caller sees that one is done.
#[derive(Debug)]
pub struct RuntimeConfig {
    snapshot: Snapshot,
    generation: u64,
}

/// What the running configuration holds.
#[verifier::ext_equal]
pub struct StateView {
    pub snapshot: SnapshotView,
    pub generation: u64,
}

impl View for RuntimeConfig {
    type V = StateView;

    closed spec fn view(&self) -> StateView {
        StateView { snapshot: self.snapshot@, generation: self.generation }
    }
}

/// Settings that need a restart still have the value that they had at boot.
pub open spec fn keeps_boot_values(s: SnapshotView) -> bool {
    &&& s.effective.api_port == s.boot.api_port
    &&& s.effective.security.enable_digest_auth == s.boot.security.enable_digest_auth
    &&& s.effective.security.sip_realm == s.boot.security.sip_realm
}

/// The state after a reload is recorded.
pub open spec fn recorded(
    s: StateView,
    report: ReportView,
    loaded: Option<ConfigView>,
) -> StateView {
    let base = match loaded {
        Some(new) => if report.ok {
            SnapshotView {
                effective: config::overlaid(s.snapshot.effective, new),
                last_loaded: new,
                loaded_at: report.ts,
                source: report.source,
                ..s.snapshot
            }
        } else {
            s.snapshot
        },
        None => s.snapshot,
    };
    StateView {
        snapshot: SnapshotView { last_reload: Some(report), ..base },
        generation: (s.generation + 1) as u64,
    }
}

pub open spec fn opt_config(c: Option<SbcConfig>) -> Option<ConfigView> {
    match c {
        Some(x) => Some(x@),
        None => None,
    }
}

impl RuntimeConfig {
    /// The configuration at boot; `now` in seconds since the Unix epoch.
    pub fn new(boot: SbcConfig, path: Option<String>, now: u64) -> (r: Self)
        ensures
            r@ == (StateView {
                snapshot: SnapshotView {
                    boot: boot@,
                    effective: boot@,
                    last_loaded: boot@,
                    path: text::opt_string(path),
                    loaded_at: now,
                    source: ReloadSource::Boot,
                    last_reload: None,
                },
                generation: 0,
            }),
            keeps_boot_values(r@.snapshot),
    {
        RuntimeConfig {
            snapshot: Snapshot {
                effective: boot.clone(),
                last_loaded: boot.clone(),
                boot,
                path,
                loaded_at: now,
                source: ReloadSource::Boot,
                last_reload: None,
            },
            generation: 0,
        }
    }

    pub fn set_path(&mut self, path: &str)
        ensures
            final(self)@ == (StateView {
                snapshot: SnapshotView { path: Some(path@), ..old(self)@.snapshot },
                ..old(self)@
            }),
    {
        self.snapshot.path = Some(path.to_string());
    }

    pub fn config_path(&self) -> (r: Option<String>)
        ensures
            text::opt_string(r) == self@.snapshot.path,
    {
        clone_opt(&self.snapshot.path)
    }

    pub fn snapshot(&self) -> (r: Snapshot)
        ensures
            r@ == self@.snapshot,
    {
        self.snapshot.clone()
    }

    pub fn effective(&self) -> (r: SbcConfig)
        ensures
            r@ == self@.snapshot.effective,
    {
        self.snapshot.effective.clone()
    }

    pub fn boot(&self) -> (r: SbcConfig)
        ensures
            r@ == self@.snapshot.boot,
    {
        self.snapshot.boot.clone()
    }

    pub fn last_reload(&self) -> (r: Option<ReloadReport>)
        ensures
            opt_report(r) == self@.snapshot.last_reload,
    {
        copy_report(&self.snapshot.last_reload)
    }

    /// How many reloads have been recorded.
    pub fn generation(&self) -> (r: u64)
        ensures
            r == self@.generation,
    {
        self.generation
    }

    /// Record a reload. On success the loaded file becomes the last loaded
    /// one and its settings take effect. The generation rises in any case.
    pub fn record_reload(&mut self, report: ReloadReport, loaded: Option<SbcConfig>)
        requires
            old(self)@.generation < u64::MAX,
        ensures
            final(self)@ == recorded(old(self)@, report@, opt_config(loaded)),
            keeps_boot_values(old(self)@.snapshot) ==> keeps_boot_values(final(self)@.snapshot),
    {
        if report.ok {
            if let Some(new) = loaded {
                self.snapshot.effective = overlay_reload_keys(&self.snapshot.effective, &new);
                self.snapshot.last_loaded = new;
                self.snapshot.loaded_at = report.ts;
                self.snapshot.source = report.source;
            }
        }
        self.snapshot.last_reload = Some(report);
        self.generation = self.generation + 1;
    }

    /// Reload: `loaded` is the file as read, `hydrated` what reading the store
    /// again gave (None where there is no store, or the file could not be
    /// read), and `stored` the user-limit defaults that the store sets. A
    /// reload without a configured path is not recorded; one that fails is
    /// recorded and changes nothing that runs.
    pub fn reload_config(
        &mut self,
        source: ReloadSource,
        ts: u64,
        loaded: Result<SbcConfig, String>,
        hydrated: Option<Result<(), String>>,
        stored: (Option<u32>, Option<u32>),
    ) -> (r: Result<ReloadReport, String>)
        requires
            old(self)@.generation < u64::MAX,
        ensures
            match reload_verdict(old(self)@.snapshot.path, loaded, hydrated) {
                ReloadVerdict::NoPath => final(self)@ == old(self)@ && (r matches Err(e) && e@
                    == "No config path set for reload"@),
                ReloadVerdict::Failed(why) => (r matches Err(e) && e@ == why) && final(self)@
                    == recorded(old(self)@, failed_report(ts, source, why), None),
                ReloadVerdict::Good(new) => {
                    let report = good_report(
                        ts,
                        source,
                        old(self)@.snapshot.effective,
                        new,
                        stored,
                        hydrated is Some,
                    );
                    (r matches Ok(p) && p@ == report) && final(self)@ == recorded(
                        old(self)@,
                        report,
                        Some(new),
                    )
                },
            },
            keeps_boot_values(old(self)@.snapshot) ==> keeps_boot_values(final(self)@.snapshot),
    {
        if self.snapshot.path.is_none() {
            return Err("No config path set for reload".to_string());
        }
        let new = match loaded {
            Err(why) => {
                self.record_reload(failure(ts, source, why.as_str()), None);
                return Err(why);
            },
            Ok(new) => new,
        };
        if let Some(Err(why)) = hydrated {
            self.record_reload(failure(ts, source, why.as_str()), None);
            return Err(why);
        }
        let report = ReloadReport {
            ts,
            source,
            ok: true,
            error: None,
            applied: config_changes(&self.snapshot.effective, &new, stored),
            restart_required: config_diff(&self.snapshot.effective, &new),
            hydrated: hydrated.is_some(),
        };
        let copy = report.clone();
        self.record_reload(report, Some(new));
        Ok(copy)
    }
}

/// How a reload ends.
pub enum ReloadVerdict {
    NoPath,
    Failed(Seq<char>),
    Good(ConfigView),
}

/// A reload needs a path, a file that reads, and a store that reads where
/// there is one.
pub open spec fn reload_verdict(
    path: Option<Seq<char>>,
    loaded: Result<SbcConfig, String>,
    hydrated: Option<Result<(), String>>,
) -> ReloadVerdict {
    if path is None {
        ReloadVerdict::NoPath
    } else {
        match loaded {
            Err(why) => ReloadVerdict::Failed(why@),
            Ok(new) => match hydrated {
                Some(Err(why)) => ReloadVerdict::Failed(why@),
                _ => ReloadVerdict::Good(new@),
            },
        }
    }
}

pub open spec fn failed_report(ts: u64, source: ReloadSource, why: Seq<char>) -> ReportView {
    ReportView {
        ts,
        source,
        ok: false,
        error: Some(why),
        applied: Seq::empty(),
        restart_required: Seq::empty(),
        hydrated: false,
    }
}

pub open spec fn good_report(
    ts: u64,
    source: ReloadSource,
    effective: ConfigView,
    loaded: ConfigView,
    stored: (Option<u32>, Option<u32>),
    hydrated: bool,
) -> ReportView {
    ReportView {
        ts,
        source,
        ok: true,
        error: None,
        applied: config::applied_keys(effective, loaded, stored),
        restart_required: config::restart_keys(effective, loaded),
        hydrated,
    }
}

fn failure(ts: u64, source: ReloadSource, why: &str) -> (r: ReloadReport)
    ensures
        r@ == failed_report(ts, source, why@),
{
    let applied: Vec<String> = Vec::new();
    let restart_required: Vec<String> = Vec::new();
    assert(text::string_views(applied@) =~= Seq::empty());
    assert(text::string_views(restart_required@) =~= Seq::empty());
    ReloadReport {
        ts,
        source,
        ok: false,
        error: Some(why.to_string()),
        applied,
        restart_required,
        hydrated: false,
    }
}

/// The action of the event that tells of a reload.
pub fn reload_action(ok: bool) -> (r: String)
    ensures
        r@ == (if ok {
            "reloaded"@
        } else {
            "reload_failed"@
        }),
{
    if ok {
        "reloaded".to_string()
    } else {
        "reload_failed".to_string()
    }
}

/// A reload that failed leaves what runs, what was loaded and from where as
/// it was; only the report and the generation tell of it.
pub proof fn law_failed_reload_changes_nothing(
    s: StateView,
    report: ReportView,
    loaded: Option<ConfigView>,
)
    requires
        !report.ok,
    ensures
        recorded(s, report, loaded).snapshot == (SnapshotView {
            last_reload: Some(report),
            ..s.snapshot
        }),
{
}

/// Every recorded reload raises the generation by one.
pub proof fn law_every_reload_is_counted(
    s: StateView,
    report: ReportView,
    loaded: Option<ConfigView>,
)
    requires
        s.generation < u64::MAX,
    ensures
        recorded(s, report, loaded).generation == s.generation + 1,
        recorded(s, report, loaded).snapshot.last_reload == Some(report),
        recorded(s, report, loaded).snapshot.boot == s.snapshot.boot,
{
}

} // verus!
