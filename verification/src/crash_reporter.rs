//! Crash reporting: the report of a captured error, the reporter used when
//! reporting is disabled, and the local reporter's opt-in state. Writing
//! reports to disk is the caller's.
use vstd::prelude::*;
use vstd::string::*;

use std::path::PathBuf;

use crate::clock::now_ms;
use crate::error::{AppError, AppResult};

verus! {

/// Snapshot of a captured error, ready to be reported.
#[derive(Debug, Clone, PartialEq, Eq)]
pub struct CrashReport {
    /// Identifier of the reporting implementation (`local-file`, ...).
    pub source: String,
    /// Short label used to group similar incidents.
    pub label: String,
    /// One-line summary; document content is never included.
    pub message: String,
    /// Multi-line context dump, already redacted by the caller.
    pub details: String,
    /// Epoch milliseconds when the report was captured.
    pub captured_at: i64,
}

/// Reporter that does nothing: inactive, never enabled.
#[derive(Debug, Default, Clone, Copy)]
pub struct NoOpCrashReporter;

/// Delivers crash reports when the user has opted in.
pub trait CrashReporterService {
    /// Consider a report for delivery; the opt-in is checked here.
    fn record(&self, report: CrashReport) -> AppResult<()>;

    /// Whether reports go anywhere.
    fn is_active(&self) -> bool;

    /// Change the opt-in flag.
    fn set_enabled(&self, enabled: bool);

    /// The opt-in flag.
    fn is_enabled(&self) -> bool;
}

impl CrashReporterService for NoOpCrashReporter {
    /// Accepted and dropped.
    fn record(&self, report: CrashReport) -> (r: AppResult<()>)
        ensures
            r is Ok,
    {
        Ok(())
    }

    /// Never delivers reports.
    fn is_active(&self) -> (r: bool)
        ensures
            !r,
    {
        false
    }

    /// Ignored: the no-op reporter has no opt-in.
    fn set_enabled(&self, enabled: bool) {
    }

    /// Never enabled.
    fn is_enabled(&self) -> (r: bool)
        ensures
            !r,
    {
        false
    }
}

/// Local reporter: reports go as JSON lines into a directory, once the
/// user has opted in.
#[derive(Debug)]
pub struct LocalFileCrashReporter {
    dir: PathBuf,
    enabled: bool,
}

impl LocalFileCrashReporter {
    /// The opt-in flag.
    pub closed spec fn spec_enabled(&self) -> bool {
        self.enabled
    }

    /// The directory reports go to.
    pub closed spec fn spec_dir(&self) -> PathBuf {
        self.dir
    }

    /// A reporter writing into `dir`, disabled until opted in.
    pub fn new(dir: PathBuf) -> (r: Self)
        ensures
            r.spec_dir() == dir,
            !r.spec_enabled(),
    {
        LocalFileCrashReporter { dir, enabled: false }
    }

    /// The directory reports go to.
    pub fn dir(&self) -> (r: &PathBuf)
        ensures
            *r == self.spec_dir(),
    {
        &self.dir
    }

    /// Delivers reports (to disk).
    pub fn is_active(&self) -> (r: bool)
        ensures
            r,
    {
        true
    }

    /// Set the opt-in flag.
    pub fn set_enabled(&mut self, enabled: bool)
        ensures
            final(self).spec_dir() == old(self).spec_dir(),
            final(self).spec_enabled() == enabled,
    {
        self.enabled = enabled;
    }

    /// The opt-in flag.
    pub fn is_enabled(&self) -> (r: bool)
        ensures
            r == self.spec_enabled(),
    {
        self.enabled
    }

    /// Whether a report should be written now: only when opted in.
    pub fn should_write(&self) -> (r: bool)
        ensures
            r == self.spec_enabled(),
    {
        self.enabled
    }
}

/// Build a report from an error: its one-line display form as the message,
/// no details, the current time.
pub fn report_from_error(source: &str, label: &str, err: &AppError) -> (r: CrashReport)
    ensures
        r.source@ == source@,
        r.label@ == label@,
        r.message@ == err.spec_prefix() + err.spec_detail(),
        r.details@ == Seq::<char>::empty(),
        r.captured_at >= 0,
{
    CrashReport {
        source: String::from_str(source),
        label: String::from_str(label),
        message: err.message(),
        details: String::new(),
        captured_at: now_ms(),
    }
}

} // verus!
