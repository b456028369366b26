//! Scan jobs and their shared cancellation and pause flags.
use vstd::prelude::*;
use std::sync::Arc;
use std::sync::atomic::AtomicBool;
use std::sync::atomic::Ordering;

verus! {

/// The cancel and pause flags of a scan, shared by every clone of the token
/// (the scan's worker and the commands that steer it). The flags are set by
/// other threads, so nothing is claimed of what a read returns.
#[derive(Debug, Clone)]
pub struct CancellationToken {
    cancelled: Arc<AtomicBool>,
    paused: Arc<AtomicBool>,
}

impl CancellationToken {
    /// A token that is neither cancelled nor paused.
    pub fn new() -> (t: Self) {
        CancellationToken {
            cancelled: Arc::new(AtomicBool::new(false)),
            paused: Arc::new(AtomicBool::new(false)),
        }
    }

    /// Cancels the scan.
    pub fn cancel(&self) {
        self.cancelled.store(true, Ordering::SeqCst);
    }

    /// Whether the scan was cancelled.
    pub fn is_cancelled(&self) -> (r: bool) {
        self.cancelled.load(Ordering::SeqCst)
    }

    /// Pauses the scan.
    pub fn pause(&self) {
        self.paused.store(true, Ordering::SeqCst);
    }

    /// Resumes the scan.
    pub fn resume(&self) {
        self.paused.store(false, Ordering::SeqCst);
    }

    /// Whether the scan is paused.
    pub fn is_paused(&self) -> (r: bool) {
        self.paused.load(Ordering::SeqCst)
    }

    /// One look at the flags by a worker at a checkpoint, as [`pause_step`]
    /// decides on the two flags it reads. The flags may change between the
    /// reads, so no clause ties the result to the token.
    pub fn check_pause(&self) -> (r: Option<bool>) {
        let paused = self.is_paused();
        let cancelled = self.is_cancelled();
        pause_step(paused, cancelled)
    }
}

/// What a worker at a checkpoint does on the flags it read: go on (`Some(true)`)
/// when neither is set, stop (`Some(false)`) when cancelled, and wait and look
/// again (`None`) when paused and not cancelled.
pub open spec fn spec_pause_step(paused: bool, cancelled: bool) -> Option<bool> {
    if paused {
        if cancelled {
            Some(false)
        } else {
            None
        }
    } else {
        Some(!cancelled)
    }
}

/// The checkpoint decision on the flags `paused` and `cancelled` (see
/// [`spec_pause_step`]).
pub fn pause_step(paused: bool, cancelled: bool) -> (r: Option<bool>)
    ensures
        r == spec_pause_step(paused, cancelled),
{
    if paused {
        if cancelled {
            Some(false)
        } else {
            None
        }
    } else {
        Some(!cancelled)
    }
}

/// The priority of a scan job, lowest first.
#[derive(Debug, Clone, Copy, PartialEq, Eq, PartialOrd, Ord)]
pub enum JobPriority {
    Low,
    Normal,
    High,
    Critical,
}

/// A scan job as the scheduler queues it.
#[derive(Debug, Clone)]
pub struct ScanJob {
    pub id: String,
    pub disk_index: u32,
    pub scan_mode: String,
    pub target_paths: Option<Vec<String>>,
    pub signature_ids: Option<Vec<String>>,
    pub priority: JobPriority,
    pub cancel_token: CancellationToken,
}

/// The memory thresholds below which scanning slows down, in MiB.
#[derive(Debug, Clone, Copy)]
pub struct MemoryGuard {
    warning_threshold_mb: u64,
    critical_threshold_mb: u64,
}

impl MemoryGuard {
    pub closed spec fn warning_mb(&self) -> u64 {
        self.warning_threshold_mb
    }

    pub closed spec fn critical_mb(&self) -> u64 {
        self.critical_threshold_mb
    }

    /// Thresholds of 1024 MiB (warning) and 512 MiB (critical).
    pub fn new() -> (g: Self)
        ensures
            g.warning_mb() == 1024,
            g.critical_mb() == 512,
    {
        MemoryGuard { warning_threshold_mb: 1024, critical_threshold_mb: 512 }
    }
}

} // verus!
