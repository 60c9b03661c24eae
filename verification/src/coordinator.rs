//! The counters of one scan, the clock of its progress notifications, and
//! the result that is assembled from them.

use vstd::prelude::*;
use crate::node::{FileInfo, Node};

verus! {

/// A progress notification is due once more than this many milliseconds have
/// passed since the last one.
pub const PROGRESS_INTERVAL_MS: u64 = 50;

/// What a scan has counted: every file visited, its bytes, and every entry
/// that could not be read. The counts do not depend on which nodes the
/// result tree retains.
pub ghost struct Tally {
    pub files: nat,
    pub bytes: nat,
    pub errors: nat,
}

impl Tally {
    /// Nothing counted yet.
    pub open spec fn zero() -> Tally {
        Tally { files: 0, bytes: 0, errors: 0 }
    }

    /// One more file, of `size` bytes.
    pub open spec fn with_file(self, size: nat) -> Tally {
        Tally { files: self.files + 1, bytes: self.bytes + size, errors: self.errors }
    }

    /// One more entry that could not be read.
    pub open spec fn with_error(self) -> Tally {
        Tally { files: self.files, bytes: self.bytes, errors: self.errors + 1 }
    }

    /// The counts of two parts of a traversal together.
    pub open spec fn plus(self, other: Tally) -> Tally {
        Tally {
            files: self.files + other.files,
            bytes: self.bytes + other.bytes,
            errors: self.errors + other.errors,
        }
    }

    /// Whether the counts fit the machine's counters.
    pub open spec fn fits(self) -> bool {
        self.files <= usize::MAX && self.bytes <= u64::MAX && self.errors <= usize::MAX
    }
}

/// Whether a notification is due at `now_ms` when the last one went out at
/// `last_ms`, both in milliseconds since the scan started. A reading that
/// lies before the last notification asks for none.
pub open spec fn progress_due(last_ms: nat, now_ms: nat) -> bool {
    now_ms - last_ms > PROGRESS_INTERVAL_MS
}

/// A snapshot of a running scan, as it is handed to an observer.
#[derive(Debug, Clone)]
pub struct ScanProgress {
    /// The path of the file that was counted last.
    pub current_path: String,
    /// Files counted so far.
    pub files_processed: usize,
    /// Bytes counted so far.
    pub total_size_so_far: u64,
    /// An estimate of the files to come; a scan makes none.
    pub estimated_total: Option<usize>,
}

impl ScanProgress {
    /// Whether this is the snapshot taken at `path` with `tally` counted.
    pub open spec fn reports(&self, path: Seq<char>, tally: Tally) -> bool {
        &&& self.current_path@ == path
        &&& self.files_processed == tally.files
        &&& self.total_size_so_far == tally.bytes
        &&& self.estimated_total is None
    }
}

/// The outcome of a scan: the tree under the root and what was counted on
/// the way.
#[derive(Debug)]
pub struct ScanResult {
    /// The node of the root path.
    pub root: FileInfo,
    /// The bytes of every file visited.
    pub total_size: u64,
    /// The number of files visited.
    pub file_count: usize,
    /// The number of entries that could not be read.
    pub error_count: usize,
}

/// The mathematical value of a [`ScanResult`].
pub ghost struct Report {
    pub root: Node,
    pub total_size: nat,
    pub file_count: nat,
    pub error_count: nat,
}

impl View for ScanResult {
    type V = Report;

    open spec fn view(&self) -> Report {
        Report {
            root: self.root@,
            total_size: self.total_size as nat,
            file_count: self.file_count as nat,
            error_count: self.error_count as nat,
        }
    }
}

/// The report over `root` with `tally` counted.
pub open spec fn report_of(root: Node, tally: Tally) -> Report {
    Report { root, total_size: tally.bytes, file_count: tally.files, error_count: tally.errors }
}

/// The shared state of one scan. Every update is one call, so a caller that
/// guards the coordinator with a lock holds it for a constant time only.
#[derive(Debug)]
pub struct Coordinator {
    files: usize,
    bytes: u64,
    errors: usize,
    last_notified_ms: u64,
}

impl Coordinator {
    /// What has been counted so far.
    pub closed spec fn tally(&self) -> Tally {
        Tally { files: self.files as nat, bytes: self.bytes as nat, errors: self.errors as nat }
    }

    /// When the last notification went out, in milliseconds since the scan
    /// started; zero before the first.
    pub closed spec fn last_notified(&self) -> nat {
        self.last_notified_ms as nat
    }

    /// Whether one more file of `size` bytes fits the counters.
    pub open spec fn has_room_for_file(&self, size: nat) -> bool {
        self.tally().files < usize::MAX && self.tally().bytes + size <= u64::MAX
    }

    /// Whether one more error fits the counter.
    pub open spec fn has_room_for_error(&self) -> bool {
        self.tally().errors < usize::MAX
    }

    /// What a coordinator has counted always fits the machine's counters.
    pub proof fn lemma_tally_fits(&self)
        ensures
            self.tally().fits(),
    {
    }

    /// The state in which a scan starts.
    pub fn new() -> (coordinator: Coordinator)
        ensures
            coordinator.tally() == Tally::zero(),
            coordinator.last_notified() == 0,
    {
        Coordinator { files: 0, bytes: 0, errors: 0, last_notified_ms: 0 }
    }

    /// Files counted so far.
    pub fn files_processed(&self) -> (files: usize)
        ensures
            files == self.tally().files,
    {
        self.files
    }

    /// Bytes counted so far.
    pub fn total_size(&self) -> (bytes: u64)
        ensures
            bytes == self.tally().bytes,
    {
        self.bytes
    }

    /// Entries that could not be read so far.
    pub fn error_count(&self) -> (errors: usize)
        ensures
            errors == self.tally().errors,
    {
        self.errors
    }

    /// Tells whether one more file of `size` bytes fits the counters.
    pub fn can_record_file(&self, size: u64) -> (fits: bool)
        ensures
            fits == self.has_room_for_file(size as nat),
    {
        self.files < usize::MAX && size <= u64::MAX - self.bytes
    }

    /// Tells whether one more error fits the counter.
    pub fn can_record_error(&self) -> (fits: bool)
        ensures
            fits == self.has_room_for_error(),
    {
        self.errors < usize::MAX
    }

    /// Counts one file of `size` bytes.
    pub fn count_file(&mut self, size: u64)
        requires
            old(self).has_room_for_file(size as nat),
        ensures
            final(self).tally() == old(self).tally().with_file(size as nat),
            final(self).last_notified() == old(self).last_notified(),
    {
        self.files = self.files + 1;
        self.bytes = self.bytes + size;
    }

    /// Counts one entry that could not be read.
    pub fn record_error(&mut self)
        requires
            old(self).has_room_for_error(),
        ensures
            final(self).tally() == old(self).tally().with_error(),
            final(self).last_notified() == old(self).last_notified(),
    {
        self.errors = self.errors + 1;
    }

    /// Counts the file at `path`, of `size` bytes, at `now_ms` milliseconds
    /// since the scan started. Where a notification is due it returns the
    /// snapshot to send, the file included, and restarts the interval at
    /// `now_ms`; otherwise it returns nothing and the interval runs on.
    pub fn record_file(&mut self, size: u64, path: &str, now_ms: u64) -> (progress: Option<ScanProgress>)
        requires
            old(self).has_room_for_file(size as nat),
        ensures
            final(self).tally() == old(self).tally().with_file(size as nat),
            progress is Some <==> progress_due(old(self).last_notified(), now_ms as nat),
            progress is Some ==> progress->0.reports(path@, final(self).tally()),
            final(self).last_notified() == if progress is Some {
                now_ms as nat
            } else {
                old(self).last_notified()
            },
    {
        self.count_file(size);
        if now_ms > self.last_notified_ms && now_ms - self.last_notified_ms > PROGRESS_INTERVAL_MS {
            self.last_notified_ms = now_ms;
            Some(
                ScanProgress {
                    current_path: path.to_owned(),
                    files_processed: self.files,
                    total_size_so_far: self.bytes,
                    estimated_total: None,
                },
            )
        } else {
            None
        }
    }

    /// Joins the tree under `root` with the counts as they stand.
    pub fn finish(&self, root: FileInfo) -> (result: ScanResult)
        ensures
            result@ == report_of(root@, self.tally()),
    {
        ScanResult { root, total_size: self.bytes, file_count: self.files, error_count: self.errors }
    }
}

} // verus!
