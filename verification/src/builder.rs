//! Settling one entry that needs no descent: what is counted for it and
//! which node, if any, stands for it in the tree.

use vstd::prelude::*;
use crate::coordinator::{progress_due, Coordinator, ScanProgress, Tally};
use crate::node::{file_node, unlisted_directory_node, FileInfo, Node};

verus! {

/// What examining a path found, where it is not a directory with a listing.
#[derive(Clone, Copy, Debug, PartialEq, Eq, Structural)]
pub enum Finding {
    /// The metadata of the path cannot be read.
    Unreadable,
    /// A file of `size` bytes.
    File { size: u64 },
    /// A directory whose listing cannot be read.
    UnlistedDirectory,
}

/// What settling an entry yields: its node, unless the entry is dropped,
/// and the progress snapshot to send, if one fell due.
#[derive(Debug)]
pub struct Settled {
    pub node: Option<FileInfo>,
    pub progress: Option<ScanProgress>,
}

/// The node that stands for an entry: none where the path cannot be
/// examined, a leaf for a file, and an empty directory where the listing
/// cannot be read.
pub open spec fn settled_node(name: Seq<char>, path: Seq<char>, finding: Finding) -> Option<Node> {
    match finding {
        Finding::Unreadable => None,
        Finding::File { size } => Some(file_node(name, path, size as nat)),
        Finding::UnlistedDirectory => Some(unlisted_directory_node(name, path)),
    }
}

/// The counts after an entry is settled: a file adds itself and its bytes,
/// anything that cannot be read adds one error.
pub open spec fn settled_tally(tally: Tally, finding: Finding) -> Tally {
    match finding {
        Finding::File { size } => tally.with_file(size as nat),
        _ => tally.with_error(),
    }
}

/// Whether the counters have room for what `finding` adds.
pub open spec fn has_room_for(coordinator: Coordinator, finding: Finding) -> bool {
    match finding {
        Finding::File { size } => coordinator.has_room_for_file(size as nat),
        _ => coordinator.has_room_for_error(),
    }
}

/// Tells whether the counters have room for what `finding` adds.
pub fn can_settle(coordinator: &Coordinator, finding: Finding) -> (fits: bool)
    ensures
        fits == has_room_for(*coordinator, finding),
{
    match finding {
        Finding::File { size } => coordinator.can_record_file(size),
        _ => coordinator.can_record_error(),
    }
}

/// Settles the entry called `name` at `path`, at `now_ms` milliseconds since
/// the scan started: counts it and builds its node. Only a file can make a
/// progress snapshot fall due.
pub fn settle(
    coordinator: &mut Coordinator,
    name: String,
    path: String,
    finding: Finding,
    now_ms: u64,
) -> (settled: Settled)
    requires
        has_room_for(*old(coordinator), finding),
    ensures
        final(coordinator).tally() == settled_tally(old(coordinator).tally(), finding),
        match settled.node {
            Some(info) => settled_node(name@, path@, finding) == Some(info@),
            None => settled_node(name@, path@, finding) is None,
        },
        settled.progress is Some <==> finding is File && progress_due(
            old(coordinator).last_notified(),
            now_ms as nat,
        ),
        settled.progress is Some ==> settled.progress->0.reports(path@, final(coordinator).tally()),
        final(coordinator).last_notified() == if settled.progress is Some {
            now_ms as nat
        } else {
            old(coordinator).last_notified()
        },
{
    match finding {
        Finding::Unreadable => {
            coordinator.record_error();
            Settled { node: None, progress: None }
        },
        Finding::File { size } => {
            let progress = coordinator.record_file(size, path.as_str(), now_ms);
            Settled { node: Some(FileInfo::file(name, path, size)), progress }
        },
        Finding::UnlistedDirectory => {
            coordinator.record_error();
            Settled { node: Some(FileInfo::unlisted_directory(name, path)), progress: None }
        },
    }
}

} // verus!
