//! Scanning a snapshot: a directory tree held in memory as it was read, and
//! the result that a scan under given limits makes of it.

use vstd::prelude::*;
use crate::builder::{settle, Finding};
use crate::coordinator::{report_of, Coordinator, Report, ScanResult, Tally};
use crate::laws::lemma_visit_is_well_formed;
use crate::limits::{lemma_verdict_is_final, ScanLimits, Verdict};
use crate::node::{
    directory_node, file_node, nodes_of, total_size, unlisted_directory_node, FileInfo, Node,
};
use crate::order::{lemma_nodes_of, lemma_retained_weighs_no_more};

verus! {

/// One entry of a directory tree, as a scan finds it.
#[derive(Debug)]
pub enum Entry {
    /// Nothing is at the path.
    Missing,
    /// The entry is there but its metadata cannot be read.
    Unreadable,
    /// A file of `size` bytes.
    File { name: String, path: String, size: u64 },
    /// A directory with its entries in the order in which they are
    /// enumerated, or without a listing where it cannot be read.
    Directory { name: String, path: String, listing: Option<Vec<Entry>> },
}

/// Why a scan did no work.
#[derive(Clone, Copy, Debug, PartialEq, Eq, Structural)]
pub enum ScanError {
    /// Nothing is at the root path.
    PathDoesNotExist,
    /// The metadata of the root path cannot be read.
    CannotReadMetadata,
}

impl ScanError {
    /// The error in words.
    pub open spec fn text(self) -> Seq<char> {
        match self {
            ScanError::PathDoesNotExist => "path does not exist"@,
            ScanError::CannotReadMetadata => "cannot read metadata"@,
        }
    }

    /// The error in words.
    pub fn message(&self) -> (text: String)
        ensures
            text@ == self.text(),
    {
        match self {
            ScanError::PathDoesNotExist => "path does not exist".to_owned(),
            ScanError::CannotReadMetadata => "cannot read metadata".to_owned(),
        }
    }
}

/// What the tree under `entry` holds: its files, their bytes, and the
/// entries and listings in it that cannot be read.
pub open spec fn contents_of(entry: Entry) -> Tally
    decreases entry, 0nat,
{
    match entry {
        Entry::Missing => Tally::zero().with_error(),
        Entry::Unreadable => Tally::zero().with_error(),
        Entry::File { name, path, size } => Tally::zero().with_file(size as nat),
        Entry::Directory { name, path, listing } => match listing {
            None => Tally::zero().with_error(),
            Some(entries) => contents_among(entries@, entries@.len()),
        },
    }
}

/// What the trees under the first `count` of `entries` hold together.
pub open spec fn contents_among(entries: Seq<Entry>, count: nat) -> Tally
    decreases entries, count,
{
    if count == 0 || count > entries.len() {
        Tally::zero()
    } else {
        contents_among(entries, (count - 1) as nat).plus(contents_of(entries[count - 1]))
    }
}

/// Whether the tree under `entry`, which stands `depth` levels below the
/// root, is narrow and shallow enough for the limits: no listing in it is
/// longer than a scan reads, and no directory with entries lies too deep to
/// be enumerated.
pub open spec fn within_shape(entry: Entry, limits: ScanLimits, depth: nat) -> bool
    decreases entry,
{
    match entry {
        Entry::Directory { name, path, listing: Some(entries) } => {
            &&& entries@.len() <= limits.max_entries_per_dir
            &&& entries@.len() > 0 ==> !limits.too_deep(depth)
            &&& forall|i: int|
                0 <= i < entries@.len() ==> within_shape(#[trigger] entries@[i], limits, depth + 1)
        },
        _ => true,
    }
}

/// Whether a file or a directory in the tree under `entry` has the path
/// `path`.
pub open spec fn has_path(entry: Entry, path: Seq<char>) -> bool
    decreases entry,
{
    match entry {
        Entry::Missing => false,
        Entry::Unreadable => false,
        Entry::File { name, path: own, size } => own@ == path,
        Entry::Directory { name, path: own, listing } => own@ == path || match listing {
            None => false,
            Some(entries) => exists|i: int|
                0 <= i < entries@.len() && has_path(#[trigger] entries@[i], path),
        },
    }
}

/// Whether every file and directory in the tree under `entry` has a path of
/// its own: no directory shares its path with anything below it, and no two
/// of its entries hold the same path.
pub open spec fn has_distinct_paths(entry: Entry) -> bool
    decreases entry,
{
    match entry {
        Entry::Directory { name, path, listing: Some(entries) } => {
            &&& forall|i: int| 0 <= i < entries@.len() ==> !has_path(#[trigger] entries@[i], path@)
            &&& forall|i: int, j: int, shared: Seq<char>|
                0 <= i < entries@.len() && 0 <= j < entries@.len() && i != j ==> !(
                #[trigger] has_path(entries@[i], shared) && #[trigger] has_path(entries@[j], shared))
            &&& forall|i: int| 0 <= i < entries@.len() ==> has_distinct_paths(#[trigger] entries@[i])
        },
        _ => true,
    }
}

/// What visiting one entry yields: its node, unless the entry is dropped,
/// and the counts after the visit.
pub ghost struct Visit {
    pub node: Option<Node>,
    pub tally: Tally,
}

/// What visiting the entries of one directory yields: the nodes of those
/// that were not dropped, in the order of the listing, and the counts after
/// the last visit.
pub ghost struct Listing {
    pub nodes: Seq<Node>,
    pub tally: Tally,
}

/// Visits `entry`, which stands `depth` levels below the root, with `tally`
/// counted before. An entry that cannot be read is counted as an error and
/// dropped; a directory whose listing cannot be read is counted as an error
/// and kept, empty.
pub open spec fn visit(entry: Entry, limits: ScanLimits, depth: nat, tally: Tally) -> Visit
    decreases entry, 0nat,
{
    match entry {
        Entry::Missing => Visit { node: None, tally: tally.with_error() },
        Entry::Unreadable => Visit { node: None, tally: tally.with_error() },
        Entry::File { name, path, size } => Visit {
            node: Some(file_node(name@, path@, size as nat)),
            tally: tally.with_file(size as nat),
        },
        Entry::Directory { name, path, listing } => match listing {
            None => Visit {
                node: Some(unlisted_directory_node(name@, path@)),
                tally: tally.with_error(),
            },
            Some(entries) => {
                let inner = visit_entries(entries@, limits, depth, entries@.len(), tally);
                Visit {
                    node: Some(directory_node(name@, path@, inner.nodes, limits.max_children as nat)),
                    tally: inner.tally,
                }
            },
        },
    }
}

/// Visits the first `count` entries of a directory at `depth`, in order,
/// as far as the limits allow. The limits are consulted before each entry,
/// with the files counted up to there; a snapshot is scanned at one instant,
/// so no time has passed. Entries behind the first at which the limits say
/// anything but `Continue` are not visited.
pub open spec fn visit_entries(
    entries: Seq<Entry>,
    limits: ScanLimits,
    depth: nat,
    count: nat,
    tally: Tally,
) -> Listing
    decreases entries, count,
{
    if count == 0 || count > entries.len() {
        Listing { nodes: Seq::empty(), tally }
    } else {
        let before = visit_entries(entries, limits, depth, (count - 1) as nat, tally);
        if limits.verdict(depth, (count - 1) as nat, 0, before.tally.files) == Verdict::Continue {
            let visited = visit(entries[count - 1], limits, depth + 1, before.tally);
            Listing {
                nodes: match visited.node {
                    Some(node) => before.nodes.push(node),
                    None => before.nodes,
                },
                tally: visited.tally,
            }
        } else {
            before
        }
    }
}

/// What a scan of the tree under `root` counts.
pub open spec fn scan_tally(root: Entry, limits: ScanLimits) -> Tally {
    visit(root, limits, 0, Tally::zero()).tally
}

/// The outcome of scanning the tree under `root`: an error where the root
/// itself cannot be examined, and otherwise the root's node with the counts
/// of the whole traversal.
pub open spec fn scan_report(root: Entry, limits: ScanLimits) -> Result<Report, ScanError> {
    match root {
        Entry::Missing => Err(ScanError::PathDoesNotExist),
        Entry::Unreadable => Err(ScanError::CannotReadMetadata),
        _ => {
            let visited = visit(root, limits, 0, Tally::zero());
            Ok(report_of(visited.node->0, visited.tally))
        },
    }
}

/// Whether `result` is what a scan of the tree under `root` returns.
pub open spec fn is_outcome_of(
    result: Result<ScanResult, ScanError>,
    root: Entry,
    limits: ScanLimits,
) -> bool {
    match result {
        Ok(scan) => scan_report(root, limits) == Ok::<Report, ScanError>(scan@),
        Err(error) => scan_report(root, limits) == Err::<Report, ScanError>(error),
    }
}

/// A visit only adds to the counts, and the node it yields weighs no more
/// than the bytes it added.
pub proof fn lemma_visit_grows(entry: Entry, limits: ScanLimits, depth: nat, tally: Tally)
    ensures
        ({
            let visited = visit(entry, limits, depth, tally);
            &&& tally.files <= visited.tally.files
            &&& tally.bytes <= visited.tally.bytes
            &&& tally.errors <= visited.tally.errors
            &&& visited.node is Some ==> tally.bytes + visited.node->0.size <= visited.tally.bytes
        }),
    decreases entry, 0nat,
{
    match entry {
        Entry::Directory { name, path, listing: Some(entries) } => {
            let inner = visit_entries(entries@, limits, depth, entries@.len(), tally);
            lemma_listing_grows(entries@, limits, depth, entries@.len(), tally);
            lemma_retained_weighs_no_more(inner.nodes, limits.max_children as nat);
        },
        _ => {},
    }
}

/// Visiting a listing only adds to the counts, and the nodes it yields weigh
/// together no more than the bytes it added.
pub proof fn lemma_listing_grows(
    entries: Seq<Entry>,
    limits: ScanLimits,
    depth: nat,
    count: nat,
    tally: Tally,
)
    ensures
        ({
            let listed = visit_entries(entries, limits, depth, count, tally);
            &&& tally.files <= listed.tally.files
            &&& tally.bytes <= listed.tally.bytes
            &&& tally.errors <= listed.tally.errors
            &&& tally.bytes + total_size(listed.nodes) <= listed.tally.bytes
            &&& listed.nodes.len() <= count
        }),
    decreases entries, count,
{
    if count == 0 || count > entries.len() {
    } else {
        let before = visit_entries(entries, limits, depth, (count - 1) as nat, tally);
        lemma_listing_grows(entries, limits, depth, (count - 1) as nat, tally);
        if limits.verdict(depth, (count - 1) as nat, 0, before.tally.files) == Verdict::Continue {
            let visited = visit(entries[count - 1], limits, depth + 1, before.tally);
            lemma_visit_grows(entries[count - 1], limits, depth + 1, before.tally);
            if visited.node is Some {
                assert(before.nodes.push(visited.node->0).drop_last() =~= before.nodes);
            }
        }
    }
}

/// A longer prefix of a listing counts at least what a shorter one counts.
pub proof fn lemma_listing_prefix_grows(
    entries: Seq<Entry>,
    limits: ScanLimits,
    depth: nat,
    shorter: nat,
    longer: nat,
    tally: Tally,
)
    requires
        shorter <= longer <= entries.len(),
    ensures
        ({
            let early = visit_entries(entries, limits, depth, shorter, tally);
            let late = visit_entries(entries, limits, depth, longer, tally);
            &&& early.tally.files <= late.tally.files
            &&& early.tally.bytes <= late.tally.bytes
            &&& early.tally.errors <= late.tally.errors
        }),
    decreases longer,
{
    if shorter < longer {
        let before = visit_entries(entries, limits, depth, (longer - 1) as nat, tally);
        lemma_listing_prefix_grows(entries, limits, depth, shorter, (longer - 1) as nat, tally);
        if limits.verdict(depth, (longer - 1) as nat, 0, before.tally.files) == Verdict::Continue {
            lemma_visit_grows(entries[longer - 1], limits, depth + 1, before.tally);
        }
    }
}

/// Once the limits say anything but `Continue` at an entry, the rest of the
/// listing is not visited: every longer prefix yields what the prefix up to
/// that entry yields.
pub proof fn lemma_listing_stops(
    entries: Seq<Entry>,
    limits: ScanLimits,
    depth: nat,
    stop: nat,
    longer: nat,
    tally: Tally,
)
    requires
        stop <= longer <= entries.len(),
        limits.verdict(depth, stop, 0, visit_entries(entries, limits, depth, stop, tally).tally.files)
            != Verdict::Continue,
    ensures
        visit_entries(entries, limits, depth, longer, tally) == visit_entries(
            entries,
            limits,
            depth,
            stop,
            tally,
        ),
    decreases longer,
{
    if stop < longer {
        lemma_listing_stops(entries, limits, depth, stop, (longer - 1) as nat, tally);
        let stopped = visit_entries(entries, limits, depth, stop, tally);
        lemma_verdict_is_final(
            limits,
            depth,
            stop,
            0,
            stopped.tally.files,
            depth,
            (longer - 1) as nat,
            0,
            stopped.tally.files,
        );
    }
}

/// The depth as the traversal carries it: the true depth, held at the
/// largest machine number once it passes it. No depth bound can tell the
/// two apart.
spec fn carried_depth(level: nat) -> nat {
    if level <= usize::MAX {
        level
    } else {
        usize::MAX as nat
    }
}

/// Visits `entry` at `level` levels below the root and counts what it finds
/// in `coordinator`.
fn visit_entry(
    entry: &Entry,
    limits: &ScanLimits,
    depth: usize,
    Ghost(level): Ghost<nat>,
    coordinator: &mut Coordinator,
) -> (node: Option<FileInfo>)
    requires
        depth == carried_depth(level),
        visit(*entry, *limits, level, old(coordinator).tally()).tally.fits(),
    ensures
        final(coordinator).tally() == visit(*entry, *limits, level, old(coordinator).tally()).tally,
        match node {
            Some(info) => visit(*entry, *limits, level, old(coordinator).tally()).node == Some(info@),
            None => visit(*entry, *limits, level, old(coordinator).tally()).node is None,
        },
    decreases entry,
{
    match entry {
        Entry::Missing => settle(coordinator, String::new(), String::new(), Finding::Unreadable, 0).node,
        Entry::Unreadable => settle(
            coordinator,
            String::new(),
            String::new(),
            Finding::Unreadable,
            0,
        ).node,
        Entry::File { name, path, size } => settle(
            coordinator,
            name.clone(),
            path.clone(),
            Finding::File { size: *size },
            0,
        ).node,
        Entry::Directory { name, path, listing } => match listing {
            None => settle(
                coordinator,
                name.clone(),
                path.clone(),
                Finding::UnlistedDirectory,
                0,
            ).node,
            Some(entries) => {
                let ghost start = coordinator.tally();
                let next_depth = if depth < usize::MAX {
                    depth + 1
                } else {
                    depth
                };
                let mut children: Vec<FileInfo> = Vec::new();
                let mut index: usize = 0;
                let mut stopped = false;
                while index < entries.len() && !stopped
                    invariant
                        index <= entries.len(),
                        decreases_to!(entry => entries),
                        depth == carried_depth(level),
                        next_depth == carried_depth(level + 1),
                        visit_entries(entries@, *limits, level, entries@.len(), start).tally.fits(),
                        coordinator.tally() == visit_entries(entries@, *limits, level, index as nat, start).tally,
                        nodes_of(children@) == visit_entries(entries@, *limits, level, index as nat, start).nodes,
                        stopped ==> visit_entries(entries@, *limits, level, entries@.len(), start)
                            == visit_entries(entries@, *limits, level, index as nat, start),
                    decreases
                            entries.len() - index + if stopped {
                                0int
                            } else {
                                1int
                            },
                {
                    let verdict = limits.decide(depth, index, 0, coordinator.files_processed());
                    assert(verdict == limits.verdict(level, index as nat, 0, coordinator.tally().files));
                    match verdict {
                        Verdict::Continue => {
                            proof {
                                lemma_listing_prefix_grows(
                                    entries@,
                                    *limits,
                                    level,
                                    (index + 1) as nat,
                                    entries@.len(),
                                    start,
                                );
                            }
                            let ghost before = children@;
                            match visit_entry(&entries[index], limits, next_depth, Ghost(level + 1), coordinator) {
                                Some(child) => {
                                    children.push(child);
                                    proof {
                                        lemma_nodes_of(before);
                                        lemma_nodes_of(children@);
                                        assert(nodes_of(children@) =~= nodes_of(before).push(child@));
                                    }
                                },
                                None => {},
                            }
                            index += 1;
                        },
                        _ => {
                            proof {
                                lemma_listing_stops(
                                    entries@,
                                    *limits,
                                    level,
                                    index as nat,
                                    entries@.len(),
                                    start,
                                );
                            }
                            stopped = true;
                        },
                    }
                }
                proof {
                    let listed = visit_entries(entries@, *limits, level, entries@.len(), start);
                    lemma_listing_grows(entries@, *limits, level, entries@.len(), start);
                    lemma_retained_weighs_no_more(listed.nodes, limits.max_children as nat);
                }
                Some(FileInfo::directory(name.clone(), path.clone(), children, limits.max_children))
            },
        },
    }
}

/// Walks the tree under `entry` as a scan would and counts what it finds in
/// `coordinator`, building nothing. It gives up, and says so, as soon as a
/// counter has no room for what comes next.
fn measure_entry(
    entry: &Entry,
    limits: &ScanLimits,
    depth: usize,
    Ghost(level): Ghost<nat>,
    coordinator: &mut Coordinator,
) -> (fits: bool)
    requires
        depth == carried_depth(level),
    ensures
        fits == visit(*entry, *limits, level, old(coordinator).tally()).tally.fits(),
        fits ==> final(coordinator).tally() == visit(
            *entry,
            *limits,
            level,
            old(coordinator).tally(),
        ).tally,
    decreases entry,
{
    proof {
        coordinator.lemma_tally_fits();
    }
    match entry {
        Entry::Missing => {
            let room = coordinator.can_record_error();
            if room {
                coordinator.record_error();
            }
            room
        },
        Entry::Unreadable => {
            let room = coordinator.can_record_error();
            if room {
                coordinator.record_error();
            }
            room
        },
        Entry::File { name, path, size } => {
            let room = coordinator.can_record_file(*size);
            if room {
                coordinator.count_file(*size);
            }
            room
        },
        Entry::Directory { name, path, listing } => match listing {
            None => {
                let room = coordinator.can_record_error();
                if room {
                    coordinator.record_error();
                }
                room
            },
            Some(entries) => {
                let ghost start = coordinator.tally();
                let next_depth = if depth < usize::MAX {
                    depth + 1
                } else {
                    depth
                };
                let mut index: usize = 0;
                let mut stopped = false;
                let mut fits = true;
                while index < entries.len() && !stopped && fits
                    invariant
                        index <= entries.len(),
                        decreases_to!(entry => entries),
                        depth == carried_depth(level),
                        next_depth == carried_depth(level + 1),
                        fits ==> coordinator.tally() == visit_entries(
                            entries@,
                            *limits,
                            level,
                            index as nat,
                            start,
                        ).tally,
                        !fits ==> !visit_entries(entries@, *limits, level, entries@.len(), start).tally.fits(),
                        stopped ==> visit_entries(entries@, *limits, level, entries@.len(), start)
                            == visit_entries(entries@, *limits, level, index as nat, start),
                    decreases
                            entries.len() - index + if stopped || !fits {
                                0int
                            } else {
                                1int
                            },
                {
                    let verdict = limits.decide(depth, index, 0, coordinator.files_processed());
                    assert(verdict == limits.verdict(level, index as nat, 0, coordinator.tally().files));
                    match verdict {
                        Verdict::Continue => {
                            proof {
                                lemma_listing_prefix_grows(
                                    entries@,
                                    *limits,
                                    level,
                                    (index + 1) as nat,
                                    entries@.len(),
                                    start,
                                );
                            }
                            fits = measure_entry(
                                &entries[index],
                                limits,
                                next_depth,
                                Ghost(level + 1),
                                coordinator,
                            );
                            if fits {
                                index += 1;
                            }
                        },
                        _ => {
                            proof {
                                lemma_listing_stops(
                                    entries@,
                                    *limits,
                                    level,
                                    index as nat,
                                    entries@.len(),
                                    start,
                                );
                            }
                            stopped = true;
                        },
                    }
                }
                proof {
                    coordinator.lemma_tally_fits();
                }
                fits
            },
        },
    }
}

/// Tells whether what a scan of the tree under `root` counts fits the
/// machine's counters, which is what [`scan_tree`] asks of its caller.
pub fn scan_fits(root: &Entry, limits: &ScanLimits) -> (fits: bool)
    ensures
        fits == scan_tally(*root, *limits).fits(),
{
    let mut coordinator = Coordinator::new();
    measure_entry(root, limits, 0, Ghost(0), &mut coordinator)
}

/// Scans the tree under `root` within `limits` if the counts of the scan
/// fit the machine's counters, and does nothing if they do not.
pub fn try_scan_tree(root: &Entry, limits: &ScanLimits) -> (result: Option<
    Result<ScanResult, ScanError>,
>)
    ensures
        result is Some <==> scan_tally(*root, *limits).fits(),
        result matches Some(outcome) ==> is_outcome_of(outcome, *root, *limits),
        result matches Some(Ok(scan)) ==> scan@.root.well_formed(limits.max_children as nat),
{
    if scan_fits(root, limits) {
        Some(scan_tree(root, limits))
    } else {
        None
    }
}

/// Scans the tree under `root` within `limits`. The scan fails only where
/// the root itself cannot be examined; whatever else cannot be read is
/// counted and passed over, and a scan cut short by a limit is a result
/// like any other. In the tree that is returned every directory reports the
/// sum over the children it retains and holds them largest first.
pub fn scan_tree(root: &Entry, limits: &ScanLimits) -> (result: Result<ScanResult, ScanError>)
    requires
        scan_tally(*root, *limits).fits(),
    ensures
        is_outcome_of(result, *root, *limits),
        result matches Ok(scan) ==> scan@.root.well_formed(limits.max_children as nat),
{
    proof {
        lemma_visit_is_well_formed(*root, *limits, 0, Tally::zero());
    }
    match root {
        Entry::Missing => Err(ScanError::PathDoesNotExist),
        Entry::Unreadable => Err(ScanError::CannotReadMetadata),
        _ => {
            let mut coordinator = Coordinator::new();
            // A file or a directory always yields a node, so the second arm
            // is never taken.
            match visit_entry(root, limits, 0, Ghost(0), &mut coordinator) {
                Some(node) => Ok(coordinator.finish(node)),
                None => Err(ScanError::CannotReadMetadata),
            }
        },
    }
}

} // verus!
