//! The bounds under which a scan runs, and the decision they imply at each
//! point of a traversal.

use vstd::prelude::*;

verus! {

/// What the traversal does next at a given point.
#[derive(Clone, Copy, Debug, PartialEq, Eq, Structural)]
pub enum Verdict {
    /// Visit the entry at hand.
    Continue,
    /// Visit no further entry of the current directory.
    StopDirectory,
    /// Start no further work anywhere in the tree.
    Abandon,
}

/// The bounds of one scan. A bound that is `None` is not enforced.
#[derive(Clone, Copy, Debug, PartialEq, Eq, Structural)]
pub struct ScanLimits {
    /// How many entries of one directory listing are visited; the rest of the
    /// listing is dropped without an error.
    pub max_entries_per_dir: usize,
    /// How many children a directory node retains, largest first.
    pub max_children: usize,
    /// Once this many files have been counted, no further entry is visited.
    pub max_files: Option<usize>,
    /// Once more than this many milliseconds have passed since the scan
    /// started, no further entry is visited.
    pub max_elapsed_ms: Option<u64>,
    /// Directories at this depth or deeper are not enumerated; the root
    /// directory has depth zero.
    pub max_depth: Option<usize>,
}

/// Entries visited per directory unless a caller says otherwise.
pub const DEFAULT_MAX_ENTRIES_PER_DIR: usize = 500;

/// Children retained per directory node unless a caller says otherwise.
pub const DEFAULT_MAX_CHILDREN: usize = 50;

/// The limits of a scan that bounds only the width of a directory and the
/// number of children a node retains.
pub open spec fn standard_limits() -> ScanLimits {
    ScanLimits {
        max_entries_per_dir: DEFAULT_MAX_ENTRIES_PER_DIR,
        max_children: DEFAULT_MAX_CHILDREN,
        max_files: None,
        max_elapsed_ms: None,
        max_depth: None,
    }
}

impl Default for ScanLimits {
    fn default() -> (limits: ScanLimits)
        ensures
            limits == standard_limits(),
    {
        ScanLimits::standard()
    }
}

impl ScanLimits {
    /// Whether the file ceiling is reached with `files` files counted.
    pub open spec fn files_exhausted(&self, files: nat) -> bool {
        self.max_files is Some && files >= self.max_files->0
    }

    /// Whether the time budget is spent after `elapsed_ms` milliseconds.
    pub open spec fn time_exhausted(&self, elapsed_ms: nat) -> bool {
        self.max_elapsed_ms is Some && elapsed_ms > self.max_elapsed_ms->0
    }

    /// Whether a directory at `depth` is too deep to be enumerated.
    pub open spec fn too_deep(&self, depth: nat) -> bool {
        self.max_depth is Some && depth >= self.max_depth->0
    }

    /// The decision at entry `entry_index` of a directory at `depth`, with
    /// `elapsed_ms` milliseconds gone and `files` files counted so far.
    /// Global budgets are consulted first: an exhausted file ceiling or time
    /// budget abandons the scan whatever the position in the directory.
    pub open spec fn verdict(&self, depth: nat, entry_index: nat, elapsed_ms: nat, files: nat) -> Verdict {
        if self.files_exhausted(files) || self.time_exhausted(elapsed_ms) {
            Verdict::Abandon
        } else if entry_index >= self.max_entries_per_dir || self.too_deep(depth) {
            Verdict::StopDirectory
        } else {
            Verdict::Continue
        }
    }

    /// The limits of a scan that bounds only the width of a directory and
    /// the number of children a node retains.
    pub fn standard() -> (limits: ScanLimits)
        ensures
            limits == standard_limits(),
    {
        ScanLimits {
            max_entries_per_dir: DEFAULT_MAX_ENTRIES_PER_DIR,
            max_children: DEFAULT_MAX_CHILDREN,
            max_files: None,
            max_elapsed_ms: None,
            max_depth: None,
        }
    }

    /// Decides whether to visit entry `entry_index` of a directory at
    /// `depth`.
    pub fn decide(&self, depth: usize, entry_index: usize, elapsed_ms: u64, files: usize) -> (verdict: Verdict)
        ensures
            verdict == self.verdict(depth as nat, entry_index as nat, elapsed_ms as nat, files as nat),
    {
        let files_gone = match self.max_files {
            Some(ceiling) => files >= ceiling,
            None => false,
        };
        let time_gone = match self.max_elapsed_ms {
            Some(budget) => elapsed_ms > budget,
            None => false,
        };
        let deep = match self.max_depth {
            Some(bound) => depth >= bound,
            None => false,
        };
        if files_gone || time_gone {
            Verdict::Abandon
        } else if entry_index >= self.max_entries_per_dir || deep {
            Verdict::StopDirectory
        } else {
            Verdict::Continue
        }
    }
}

/// A decision other than `Continue` is final for the directory: at any later
/// entry, with at least as much time gone and at least as many files counted,
/// the decision is again not `Continue`; and an abandoned scan stays
/// abandoned wherever the traversal stands.
pub proof fn lemma_verdict_is_final(
    limits: ScanLimits,
    depth: nat,
    entry_index: nat,
    elapsed_ms: nat,
    files: nat,
    later_depth: nat,
    later_index: nat,
    later_elapsed_ms: nat,
    later_files: nat,
)
    requires
        entry_index <= later_index,
        elapsed_ms <= later_elapsed_ms,
        files <= later_files,
    ensures
        limits.verdict(depth, entry_index, elapsed_ms, files) != Verdict::Continue
            ==> limits.verdict(depth, later_index, later_elapsed_ms, later_files) != Verdict::Continue,
        limits.verdict(depth, entry_index, elapsed_ms, files) == Verdict::Abandon
            ==> limits.verdict(later_depth, later_index, later_elapsed_ms, later_files) == Verdict::Abandon,
{
}

} // verus!
