//! What holds of every scan of a snapshot.

use vstd::prelude::*;
use crate::coordinator::{ScanResult, Tally};
use crate::limits::{ScanLimits, Verdict};
use crate::node::{directory_node, largest_first, retained, sort_largest_first, Node};
use crate::order::{
    dominated, lemma_retained_is_monotone, lemma_retained_weighs_no_more,
    lemma_sort_keeps_length, lemma_sort_orders, lemma_sort_permutes,
};
use crate::snapshot::{
    contents_among, contents_of, has_distinct_paths, has_path, is_outcome_of,
    lemma_listing_stops, lemma_visit_grows, scan_report, scan_tally, visit, visit_entries,
    within_shape, Entry, ScanError,
};

verus! {

/// Every retained child is one of the nodes that were offered.
pub proof fn lemma_retained_are_offered(nodes: Seq<Node>, max_children: nat)
    ensures
        forall|i: int|
            0 <= i < retained(nodes, max_children).len() ==> nodes.contains(
                #[trigger] retained(nodes, max_children)[i],
            ),
{
    let sorted = sort_largest_first(nodes);
    let kept = retained(nodes, max_children);
    lemma_sort_permutes(nodes);
    lemma_sort_keeps_length(nodes);
    assert forall|i: int| 0 <= i < kept.len() implies nodes.contains(#[trigger] kept[i]) by {
        assert(kept[i] == sorted[i]);
        assert(sorted.contains(sorted[i]));
        vstd::seq_lib::to_multiset_contains(sorted, sorted[i]);
        vstd::seq_lib::to_multiset_contains(nodes, sorted[i]);
    }
}

/// A directory node over well-formed children is well-formed.
pub proof fn lemma_directory_node_is_well_formed(
    name: Seq<char>,
    path: Seq<char>,
    children: Seq<Node>,
    max_children: nat,
)
    requires
        forall|i: int| 0 <= i < children.len() ==> (#[trigger] children[i]).well_formed(max_children),
    ensures
        directory_node(name, path, children, max_children).well_formed(max_children),
{
    let kept = retained(children, max_children);
    lemma_retained_are_offered(children, max_children);
    lemma_retained_weighs_no_more(children, max_children);
    lemma_sort_orders(children);
    assert(largest_first(kept));
    assert forall|i: int| 0 <= i < kept.len() implies (#[trigger] kept[i]).well_formed(max_children) by {
        assert(children.contains(kept[i]));
        let k = choose|k: int| 0 <= k < children.len() && children[k] == kept[i];
        assert(children[k].well_formed(max_children));
    }
}

/// The node that a visit yields is well-formed for the cap in force.
pub proof fn lemma_visit_is_well_formed(entry: Entry, limits: ScanLimits, depth: nat, tally: Tally)
    ensures
        visit(entry, limits, depth, tally).node is Some ==> visit(
            entry,
            limits,
            depth,
            tally,
        ).node->0.well_formed(limits.max_children as nat),
    decreases entry, 0nat,
{
    match entry {
        Entry::Directory { name, path, listing: Some(entries) } => {
            let inner = visit_entries(entries@, limits, depth, entries@.len(), tally);
            lemma_listing_is_well_formed(entries@, limits, depth, entries@.len(), tally);
            lemma_directory_node_is_well_formed(name@, path@, inner.nodes, limits.max_children as nat);
        },
        _ => {},
    }
}

/// The nodes that a listing yields are well-formed for the cap in force.
pub proof fn lemma_listing_is_well_formed(
    entries: Seq<Entry>,
    limits: ScanLimits,
    depth: nat,
    count: nat,
    tally: Tally,
)
    ensures
        forall|i: int|
            0 <= i < visit_entries(entries, limits, depth, count, tally).nodes.len() ==> (
            #[trigger] visit_entries(entries, limits, depth, count, tally).nodes[i]).well_formed(
                limits.max_children as nat,
            ),
    decreases entries, count,
{
    if count == 0 || count > entries.len() {
    } else {
        let before = visit_entries(entries, limits, depth, (count - 1) as nat, tally);
        lemma_listing_is_well_formed(entries, limits, depth, (count - 1) as nat, tally);
        if limits.verdict(depth, (count - 1) as nat, 0, before.tally.files) == Verdict::Continue {
            lemma_visit_is_well_formed(entries[count - 1], limits, depth + 1, before.tally);
        }
    }
}

/// In the tree that a scan returns, every directory's size is the sum of
/// the sizes of the children it retains, its children stand largest first
/// and are no more than the cap allows, and a file has no children.
pub proof fn law_result_is_well_formed(root: Entry, limits: ScanLimits)
    ensures
        scan_report(root, limits) is Ok ==> scan_report(root, limits)->Ok_0.root.well_formed(
            limits.max_children as nat,
        ),
{
    lemma_visit_is_well_formed(root, limits, 0, Tally::zero());
}

/// Where the tree under an entry is within shape and the file ceiling is
/// out of reach, a visit counts exactly what the tree holds.
pub proof fn lemma_visit_counts_contents(entry: Entry, limits: ScanLimits, depth: nat, tally: Tally)
    requires
        within_shape(entry, limits, depth),
        limits.max_files is Some ==> tally.files + contents_of(entry).files < limits.max_files->0,
    ensures
        visit(entry, limits, depth, tally).tally == tally.plus(contents_of(entry)),
    decreases entry, 0nat,
{
    match entry {
        Entry::Directory { name, path, listing: Some(entries) } => {
            lemma_listing_counts_contents(entries@, limits, depth, entries@.len(), tally);
        },
        _ => {},
    }
}

/// The same of the first `count` entries of a listing.
pub proof fn lemma_listing_counts_contents(
    entries: Seq<Entry>,
    limits: ScanLimits,
    depth: nat,
    count: nat,
    tally: Tally,
)
    requires
        count <= entries.len() <= limits.max_entries_per_dir,
        entries.len() > 0 ==> !limits.too_deep(depth),
        forall|i: int| 0 <= i < entries.len() ==> within_shape(#[trigger] entries[i], limits, depth + 1),
        limits.max_files is Some ==> tally.files + contents_among(entries, count).files
            < limits.max_files->0,
    ensures
        visit_entries(entries, limits, depth, count, tally).tally == tally.plus(
            contents_among(entries, count),
        ),
    decreases entries, count,
{
    if count > 0 {
        let before = visit_entries(entries, limits, depth, (count - 1) as nat, tally);
        lemma_listing_counts_contents(entries, limits, depth, (count - 1) as nat, tally);
        assert(limits.verdict(depth, (count - 1) as nat, 0, before.tally.files) == Verdict::Continue);
        lemma_visit_counts_contents(entries[count - 1], limits, depth + 1, before.tally);
    }
}

/// Where no listing of the tree is longer than a scan reads, no directory
/// with entries lies too deep, and the tree holds fewer files than the file
/// ceiling, the scan counts exactly: every file, every byte of every file,
/// and every entry or listing that cannot be read.
pub proof fn law_counts_are_exact(root: Entry, limits: ScanLimits)
    requires
        within_shape(root, limits, 0),
        limits.max_files is Some ==> contents_of(root).files < limits.max_files->0,
    ensures
        scan_tally(root, limits) == contents_of(root),
        scan_report(root, limits) is Ok ==> {
            let report = scan_report(root, limits)->Ok_0;
            &&& report.file_count == contents_of(root).files
            &&& report.total_size == contents_of(root).bytes
            &&& report.error_count == contents_of(root).errors
        },
{
    lemma_visit_counts_contents(root, limits, 0, Tally::zero());
}

/// A visit depends on the counts before it only through the number of
/// files: from two tallies with equally many files it yields the same node
/// and adds the same to each count.
pub proof fn lemma_visit_reads_files_only(
    entry: Entry,
    limits: ScanLimits,
    depth: nat,
    tally: Tally,
    other: Tally,
)
    requires
        tally.files == other.files,
    ensures
        ({
            let here = visit(entry, limits, depth, tally);
            let there = visit(entry, limits, depth, other);
            &&& here.node == there.node
            &&& here.tally.files == there.tally.files
            &&& here.tally.bytes - tally.bytes == there.tally.bytes - other.bytes
            &&& here.tally.errors - tally.errors == there.tally.errors - other.errors
        }),
    decreases entry, 0nat,
{
    match entry {
        Entry::Directory { name, path, listing: Some(entries) } => {
            lemma_listing_reads_files_only(entries@, limits, depth, entries@.len(), tally, other);
        },
        _ => {},
    }
}

/// The same of the first `count` entries of a listing.
pub proof fn lemma_listing_reads_files_only(
    entries: Seq<Entry>,
    limits: ScanLimits,
    depth: nat,
    count: nat,
    tally: Tally,
    other: Tally,
)
    requires
        tally.files == other.files,
    ensures
        ({
            let here = visit_entries(entries, limits, depth, count, tally);
            let there = visit_entries(entries, limits, depth, count, other);
            &&& here.nodes == there.nodes
            &&& here.tally.files == there.tally.files
            &&& here.tally.bytes - tally.bytes == there.tally.bytes - other.bytes
            &&& here.tally.errors - tally.errors == there.tally.errors - other.errors
        }),
    decreases entries, count,
{
    if count == 0 || count > entries.len() {
    } else {
        let here = visit_entries(entries, limits, depth, (count - 1) as nat, tally);
        let there = visit_entries(entries, limits, depth, (count - 1) as nat, other);
        lemma_listing_reads_files_only(entries, limits, depth, (count - 1) as nat, tally, other);
        lemma_visit_reads_files_only(entries[count - 1], limits, depth + 1, here.tally, there.tally);
    }
}

/// What the first `count` entries of a listing yield does not depend on
/// the entries behind them.
pub proof fn lemma_listing_reads_prefix(
    entries: Seq<Entry>,
    others: Seq<Entry>,
    limits: ScanLimits,
    depth: nat,
    count: nat,
    tally: Tally,
)
    requires
        count <= entries.len(),
        count <= others.len(),
        forall|i: int| 0 <= i < count ==> entries[i] == others[i],
    ensures
        visit_entries(entries, limits, depth, count, tally) == visit_entries(
            others,
            limits,
            depth,
            count,
            tally,
        ),
    decreases count,
{
    if count > 0 {
        lemma_listing_reads_prefix(entries, others, limits, depth, (count - 1) as nat, tally);
    }
}

/// Whether the entry at `at` of a listing is reached: the limits say
/// `Continue` when the traversal stands before it.
pub open spec fn is_reached(
    entries: Seq<Entry>,
    limits: ScanLimits,
    depth: nat,
    at: nat,
    tally: Tally,
) -> bool {
    limits.verdict(depth, at, 0, visit_entries(entries, limits, depth, at, tally).tally.files)
        == Verdict::Continue
}

/// A directory whose listing cannot be read costs one error and nothing
/// else. Put an empty, readable directory of the same name in its place:
/// the scan of the listing then yields the same nodes, its siblings' among
/// them, and counts the same files and bytes; it counts one error less if
/// the directory was reached, and the same errors if it was not.
pub proof fn law_unreadable_directory_is_isolated(
    entries: Seq<Entry>,
    mended: Seq<Entry>,
    at: nat,
    limits: ScanLimits,
    depth: nat,
    count: nat,
    tally: Tally,
)
    requires
        at < entries.len(),
        count <= entries.len(),
        mended.len() == entries.len(),
        forall|i: int| 0 <= i < entries.len() && i != at ==> mended[i] == entries[i],
        entries[at as int] matches Entry::Directory { name, path, listing: None }
            && mended[at as int] matches Entry::Directory {
            name: mended_name,
            path: mended_path,
            listing: Some(nothing),
        } && mended_name@ == name@ && mended_path@ == path@ && nothing@.len() == 0,
    ensures
        ({
            let broken = visit_entries(entries, limits, depth, count, tally);
            let whole = visit_entries(mended, limits, depth, count, tally);
            &&& broken.nodes == whole.nodes
            &&& broken.tally.files == whole.tally.files
            &&& broken.tally.bytes == whole.tally.bytes
            &&& broken.tally.errors == whole.tally.errors + if at < count && is_reached(
                entries,
                limits,
                depth,
                at,
                tally,
            ) {
                1nat
            } else {
                0nat
            }
        }),
    decreases count,
{
    if count <= at {
        lemma_listing_reads_prefix(entries, mended, limits, depth, count, tally);
    } else if count == at + 1 {
        lemma_listing_reads_prefix(entries, mended, limits, depth, at, tally);
        let before = visit_entries(entries, limits, depth, at, tally);
        if is_reached(entries, limits, depth, at, tally) {
            let broken = visit(entries[at as int], limits, depth + 1, before.tally);
            let whole = visit(mended[at as int], limits, depth + 1, before.tally);
            assert(retained(Seq::<Node>::empty(), limits.max_children as nat) =~= Seq::<Node>::empty());
            assert(broken.node == whole.node);
        }
    } else {
        law_unreadable_directory_is_isolated(
            entries,
            mended,
            at,
            limits,
            depth,
            (count - 1) as nat,
            tally,
        );
        let broken = visit_entries(entries, limits, depth, (count - 1) as nat, tally);
        let whole = visit_entries(mended, limits, depth, (count - 1) as nat, tally);
        lemma_visit_reads_files_only(entries[count - 1], limits, depth + 1, broken.tally, whole.tally);
    }
}

/// A visit does not carry the file count past the ceiling: from below the
/// ceiling it stays at or below it, and from the ceiling on it adds one file
/// at most, the entry itself.
pub proof fn lemma_visit_respects_ceiling(entry: Entry, limits: ScanLimits, depth: nat, tally: Tally)
    requires
        limits.max_files is Some,
    ensures
        visit(entry, limits, depth, tally).tally.files <= if tally.files < limits.max_files->0 {
            limits.max_files->0 as nat
        } else {
            tally.files + 1
        },
    decreases entry, 0nat,
{
    match entry {
        Entry::Directory { name, path, listing: Some(entries) } => {
            lemma_listing_respects_ceiling(entries@, limits, depth, entries@.len(), tally);
        },
        _ => {},
    }
}

/// A listing does not carry the file count past the ceiling.
pub proof fn lemma_listing_respects_ceiling(
    entries: Seq<Entry>,
    limits: ScanLimits,
    depth: nat,
    count: nat,
    tally: Tally,
)
    requires
        limits.max_files is Some,
    ensures
        visit_entries(entries, limits, depth, count, tally).tally.files <= if tally.files
            < limits.max_files->0 {
            limits.max_files->0 as nat
        } else {
            tally.files
        },
    decreases entries, count,
{
    if count == 0 || count > entries.len() {
    } else {
        let before = visit_entries(entries, limits, depth, (count - 1) as nat, tally);
        lemma_listing_respects_ceiling(entries, limits, depth, (count - 1) as nat, tally);
        if limits.verdict(depth, (count - 1) as nat, 0, before.tally.files) == Verdict::Continue {
            lemma_visit_respects_ceiling(entries[count - 1], limits, depth + 1, before.tally);
        }
    }
}

/// A scan under a file ceiling counts no more files than the ceiling, the
/// root itself excepted, which is always visited.
pub proof fn law_file_ceiling_holds(root: Entry, limits: ScanLimits)
    requires
        limits.max_files is Some,
    ensures
        scan_tally(root, limits).files <= if limits.max_files->0 == 0 {
            1nat
        } else {
            limits.max_files->0 as nat
        },
{
    lemma_visit_respects_ceiling(root, limits, 0, Tally::zero());
}

/// Of a listing, a scan visits the leading entries only, as many as the
/// limits name: what lies behind them changes nothing.
pub proof fn law_listing_is_cut(
    entries: Seq<Entry>,
    limits: ScanLimits,
    depth: nat,
    count: nat,
    tally: Tally,
)
    requires
        limits.max_entries_per_dir <= count <= entries.len(),
    ensures
        visit_entries(entries, limits, depth, count, tally) == visit_entries(
            entries,
            limits,
            depth,
            limits.max_entries_per_dir as nat,
            tally,
        ),
{
    lemma_listing_stops(entries, limits, depth, limits.max_entries_per_dir as nat, count, tally);
}

/// Whether `lower` and `higher` are the same limits but for the cap on
/// retained children, which is no larger in `lower`.
pub open spec fn differ_in_cap_only(lower: ScanLimits, higher: ScanLimits) -> bool {
    &&& lower.max_children <= higher.max_children
    &&& lower.max_entries_per_dir == higher.max_entries_per_dir
    &&& lower.max_files == higher.max_files
    &&& lower.max_elapsed_ms == higher.max_elapsed_ms
    &&& lower.max_depth == higher.max_depth
}

/// Under a smaller cap a listing yields as many nodes, none of them larger,
/// and the same counts.
pub proof fn lemma_listing_shrinks_with_cap(
    entries: Seq<Entry>,
    lower: ScanLimits,
    higher: ScanLimits,
    depth: nat,
    count: nat,
    tally: Tally,
)
    requires
        differ_in_cap_only(lower, higher),
    ensures
        visit_entries(entries, lower, depth, count, tally).tally == visit_entries(
            entries,
            higher,
            depth,
            count,
            tally,
        ).tally,
        dominated(
            visit_entries(entries, lower, depth, count, tally).nodes,
            visit_entries(entries, higher, depth, count, tally).nodes,
        ),
    decreases entries, count,
{
    if count == 0 || count > entries.len() {
    } else {
        let before = visit_entries(entries, lower, depth, (count - 1) as nat, tally);
        lemma_listing_shrinks_with_cap(entries, lower, higher, depth, (count - 1) as nat, tally);
        if lower.verdict(depth, (count - 1) as nat, 0, before.tally.files) == Verdict::Continue {
            law_smaller_cap_reports_no_more(entries[count - 1], lower, higher, depth + 1, before.tally);
        }
    }
}

/// Lowering the cap on retained children raises no reported size. Visit an
/// entry under two limits that differ in that cap only: both visits count
/// the same, both yield a node or neither does, and the node under the
/// smaller cap reports no more bytes than the node under the larger. As the
/// counts agree, every directory of a tree is reached from the same counts
/// under both caps, so this holds of each of them.
pub proof fn law_smaller_cap_reports_no_more(
    entry: Entry,
    lower: ScanLimits,
    higher: ScanLimits,
    depth: nat,
    tally: Tally,
)
    requires
        differ_in_cap_only(lower, higher),
    ensures
        visit(entry, lower, depth, tally).tally == visit(entry, higher, depth, tally).tally,
        visit(entry, lower, depth, tally).node is Some <==> visit(entry, higher, depth, tally).node
            is Some,
        visit(entry, lower, depth, tally).node is Some ==> visit(
            entry,
            lower,
            depth,
            tally,
        ).node->0.size <= visit(entry, higher, depth, tally).node->0.size,
    decreases entry, 0nat,
{
    match entry {
        Entry::Directory { name, path, listing: Some(entries) } => {
            let small = visit_entries(entries@, lower, depth, entries@.len(), tally);
            let large = visit_entries(entries@, higher, depth, entries@.len(), tally);
            lemma_listing_shrinks_with_cap(entries@, lower, higher, depth, entries@.len(), tally);
            lemma_retained_is_monotone(
                small.nodes,
                large.nodes,
                lower.max_children as nat,
                higher.max_children as nat,
            );
        },
        _ => {},
    }
}

/// Every node that a listing yields is the node of one of its entries,
/// visited from the counts that stood before that entry. The entry's place
/// is returned.
pub proof fn lemma_node_origin(
    entries: Seq<Entry>,
    limits: ScanLimits,
    depth: nat,
    count: nat,
    tally: Tally,
    place: int,
) -> (at: nat)
    requires
        0 <= place < visit_entries(entries, limits, depth, count, tally).nodes.len(),
    ensures
        at < count,
        at < entries.len(),
        visit(
            entries[at as int],
            limits,
            depth + 1,
            visit_entries(entries, limits, depth, at, tally).tally,
        ).node == Some(visit_entries(entries, limits, depth, count, tally).nodes[place]),
    decreases count,
{
    let before = visit_entries(entries, limits, depth, (count - 1) as nat, tally);
    if limits.verdict(depth, (count - 1) as nat, 0, before.tally.files) == Verdict::Continue
        && visit(entries[count - 1], limits, depth + 1, before.tally).node is Some && place
        == before.nodes.len() {
        (count - 1) as nat
    } else {
        lemma_node_origin(entries, limits, depth, (count - 1) as nat, tally, place)
    }
}

/// A node that stands below a directory's node stands in the node of one of
/// the directory's entries, visited from the counts that stood before that
/// entry. The entry's place is returned.
pub proof fn lemma_child_origin(
    entries: Seq<Entry>,
    limits: ScanLimits,
    depth: nat,
    tally: Tally,
    name: Seq<char>,
    path: Seq<char>,
    node: Node,
) -> (at: nat)
    requires
        ({
            let listed = visit_entries(entries, limits, depth, entries.len(), tally);
            let root = directory_node(name, path, listed.nodes, limits.max_children as nat);
            root.holds(node) && node != root
        }),
    ensures
        at < entries.len(),
        ({
            let child = visit(
                entries[at as int],
                limits,
                depth + 1,
                visit_entries(entries, limits, depth, at, tally).tally,
            ).node;
            child is Some && child->0.holds(node)
        }),
{
    let listed = visit_entries(entries, limits, depth, entries.len(), tally);
    let root = directory_node(name, path, listed.nodes, limits.max_children as nat);
    let kept = choose|i: int| 0 <= i < root.children.len() && (#[trigger] root.children[i]).holds(node);
    lemma_retained_are_offered(listed.nodes, limits.max_children as nat);
    assert(listed.nodes.contains(root.children[kept]));
    let place = choose|k: int| 0 <= k < listed.nodes.len() && listed.nodes[k] == root.children[kept];
    lemma_node_origin(entries, limits, depth, entries.len(), tally, place)
}

/// Every node in the tree that a visit yields carries the path of a file or
/// a directory of the tree that was visited.
pub proof fn lemma_node_has_path(
    entry: Entry,
    limits: ScanLimits,
    depth: nat,
    tally: Tally,
    node: Node,
)
    requires
        visit(entry, limits, depth, tally).node is Some,
        visit(entry, limits, depth, tally).node->0.holds(node),
    ensures
        has_path(entry, node.path),
    decreases entry,
{
    let root = visit(entry, limits, depth, tally).node->0;
    if node != root {
        match entry {
            Entry::Directory { name, path, listing: Some(entries) } => {
                let at = lemma_child_origin(entries@, limits, depth, tally, name@, path@, node);
                let before = visit_entries(entries@, limits, depth, at, tally).tally;
                lemma_node_has_path(entries@[at as int], limits, depth + 1, before, node);
            },
            _ => {},
        }
    }
}

/// Lowering the cap on retained children raises the size of no node. Of
/// two nodes with one path, one in the tree that a visit yields under the
/// smaller cap and one in the tree under the larger, the first reports no
/// more bytes than the second, at whatever level they stand.
pub proof fn lemma_same_path_shrinks(
    entry: Entry,
    lower: ScanLimits,
    higher: ScanLimits,
    depth: nat,
    tally: Tally,
    small: Node,
    large: Node,
)
    requires
        differ_in_cap_only(lower, higher),
        has_distinct_paths(entry),
        visit(entry, lower, depth, tally).node is Some,
        visit(entry, lower, depth, tally).node->0.holds(small),
        visit(entry, higher, depth, tally).node is Some,
        visit(entry, higher, depth, tally).node->0.holds(large),
        small.path == large.path,
    ensures
        small.size <= large.size,
    decreases entry,
{
    let low_root = visit(entry, lower, depth, tally).node->0;
    let high_root = visit(entry, higher, depth, tally).node->0;
    law_smaller_cap_reports_no_more(entry, lower, higher, depth, tally);
    match entry {
        Entry::Directory { name, path, listing: Some(entries) } => {
            if small == low_root && large == high_root {
            } else if small == low_root {
                let at = lemma_child_origin(entries@, higher, depth, tally, name@, path@, large);
                let before = visit_entries(entries@, higher, depth, at, tally).tally;
                lemma_node_has_path(entries@[at as int], higher, depth + 1, before, large);
            } else if large == high_root {
                let at = lemma_child_origin(entries@, lower, depth, tally, name@, path@, small);
                let before = visit_entries(entries@, lower, depth, at, tally).tally;
                lemma_node_has_path(entries@[at as int], lower, depth + 1, before, small);
            } else {
                let low_at = lemma_child_origin(entries@, lower, depth, tally, name@, path@, small);
                let high_at = lemma_child_origin(entries@, higher, depth, tally, name@, path@, large);
                let low_before = visit_entries(entries@, lower, depth, low_at, tally).tally;
                let high_before = visit_entries(entries@, higher, depth, high_at, tally).tally;
                lemma_node_has_path(entries@[low_at as int], lower, depth + 1, low_before, small);
                lemma_node_has_path(entries@[high_at as int], higher, depth + 1, high_before, large);
                assert(low_at == high_at);
                lemma_listing_shrinks_with_cap(entries@, lower, higher, depth, low_at, tally);
                lemma_same_path_shrinks(
                    entries@[low_at as int],
                    lower,
                    higher,
                    depth + 1,
                    low_before,
                    small,
                    large,
                );
            }
        },
        _ => {},
    }
}

/// Lowering the cap on retained children raises the size of no directory.
/// Where every file and directory of the tree has a path of its own, take
/// any path that stands in both result trees, the one scanned under the
/// smaller cap and the one scanned under the larger: the node under the
/// smaller cap reports no more bytes than the node under the larger.
pub proof fn law_smaller_cap_shrinks_every_directory(
    root: Entry,
    lower: ScanLimits,
    higher: ScanLimits,
    small: Node,
    large: Node,
)
    requires
        differ_in_cap_only(lower, higher),
        has_distinct_paths(root),
        scan_report(root, lower) is Ok,
        scan_report(root, higher) is Ok,
        scan_report(root, lower)->Ok_0.root.holds(small),
        scan_report(root, higher)->Ok_0.root.holds(large),
        small.path == large.path,
    ensures
        small.size <= large.size,
{
    lemma_same_path_shrinks(root, lower, higher, 0, Tally::zero(), small, large);
}

/// Lowering the cap on retained children changes no count of a scan and
/// raises no size that it reports for the root.
pub proof fn law_smaller_cap_shrinks_report(root: Entry, lower: ScanLimits, higher: ScanLimits)
    requires
        differ_in_cap_only(lower, higher),
    ensures
        scan_report(root, lower) is Ok <==> scan_report(root, higher) is Ok,
        scan_report(root, lower) is Ok ==> {
            let small = scan_report(root, lower)->Ok_0;
            let large = scan_report(root, higher)->Ok_0;
            &&& small.root.size <= large.root.size
            &&& small.total_size == large.total_size
            &&& small.file_count == large.file_count
            &&& small.error_count == large.error_count
        },
        scan_report(root, lower) is Err ==> scan_report(root, lower) == scan_report(root, higher),
{
    law_smaller_cap_reports_no_more(root, lower, higher, 0, Tally::zero());
}

/// The tree never weighs more than was counted: the size that a scan
/// reports for the root is at most the bytes of all files visited, and falls
/// short of them only where a directory retained fewer children than it had.
pub proof fn law_tree_weighs_no_more_than_counted(root: Entry, limits: ScanLimits)
    ensures
        scan_report(root, limits) is Ok ==> scan_report(root, limits)->Ok_0.root.size
            <= scan_report(root, limits)->Ok_0.total_size,
{
    lemma_visit_grows(root, limits, 0, Tally::zero());
}

/// Scanning an unchanged tree again yields the same outcome: two runs that
/// both succeed return the same tree and the same counts, and two runs that
/// both fail return the same error; one cannot succeed where the other
/// fails.
pub proof fn law_scan_is_repeatable(
    root: Entry,
    limits: ScanLimits,
    first: Result<ScanResult, ScanError>,
    second: Result<ScanResult, ScanError>,
)
    requires
        is_outcome_of(first, root, limits),
        is_outcome_of(second, root, limits),
    ensures
        first is Ok <==> second is Ok,
        first is Ok ==> first->Ok_0@ == second->Ok_0@,
        first is Err ==> first->Err_0 == second->Err_0,
{
}

} // verus!
