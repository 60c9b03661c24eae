//! The result tree: one node per filesystem entry, directories holding
//! their largest children first.

use vstd::prelude::*;
use crate::order::{lemma_nodes_of, lemma_retained_weighs_no_more, lemma_total_size_of_prefix};

verus! {

/// One filesystem entry in a result tree.
#[derive(Debug)]
pub struct FileInfo {
    /// The final component of the path.
    pub name: String,
    /// The full path of the entry.
    pub path: String,
    /// Bytes: the length of a file, or the sum over a directory's retained
    /// children.
    pub size: u64,
    /// Whether the entry is a directory.
    pub is_dir: bool,
    /// The retained children of a directory, largest first; empty for a
    /// file.
    pub children: Vec<FileInfo>,
}

/// The mathematical value of a [`FileInfo`]: the same tree with sequences in
/// place of strings and vectors.
pub ghost struct Node {
    pub name: Seq<char>,
    pub path: Seq<char>,
    pub size: nat,
    pub is_dir: bool,
    pub children: Seq<Node>,
}

/// The value of one node.
pub open spec fn node_of(info: FileInfo) -> Node
    decreases info, 0nat,
{
    Node {
        name: info.name@,
        path: info.path@,
        size: info.size as nat,
        is_dir: info.is_dir,
        children: nodes_of(info.children@),
    }
}

/// The values of `infos`, in order.
pub open spec fn nodes_of(infos: Seq<FileInfo>) -> Seq<Node>
    decreases infos, 1nat,
{
    if infos.len() == 0 {
        Seq::empty()
    } else {
        nodes_of(infos.drop_last()).push(node_of(infos.last()))
    }
}

impl View for FileInfo {
    type V = Node;

    open spec fn view(&self) -> Node {
        node_of(*self)
    }
}

/// The sizes of `nodes` added up.
pub open spec fn total_size(nodes: Seq<Node>) -> nat
    decreases nodes.len(),
{
    if nodes.len() == 0 {
        0
    } else {
        total_size(nodes.drop_last()) + nodes.last().size
    }
}

/// Whether no node is larger than one that stands before it.
pub open spec fn largest_first(nodes: Seq<Node>) -> bool {
    forall|i: int, j: int| 0 <= i < j < nodes.len() ==> nodes[i].size >= nodes[j].size
}

/// Where a node of `size` enters `nodes`: behind every leading node that is
/// strictly larger, and so before every node of its own size.
pub open spec fn slot_for(nodes: Seq<Node>, size: nat) -> nat
    decreases nodes.len(),
{
    if nodes.len() == 0 || nodes[0].size <= size {
        0
    } else {
        1 + slot_for(nodes.drop_first(), size)
    }
}

/// `nodes` ordered by size, largest first; nodes of equal size keep the order
/// in which they stand in `nodes`.
pub open spec fn sort_largest_first(nodes: Seq<Node>) -> Seq<Node>
    decreases nodes.len(),
{
    if nodes.len() == 0 {
        Seq::empty()
    } else {
        let rest = sort_largest_first(nodes.drop_first());
        rest.insert(slot_for(rest, nodes[0].size) as int, nodes[0])
    }
}

/// The at most `max_children` largest of `nodes`, largest first.
pub open spec fn retained(nodes: Seq<Node>, max_children: nat) -> Seq<Node> {
    let sorted = sort_largest_first(nodes);
    if max_children < sorted.len() {
        sorted.take(max_children as int)
    } else {
        sorted
    }
}

/// The node of a file of `size` bytes.
pub open spec fn file_node(name: Seq<char>, path: Seq<char>, size: nat) -> Node {
    Node { name, path, size, is_dir: false, children: Seq::empty() }
}

/// The node of a directory whose listing could not be read: no children
/// and no bytes.
pub open spec fn unlisted_directory_node(name: Seq<char>, path: Seq<char>) -> Node {
    Node { name, path, size: 0, is_dir: true, children: Seq::empty() }
}

/// The node of a directory over the nodes built for its entries: it keeps
/// the `max_children` largest, and its size is the sum over those it keeps.
pub open spec fn directory_node(
    name: Seq<char>,
    path: Seq<char>,
    children: Seq<Node>,
    max_children: nat,
) -> Node {
    let kept = retained(children, max_children);
    Node { name, path, size: total_size(kept), is_dir: true, children: kept }
}

/// Finds where a node of `size` enters `sorted`.
fn find_slot(sorted: &Vec<FileInfo>, size: u64) -> (slot: usize)
    ensures
        slot == slot_for(nodes_of(sorted@), size as nat),
        slot <= sorted.len(),
{
    let ghost nodes = nodes_of(sorted@);
    proof {
        lemma_nodes_of(sorted@);
        assert(nodes.skip(0) =~= nodes);
    }
    let mut slot: usize = 0;
    while slot < sorted.len() && sorted[slot].size > size
        invariant
            slot <= sorted.len(),
            nodes == nodes_of(sorted@),
            nodes.len() == sorted.len(),
            forall|k: int| 0 <= k < nodes.len() ==> nodes[k] == node_of(#[trigger] sorted@[k]),
            slot_for(nodes, size as nat) == slot + slot_for(nodes.skip(slot as int), size as nat),
        decreases sorted.len() - slot,
    {
        proof {
            assert(nodes.skip(slot as int)[0] == nodes[slot as int]);
            assert(nodes.skip(slot as int).drop_first() =~= nodes.skip(slot + 1));
        }
        slot += 1;
    }
    proof {
        if slot < sorted.len() {
            assert(nodes.skip(slot as int)[0] == nodes[slot as int]);
        }
    }
    slot
}

/// Orders `children` by size, largest first, keeping children of equal size
/// in the order in which they came.
pub fn sort_by_size(children: Vec<FileInfo>) -> (sorted: Vec<FileInfo>)
    ensures
        nodes_of(sorted@) == sort_largest_first(nodes_of(children@)),
{
    let ghost given = children@;
    let ghost nodes = nodes_of(children@);
    let mut pending = children;
    let mut sorted: Vec<FileInfo> = Vec::new();
    proof {
        lemma_nodes_of(given);
        assert(nodes.skip(nodes.len() as int) =~= Seq::empty());
        assert(given.take(given.len() as int) =~= given);
    }
    loop
        invariant
            given == children@,
            nodes == nodes_of(given),
            nodes.len() == given.len(),
            forall|k: int| 0 <= k < nodes.len() ==> nodes[k] == node_of(#[trigger] given[k]),
            pending.len() <= given.len(),
            pending@ == given.take(pending.len() as int),
            nodes_of(sorted@) == sort_largest_first(nodes.skip(pending.len() as int)),
        decreases pending.len(),
    {
        let ghost before = pending.len() as int;
        let ghost sorted_before = sorted@;
        match pending.pop() {
            None => {
                proof {
                    assert(nodes.skip(0) =~= nodes);
                }
                return sorted;
            },
            Some(child) => {
                let slot = find_slot(&sorted, child.size);
                sorted.insert(slot, child);
                proof {
                    let tail = nodes.skip(before);
                    let longer = nodes.skip(before - 1);
                    assert(child == given[before - 1]);
                    assert(longer[0] == node_of(child));
                    assert(longer.drop_first() =~= tail);
                    assert(pending@ =~= given.take(before - 1));
                    lemma_nodes_of(sorted_before);
                    lemma_nodes_of(sorted@);
                    assert(sorted@ == sorted_before.insert(slot as int, child));
                    assert(nodes_of(sorted@) =~= nodes_of(sorted_before).insert(slot as int, node_of(child)));
                }
            },
        }
    }
}

/// Adds up the sizes of `children`.
fn sum_sizes(children: &Vec<FileInfo>) -> (sum: u64)
    requires
        total_size(nodes_of(children@)) <= u64::MAX,
    ensures
        sum == total_size(nodes_of(children@)),
{
    let ghost nodes = nodes_of(children@);
    let mut sum: u64 = 0;
    let mut next: usize = 0;
    proof {
        lemma_nodes_of(children@);
        assert(nodes.take(0) =~= Seq::empty());
    }
    while next < children.len()
        invariant
            next <= children.len(),
            nodes == nodes_of(children@),
            nodes.len() == children.len(),
            forall|k: int| 0 <= k < nodes.len() ==> nodes[k] == node_of(#[trigger] children@[k]),
            total_size(nodes) <= u64::MAX,
            sum == total_size(nodes.take(next as int)),
        decreases children.len() - next,
    {
        proof {
            assert(nodes.take(next + 1).drop_last() =~= nodes.take(next as int));
            assert(nodes.take(next + 1).last() == nodes[next as int]);
            lemma_total_size_of_prefix(nodes, next + 1);
        }
        sum = sum + children[next].size;
        next += 1;
    }
    proof {
        assert(nodes.take(next as int) =~= nodes);
    }
    sum
}

/// Tells whether the sizes of `children` add up within the machine's
/// range. Where they do, a directory over them can be built under any cap,
/// since what it retains weighs no more than all of them.
pub fn sizes_fit(children: &Vec<FileInfo>) -> (fits: bool)
    ensures
        fits == (total_size(nodes_of(children@)) <= u64::MAX),
        fits ==> forall|max_children: nat| #[trigger]
            total_size(retained(nodes_of(children@), max_children)) <= u64::MAX,
{
    let ghost nodes = nodes_of(children@);
    let mut sum: u64 = 0;
    let mut next: usize = 0;
    proof {
        lemma_nodes_of(children@);
        assert(nodes.take(0) =~= Seq::empty());
    }
    while next < children.len()
        invariant
            next <= children.len(),
            nodes == nodes_of(children@),
            nodes.len() == children.len(),
            forall|k: int| 0 <= k < nodes.len() ==> nodes[k] == node_of(#[trigger] children@[k]),
            sum == total_size(nodes.take(next as int)),
        decreases children.len() - next,
    {
        proof {
            assert(nodes.take(next + 1).drop_last() =~= nodes.take(next as int));
            assert(nodes.take(next + 1).last() == nodes[next as int]);
            lemma_total_size_of_prefix(nodes, next + 1);
        }
        if children[next].size > u64::MAX - sum {
            return false;
        }
        sum = sum + children[next].size;
        next += 1;
    }
    proof {
        assert(nodes.take(next as int) =~= nodes);
        assert forall|max_children: nat| #[trigger]
            total_size(retained(nodes, max_children)) <= u64::MAX by {
            lemma_retained_weighs_no_more(nodes, max_children);
        }
    }
    true
}

/// The name under which the entry at `path` stands in the tree.
pub open spec fn name_of(path: Seq<char>, last_component: Option<Seq<char>>) -> Seq<char> {
    match last_component {
        Some(found) => found,
        None => path,
    }
}

/// Names the entry at `path`: by the last component of the path, and by
/// the whole path where it has none, as a root has.
pub fn entry_name(path: &str, last_component: Option<String>) -> (name: String)
    ensures
        name@ == name_of(
            path@,
            match last_component {
                Some(found) => Some(found@),
                None => None,
            },
        ),
{
    match last_component {
        Some(found) => found,
        None => path.to_owned(),
    }
}

impl FileInfo {
    /// The node of a file of `size` bytes.
    pub fn file(name: String, path: String, size: u64) -> (info: FileInfo)
        ensures
            info@ == file_node(name@, path@, size as nat),
    {
        let info = FileInfo { name, path, size, is_dir: false, children: Vec::new() };
        proof {
            assert(nodes_of(info.children@) =~= Seq::empty());
        }
        info
    }

    /// The node of a directory whose listing could not be read.
    pub fn unlisted_directory(name: String, path: String) -> (info: FileInfo)
        ensures
            info@ == unlisted_directory_node(name@, path@),
    {
        let info = FileInfo { name, path, size: 0, is_dir: true, children: Vec::new() };
        proof {
            assert(nodes_of(info.children@) =~= Seq::empty());
        }
        info
    }

    /// The node of a directory over the nodes built for its entries. It
    /// keeps the `max_children` largest of them, largest first, and reports
    /// as its size the sum over those it keeps.
    pub fn directory(name: String, path: String, children: Vec<FileInfo>, max_children: usize) -> (info: FileInfo)
        requires
            total_size(retained(nodes_of(children@), max_children as nat)) <= u64::MAX,
        ensures
            info@ == directory_node(name@, path@, nodes_of(children@), max_children as nat),
    {
        let mut kept = sort_by_size(children);
        let ghost sorted = kept@;
        kept.truncate(max_children);
        proof {
            lemma_nodes_of(sorted);
            lemma_nodes_of(kept@);
            if max_children < sorted.len() {
                assert(kept@ == sorted.subrange(0, max_children as int));
                assert(nodes_of(kept@) =~= nodes_of(sorted).take(max_children as int));
            } else {
                assert(kept@ == sorted);
            }
        }
        let size = sum_sizes(&kept);
        FileInfo { name, path, size, is_dir: true, children: kept }
    }
}

impl Node {
    /// Whether `other` stands in the tree under this node, the node itself
    /// included.
    pub open spec fn holds(self, other: Node) -> bool
        decreases self,
    {
        other == self || exists|i: int|
            0 <= i < self.children.len() && (#[trigger] self.children[i]).holds(other)
    }

    /// Whether the tree under this node is shaped as a scan leaves it: a file
    /// has no children; a directory holds at most `max_children` children,
    /// largest first, its size is the sum of theirs, and each of them is
    /// shaped so in turn.
    pub open spec fn well_formed(self, max_children: nat) -> bool
        decreases self,
    {
        if self.is_dir {
            &&& self.children.len() <= max_children
            &&& largest_first(self.children)
            &&& self.size == total_size(self.children)
            &&& forall|i: int| 0 <= i < self.children.len() ==> (#[trigger] self.children[i]).well_formed(max_children)
        } else {
            self.children.len() == 0
        }
    }
}

} // verus!
