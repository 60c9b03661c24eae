//! What holds of the ordering that a directory puts on its children.

use vstd::prelude::*;
use crate::node::{
    largest_first, node_of, nodes_of, retained, slot_for, sort_largest_first, total_size,
    FileInfo, Node,
};

verus! {

/// The values of a sequence of nodes are the values of its members, one for
/// one.
pub proof fn lemma_nodes_of(infos: Seq<FileInfo>)
    ensures
        nodes_of(infos).len() == infos.len(),
        forall|k: int|
            #![trigger nodes_of(infos)[k]]
            #![trigger infos[k]]
            0 <= k < infos.len() ==> nodes_of(infos)[k] == node_of(infos[k]),
    decreases infos.len(),
{
    if infos.len() > 0 {
        lemma_nodes_of(infos.drop_last());
        assert forall|k: int| 0 <= k < infos.len() implies nodes_of(infos)[k] == node_of(infos[k]) by {
            if k < infos.len() - 1 {
                assert(infos.drop_last()[k] == infos[k]);
            }
        }
    }
}

/// The first `count` nodes weigh no more than all of them.
pub proof fn lemma_total_size_of_prefix(nodes: Seq<Node>, count: int)
    requires
        0 <= count <= nodes.len(),
    ensures
        total_size(nodes.take(count)) <= total_size(nodes),
    decreases nodes.len(),
{
    if count == nodes.len() {
        assert(nodes.take(count) =~= nodes);
    } else {
        lemma_total_size_of_prefix(nodes.drop_last(), count);
        assert(nodes.drop_last().take(count) =~= nodes.take(count));
    }
}

/// A node that enters a sequence adds its size to the total, wherever it
/// enters.
pub proof fn lemma_total_size_of_insert(nodes: Seq<Node>, slot: int, node: Node)
    requires
        0 <= slot <= nodes.len(),
    ensures
        total_size(nodes.insert(slot, node)) == total_size(nodes) + node.size,
    decreases nodes.len(),
{
    let longer = nodes.insert(slot, node);
    if slot == nodes.len() {
        assert(longer.drop_last() =~= nodes);
    } else {
        lemma_total_size_of_insert(nodes.drop_last(), slot, node);
        assert(longer.drop_last() =~= nodes.drop_last().insert(slot, node));
        assert(longer.last() == nodes.last());
    }
}

/// Sorting does not change the total.
pub proof fn lemma_sort_keeps_total(nodes: Seq<Node>)
    ensures
        total_size(sort_largest_first(nodes)) == total_size(nodes),
    decreases nodes.len(),
{
    if nodes.len() > 0 {
        let head = nodes[0];
        let tail = nodes.drop_first();
        let rest = sort_largest_first(tail);
        lemma_sort_keeps_total(tail);
        lemma_slot_for(rest, head.size);
        lemma_total_size_of_insert(rest, slot_for(rest, head.size) as int, head);
        lemma_total_size_of_insert(tail, 0, head);
        assert(tail.insert(0, head) =~= nodes);
    }
}

/// The retained nodes weigh no more than all of them, and are no more than
/// the cap allows.
pub proof fn lemma_retained_weighs_no_more(nodes: Seq<Node>, max_children: nat)
    ensures
        total_size(retained(nodes, max_children)) <= total_size(nodes),
        retained(nodes, max_children).len() <= max_children,
        retained(nodes, max_children).len() <= nodes.len(),
{
    let sorted = sort_largest_first(nodes);
    lemma_sort_keeps_total(nodes);
    lemma_sort_keeps_length(nodes);
    if max_children < sorted.len() {
        lemma_total_size_of_prefix(sorted, max_children as int);
    }
}

/// The nodes of `nodes` whose size is `size`, in the order in which they
/// stand there.
pub open spec fn of_size(nodes: Seq<Node>, size: nat) -> Seq<Node> {
    nodes.filter(|node: Node| node.size == size)
}

/// The slot for a size lies within the sequence, behind strictly larger nodes
/// only, and directly before a node that is not larger.
pub proof fn lemma_slot_for(nodes: Seq<Node>, size: nat)
    ensures
        slot_for(nodes, size) <= nodes.len(),
        forall|k: int| 0 <= k < slot_for(nodes, size) ==> (#[trigger] nodes[k]).size > size,
        slot_for(nodes, size) < nodes.len() ==> nodes[slot_for(nodes, size) as int].size <= size,
    decreases nodes.len(),
{
    if nodes.len() == 0 || nodes[0].size <= size {
    } else {
        let rest = nodes.drop_first();
        lemma_slot_for(rest, size);
        assert forall|k: int| 0 <= k < slot_for(nodes, size) implies (#[trigger] nodes[k]).size > size by {
            if k > 0 {
                assert(nodes[k] == rest[k - 1]);
            }
        }
        if slot_for(nodes, size) < nodes.len() {
            assert(nodes[slot_for(nodes, size) as int] == rest[slot_for(rest, size) as int]);
        }
    }
}

/// Sorting neither adds nor drops a node.
pub proof fn lemma_sort_keeps_length(nodes: Seq<Node>)
    ensures
        sort_largest_first(nodes).len() == nodes.len(),
    decreases nodes.len(),
{
    if nodes.len() > 0 {
        let rest = sort_largest_first(nodes.drop_first());
        lemma_sort_keeps_length(nodes.drop_first());
        lemma_slot_for(rest, nodes[0].size);
    }
}

/// The sorted sequence has its largest node first.
pub proof fn lemma_sort_orders(nodes: Seq<Node>)
    ensures
        largest_first(sort_largest_first(nodes)),
    decreases nodes.len(),
{
    if nodes.len() > 0 {
        let head = nodes[0];
        let rest = sort_largest_first(nodes.drop_first());
        let slot = slot_for(rest, head.size) as int;
        let sorted = rest.insert(slot, head);
        lemma_sort_orders(nodes.drop_first());
        lemma_slot_for(rest, head.size);
        assert forall|i: int, j: int| 0 <= i < j < sorted.len() implies sorted[i].size >= sorted[j].size by {
            if j < slot {
                assert(sorted[i] == rest[i] && sorted[j] == rest[j]);
            } else if j == slot {
                assert(sorted[i] == rest[i]);
            } else if i < slot {
                assert(sorted[i] == rest[i] && sorted[j] == rest[j - 1]);
            } else if i == slot {
                assert(sorted[j] == rest[j - 1]);
                assert(rest[slot].size >= rest[j - 1].size || slot == j - 1);
            } else {
                assert(sorted[i] == rest[i - 1] && sorted[j] == rest[j - 1]);
            }
        }
    }
}

/// The sorted sequence holds the same nodes, each as often as before.
pub proof fn lemma_sort_permutes(nodes: Seq<Node>)
    ensures
        sort_largest_first(nodes).to_multiset() == nodes.to_multiset(),
    decreases nodes.len(),
{
    if nodes.len() == 0 {
        assert(nodes =~= Seq::empty());
    } else {
        let head = nodes[0];
        let tail = nodes.drop_first();
        let rest = sort_largest_first(tail);
        lemma_sort_permutes(tail);
        lemma_slot_for(rest, head.size);
        vstd::seq_lib::to_multiset_insert(rest, slot_for(rest, head.size) as int, head);
        assert(nodes =~= tail.insert(0, head));
        vstd::seq_lib::to_multiset_insert(tail, 0, head);
        assert(sort_largest_first(nodes) == rest.insert(slot_for(rest, head.size) as int, head));
    }
}

/// Sorting is stable: the nodes of any one size stand in the sorted sequence
/// in the order in which they stood before.
pub proof fn lemma_sort_is_stable(nodes: Seq<Node>, size: nat)
    ensures
        of_size(sort_largest_first(nodes), size) == of_size(nodes, size),
    decreases nodes.len(),
{
    let pred = |node: Node| node.size == size;
    if nodes.len() == 0 {
    } else {
        let head = nodes[0];
        let tail = nodes.drop_first();
        let rest = sort_largest_first(tail);
        let slot = slot_for(rest, head.size) as int;
        lemma_sort_is_stable(tail, size);
        lemma_slot_for(rest, head.size);
        let front = rest.take(slot);
        let back = rest.skip(slot);
        assert(rest =~= front + back);
        assert(rest.insert(slot, head) =~= front + (seq![head] + back));
        assert(nodes =~= seq![head] + tail);
        Seq::filter_distributes_over_add(front, back, pred);
        Seq::filter_distributes_over_add(front, seq![head] + back, pred);
        back.lemma_filter_prepend(head, pred);
        tail.lemma_filter_prepend(head, pred);
        if head.size == size {
            assert(front.all(|node: Node| !pred(node))) by {
                assert forall|k: int| 0 <= k < front.len() implies !pred(#[trigger] front[k]) by {
                    assert(front[k] == rest[k]);
                }
            }
            front.lemma_all_neg_filter_empty(pred);
            assert(front.filter(pred) =~= Seq::empty());
            assert(front.filter(pred) + back.filter(pred) =~= back.filter(pred));
            assert(front.filter(pred) + (seq![head] + back.filter(pred)) =~= seq![head] + back.filter(pred));
        } else {
            assert(Seq::<Node>::empty() + back.filter(pred) =~= back.filter(pred));
        }
    }
}

/// How many of `nodes` have at least `size` bytes.
pub open spec fn count_at_least(nodes: Seq<Node>, size: nat) -> nat
    decreases nodes.len(),
{
    if nodes.len() == 0 {
        0
    } else {
        count_at_least(nodes.drop_last(), size) + if nodes.last().size >= size {
            1nat
        } else {
            0nat
        }
    }
}

/// Whether `high` holds, place by place, a node at least as large as the
/// node of `low`.
pub open spec fn dominated(low: Seq<Node>, high: Seq<Node>) -> bool {
    &&& low.len() == high.len()
    &&& forall|i: int| 0 <= i < low.len() ==> low[i].size <= high[i].size
}

/// A node that enters a sequence is counted if it is large enough, wherever
/// it enters.
pub proof fn lemma_count_of_insert(nodes: Seq<Node>, slot: int, node: Node, size: nat)
    requires
        0 <= slot <= nodes.len(),
    ensures
        count_at_least(nodes.insert(slot, node), size) == count_at_least(nodes, size) + if node.size
            >= size {
            1nat
        } else {
            0nat
        },
    decreases nodes.len(),
{
    let longer = nodes.insert(slot, node);
    if slot == nodes.len() {
        assert(longer.drop_last() =~= nodes);
    } else {
        lemma_count_of_insert(nodes.drop_last(), slot, node, size);
        assert(longer.drop_last() =~= nodes.drop_last().insert(slot, node));
        assert(longer.last() == nodes.last());
    }
}

/// Sorting does not change how many nodes are large enough.
pub proof fn lemma_sort_keeps_count(nodes: Seq<Node>, size: nat)
    ensures
        count_at_least(sort_largest_first(nodes), size) == count_at_least(nodes, size),
    decreases nodes.len(),
{
    if nodes.len() > 0 {
        let head = nodes[0];
        let tail = nodes.drop_first();
        let rest = sort_largest_first(tail);
        lemma_sort_keeps_count(tail, size);
        lemma_slot_for(rest, head.size);
        lemma_count_of_insert(rest, slot_for(rest, head.size) as int, head, size);
        lemma_count_of_insert(tail, 0, head, size);
        assert(tail.insert(0, head) =~= nodes);
    }
}

/// A dominating sequence holds at least as many nodes that are large
/// enough.
pub proof fn lemma_dominated_counts_less(low: Seq<Node>, high: Seq<Node>, size: nat)
    requires
        dominated(low, high),
    ensures
        count_at_least(low, size) <= count_at_least(high, size),
    decreases low.len(),
{
    if low.len() > 0 {
        assert(dominated(low.drop_last(), high.drop_last())) by {
            assert forall|i: int| 0 <= i < low.len() - 1 implies low.drop_last()[i].size
                <= high.drop_last()[i].size by {
                assert(low[i].size <= high[i].size);
            }
        }
        lemma_dominated_counts_less(low.drop_last(), high.drop_last(), size);
        assert(low.last().size <= high.last().size);
    }
}

/// Where the first `run` nodes are all large enough, at least `run` nodes
/// are.
pub proof fn lemma_count_of_leading_run(nodes: Seq<Node>, run: nat, size: nat)
    requires
        run <= nodes.len(),
        forall|i: int| 0 <= i < run ==> nodes[i].size >= size,
    ensures
        count_at_least(nodes, size) >= run,
    decreases nodes.len(),
{
    if run > 0 {
        if run == nodes.len() {
            lemma_count_of_leading_run(nodes.drop_last(), (run - 1) as nat, size);
        } else {
            lemma_count_of_leading_run(nodes.drop_last(), run, size);
        }
    }
}

/// Where no node from place `from` on is large enough, at most `from` nodes
/// are.
pub proof fn lemma_count_without_tail(nodes: Seq<Node>, from: nat, size: nat)
    requires
        from <= nodes.len(),
        forall|i: int| from <= i < nodes.len() ==> nodes[i].size < size,
    ensures
        count_at_least(nodes, size) <= from,
    decreases nodes.len(),
{
    if nodes.len() > 0 {
        if from == nodes.len() {
            lemma_count_without_tail(nodes.drop_last(), (from - 1) as nat, size);
        } else {
            lemma_count_without_tail(nodes.drop_last(), from, size);
        }
    }
}

/// Sorting keeps dominance: if `high` dominates `low` place by place, then
/// the largest of `high` is at least the largest of `low`, its second
/// largest at least the second largest of `low`, and so on.
pub proof fn lemma_sort_keeps_dominance(low: Seq<Node>, high: Seq<Node>)
    requires
        dominated(low, high),
    ensures
        dominated(sort_largest_first(low), sort_largest_first(high)),
{
    let low_sorted = sort_largest_first(low);
    let high_sorted = sort_largest_first(high);
    lemma_sort_keeps_length(low);
    lemma_sort_keeps_length(high);
    lemma_sort_orders(low);
    lemma_sort_orders(high);
    assert forall|j: int| 0 <= j < low_sorted.len() implies low_sorted[j].size
        <= high_sorted[j].size by {
        let size = low_sorted[j].size;
        if high_sorted[j].size < size {
            lemma_count_without_tail(high_sorted, j as nat, size);
            lemma_sort_keeps_count(high, size);
            lemma_dominated_counts_less(low, high, size);
            lemma_sort_keeps_count(low, size);
            lemma_count_of_leading_run(low_sorted, (j + 1) as nat, size);
        }
    }
}

/// A dominated sequence weighs no more.
pub proof fn lemma_dominated_weighs_less(low: Seq<Node>, high: Seq<Node>)
    requires
        dominated(low, high),
    ensures
        total_size(low) <= total_size(high),
    decreases low.len(),
{
    if low.len() > 0 {
        assert(dominated(low.drop_last(), high.drop_last())) by {
            assert forall|i: int| 0 <= i < low.len() - 1 implies low.drop_last()[i].size
                <= high.drop_last()[i].size by {
                assert(low[i].size <= high[i].size);
            }
        }
        lemma_dominated_weighs_less(low.drop_last(), high.drop_last());
        assert(low.last().size <= high.last().size);
    }
}

/// Retaining fewer children of smaller nodes weighs no more: if `high`
/// dominates `low` and the cap on `low` is the smaller one, then what is
/// retained of `low` weighs no more than what is retained of `high`.
pub proof fn lemma_retained_is_monotone(
    low: Seq<Node>,
    high: Seq<Node>,
    lower_cap: nat,
    higher_cap: nat,
)
    requires
        dominated(low, high),
        lower_cap <= higher_cap,
    ensures
        total_size(retained(low, lower_cap)) <= total_size(retained(high, higher_cap)),
{
    let low_sorted = sort_largest_first(low);
    let high_sorted = sort_largest_first(high);
    lemma_sort_keeps_length(low);
    lemma_sort_keeps_length(high);
    lemma_sort_keeps_dominance(low, high);
    let few = retained(low, lower_cap);
    let many = retained(high, higher_cap);
    let between = high_sorted.take(few.len() as int);
    assert(dominated(few, between)) by {
        assert forall|i: int| 0 <= i < few.len() implies few[i].size <= between[i].size by {
            assert(few[i] == low_sorted[i]);
            assert(low_sorted[i].size <= high_sorted[i].size);
        }
    }
    lemma_dominated_weighs_less(few, between);
    assert(many.take(few.len() as int) =~= between);
    lemma_total_size_of_prefix(many, few.len() as int);
}

} // verus!
