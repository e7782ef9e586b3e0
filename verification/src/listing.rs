//! Listing a directory: from what was read of it to the entries handed back.

use vstd::prelude::*;
use vstd::seq_lib::{to_multiset_contains, to_multiset_len, to_multiset_remove};
use crate::node::{classify, node_of, Child, ChildView, PathNode, PathNodeView};

verus! {

/// The entries of a directory with the given children: the record of each
/// child, one for one, in the order in which the children were read.
pub open spec fn listing_of(children: Seq<ChildView>) -> Seq<PathNodeView> {
    children.map_values(|child: ChildView| node_of(child))
}

/// Whether no two of the children share a path.
pub open spec fn distinct_paths(children: Seq<ChildView>) -> bool {
    forall|i: int, j: int|
        0 <= i < j < children.len() ==> (#[trigger] children[i]).path != (
        #[trigger] children[j]).path
}

/// A listing holds one entry for each child and nothing else: as many entries
/// as children, the entry at each place made of the child at that place, with
/// its path and its kind. Where no two children share a path, no two entries
/// do, and no entry occurs twice.
pub proof fn lemma_one_entry_per_child(children: Seq<ChildView>)
    ensures
        listing_of(children).len() == children.len(),
        forall|i: int|
            0 <= i < children.len() ==> {
                let entry = #[trigger] listing_of(children)[i];
                &&& entry.wf()
                &&& entry.path == children[i].path
                &&& entry.is_dir == children[i].is_dir
            },
        distinct_paths(children) ==> forall|i: int, j: int|
            0 <= i < j < children.len() ==> (#[trigger] listing_of(children)[i]).path != (
            #[trigger] listing_of(children)[j]).path,
        distinct_paths(children) ==> listing_of(children).no_duplicates(),
{
    let entries = listing_of(children);
    if distinct_paths(children) {
        assert forall|i: int, j: int| 0 <= i < j < children.len() implies (#[trigger] entries[i]).path
            != (#[trigger] entries[j]).path by {
            assert(children[i].path != children[j].path);
        }
        assert forall|i: int, j: int|
            0 <= i < entries.len() && 0 <= j < entries.len() && i != j implies entries[i]
            != entries[j] by {
            if i < j {
                assert(entries[i].path != entries[j].path);
            } else {
                assert(entries[j].path != entries[i].path);
            }
        }
    }
}

/// Listing the same children again gives the same entries, in whatever order
/// the children come: where two readings hold the same children, each as
/// often in the one as in the other, the two listings hold the same entries,
/// each as often in the one as in the other.
pub proof fn lemma_same_children_same_entries(first: Seq<ChildView>, second: Seq<ChildView>)
    requires
        first.to_multiset() == second.to_multiset(),
    ensures
        listing_of(first).to_multiset() == listing_of(second).to_multiset(),
    decreases first.len(),
{
    to_multiset_len(first);
    to_multiset_len(second);
    if first.len() == 0 {
        assert(listing_of(first) =~= listing_of(second));
    } else {
        let child = first[0];
        assert(first.contains(child));
        to_multiset_contains(first, child);
        to_multiset_contains(second, child);
        let j = choose|j: int| 0 <= j < second.len() && second[j] == child;
        let first_rest = first.remove(0);
        let second_rest = second.remove(j);
        to_multiset_remove(first, 0);
        to_multiset_remove(second, j);
        lemma_same_children_same_entries(first_rest, second_rest);
        assert(listing_of(first).remove(0) =~= listing_of(first_rest));
        assert(listing_of(second).remove(j) =~= listing_of(second_rest));
        let entry = node_of(child);
        let m1 = listing_of(first).to_multiset();
        let m2 = listing_of(second).to_multiset();
        assert(listing_of(first)[0] == entry);
        assert(listing_of(second)[j] == entry);
        to_multiset_remove(listing_of(first), 0);
        to_multiset_remove(listing_of(second), j);
        to_multiset_contains(listing_of(first), entry);
        to_multiset_contains(listing_of(second), entry);
        assert(m1 =~= m1.remove(entry).insert(entry));
        assert(m2 =~= m2.remove(entry).insert(entry));
    }
}

/// Builds the record of every child, in order.
pub fn classify_all(children: &Vec<Child>) -> (nodes: Vec<PathNode>)
    ensures
        nodes.deep_view() == listing_of(children.deep_view()),
{
    let mut nodes: Vec<PathNode> = Vec::new();
    let mut i: usize = 0;
    while i < children.len()
        invariant
            i <= children.len(),
            nodes.len() == i,
            forall|k: int| 0 <= k < i ==> (#[trigger] nodes@[k])@ == node_of(children@[k]@),
        decreases children.len() - i,
    {
        let node = classify(&children[i]);
        nodes.push(node);
        i += 1;
    }
    assert(nodes.deep_view() =~= listing_of(children.deep_view()));
    nodes
}

/// Lists a directory from what reading it gave.
///
/// `read` is the outcome of enumerating the directory: its children in the
/// order in which the filesystem yielded them, or the message of the failure.
/// A failure is handed on word for word, and with it no entry; otherwise
/// every child gets its entry, in the same order. There is no outcome in
/// between: a reading that broke off at one of the children has no listing.
pub fn discover_path(read: Result<Vec<Child>, String>) -> (result: Result<Vec<PathNode>, String>)
    ensures
        match read {
            Ok(children) => result is Ok && result->Ok_0.deep_view() == listing_of(
                children.deep_view(),
            ),
            Err(message) => result is Err && result->Err_0@ == message@,
        },
{
    match read {
        Ok(children) => Ok(classify_all(&children)),
        Err(message) => Err(message),
    }
}

} // verus!
