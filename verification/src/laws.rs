//! What holds of the registry whatever is recorded in it.
//!
//! The laws are stated over the model ([`Tree`]); the executable registry
//! obeys them because its contracts say that it computes the model's
//! functions.

use crate::tree::{lemma_child_index, lemma_descend, lemma_first_is_found, Entry, Path, Tree};
use vstd::prelude::*;

verus! {

/// One recording: the entries that arrived together on a path. An insertion
/// is a recording without entries, a message is a recording of one entry.
pub type Step = (Path, Seq<Entry>);

/// The tree after the recordings `steps`, applied one after the other.
pub open spec fn replay(t: Tree, steps: Seq<Step>) -> Tree
    decreases steps.len(),
{
    if steps.len() == 0 {
        t
    } else {
        replay(t, steps.drop_last()).record(steps.last().0, steps.last().1)
    }
}

/// The entries that `steps` bring to `path`, in the order of the steps.
pub open spec fn arrivals(steps: Seq<Step>, path: Path) -> Seq<Entry>
    decreases steps.len(),
{
    if steps.len() == 0 {
        Seq::empty()
    } else if steps.last().0 == path {
        arrivals(steps.drop_last(), path) + steps.last().1
    } else {
        arrivals(steps.drop_last(), path)
    }
}

/// A lookup by name depends on the children alone.
pub proof fn lemma_same_children(a: Tree, b: Tree, name: Seq<char>)
    requires
        a.children == b.children,
    ensures
        a.child(name) == b.child(name),
{
    lemma_child_index(a, name);
    if let Some(i) = a.child_index(name) {
        lemma_first_is_found(b, name, i);
    }
}

/// A recording on a path leaves the lookup of every other first segment as
/// it was.
pub proof fn lemma_record_other_child(t: Tree, path: Path, entries: Seq<Entry>, name: Seq<char>)
    requires
        path.len() > 0,
        name != path[0],
    ensures
        t.record(path, entries).child(name) == t.child(name),
{
    lemma_descend(t, path, entries);
    lemma_child_index(t, name);
    if let Some(i) = t.child_index(name) {
        lemma_first_is_found(t.record(path, entries), name, i);
    }
}

/// A recording on a path makes the lookup of its first segment reach the
/// child in which the rest of the path is recorded: the child that was
/// there, or a new one.
pub proof fn lemma_record_same_child(t: Tree, path: Path, entries: Seq<Entry>)
    requires
        path.len() > 0,
    ensures
        t.record(path, entries).child(path[0]) == Some(
            t.grown(path[0])[t.slot(path[0])].record(path.drop_first(), entries),
        ),
        t.child(path[0]) matches Some(below) ==> below == t.grown(path[0])[t.slot(path[0])],
        t.child(path[0]) is None ==> t.grown(path[0])[t.slot(path[0])] == Tree::fresh(path[0]),
{
    lemma_descend(t, path, entries);
}

/// After a recording on `path`, every prefix of `path` leads to a node.
pub proof fn lemma_record_prefixes(t: Tree, path: Path, entries: Seq<Entry>, k: int)
    requires
        0 <= k <= path.len(),
    ensures
        t.record(path, entries).contains(path.take(k)),
    decreases path.len(),
{
    if k > 0 {
        let below = t.grown(path[0])[t.slot(path[0])];
        lemma_record_same_child(t, path, entries);
        lemma_record_prefixes(below, path.drop_first(), entries, k - 1);
        assert(path.take(k).drop_first() =~= path.drop_first().take(k - 1));
    }
}

/// A recording removes no node: what `other` led to before, it leads to
/// afterwards.
pub proof fn lemma_record_keeps_nodes(t: Tree, path: Path, entries: Seq<Entry>, other: Path)
    requires
        t.contains(other),
    ensures
        t.record(path, entries).contains(other),
    decreases other.len(),
{
    if other.len() == 0 {
    } else if path.len() == 0 {
        lemma_same_children(t.record(path, entries), t, other[0]);
    } else if other[0] == path[0] {
        let below = t.grown(path[0])[t.slot(path[0])];
        lemma_record_same_child(t, path, entries);
        lemma_record_keeps_nodes(below, path.drop_first(), entries, other.drop_first());
    } else {
        lemma_record_other_child(t, path, entries, other[0]);
    }
}

/// Every prefix of every path that was ever recorded leads to a node.
pub proof fn law_prefixes_exist(t: Tree, steps: Seq<Step>, i: int, k: int)
    requires
        0 <= i < steps.len(),
        0 <= k <= steps[i].0.len(),
    ensures
        replay(t, steps).contains(steps[i].0.take(k)),
    decreases steps.len(),
{
    let earlier = replay(t, steps.drop_last());
    if i == steps.len() - 1 {
        lemma_record_prefixes(earlier, steps.last().0, steps.last().1, k);
    } else {
        law_prefixes_exist(t, steps.drop_last(), i, k);
        lemma_record_keeps_nodes(earlier, steps.last().0, steps.last().1, steps[i].0.take(k));
    }
}

/// A recording on `path` appends its entries to the messages at `path` and
/// leaves the messages at every other path as they were: exactly one list of
/// messages grows, by exactly the entries recorded.
pub proof fn law_messages_land(t: Tree, path: Path, entries: Seq<Entry>, other: Path)
    ensures
        t.record(path, entries).messages_at(other) == if other == path {
            t.messages_at(other) + entries
        } else {
            t.messages_at(other)
        },
    decreases other.len(),
{
    if path.len() == 0 {
        if other.len() > 0 {
            lemma_same_children(t.record(path, entries), t, other[0]);
        } else {
            assert(other =~= path);
        }
    } else if other.len() == 0 {
    } else if other[0] == path[0] {
        let below = t.grown(path[0])[t.slot(path[0])];
        lemma_record_same_child(t, path, entries);
        law_messages_land(below, path.drop_first(), entries, other.drop_first());
        if other.drop_first() == path.drop_first() {
            assert(other =~= seq![other[0]] + other.drop_first());
            assert(path =~= seq![path[0]] + path.drop_first());
        }
    } else {
        lemma_record_other_child(t, path, entries, other[0]);
    }
}

/// Messages are only ever appended: what a path held before a recording is
/// the beginning of what it holds afterwards.
pub proof fn law_messages_only_grow(t: Tree, path: Path, entries: Seq<Entry>, other: Path)
    ensures
        t.messages_at(other).is_prefix_of(t.record(path, entries).messages_at(other)),
{
    law_messages_land(t, path, entries, other);
}

/// The messages at a path are those it had, followed by those that were
/// recorded on exactly this path, in the order in which they were recorded,
/// whatever was recorded on other paths in between.
pub proof fn law_arrival_order(t: Tree, steps: Seq<Step>, path: Path)
    ensures
        replay(t, steps).messages_at(path) == t.messages_at(path) + arrivals(steps, path),
    decreases steps.len(),
{
    if steps.len() > 0 {
        law_arrival_order(t, steps.drop_last(), path);
        law_messages_land(replay(t, steps.drop_last()), steps.last().0, steps.last().1, path);
    }
}

/// What a lookup of `path` finds after a recording on it: a node marked as
/// a leaf.
pub proof fn law_recorded_is_marked(t: Tree, path: Path, entries: Seq<Entry>)
    ensures
        t.record(path, entries).get(path) matches Some(node) && node.is_leaf,
    decreases path.len(),
{
    if path.len() > 0 {
        lemma_record_same_child(t, path, entries);
        law_recorded_is_marked(t.grown(path[0])[t.slot(path[0])], path.drop_first(), entries);
    }
}

/// Two recordings on one path, one after the other, are one recording of
/// both lots of entries.
pub proof fn law_recordings_merge(t: Tree, path: Path, first: Seq<Entry>, second: Seq<Entry>)
    ensures
        t.record(path, first).record(path, second) == t.record(path, first + second),
    decreases path.len(),
{
    if path.len() > 0 {
        let below = t.grown(path[0])[t.slot(path[0])];
        lemma_descend(t, path, first);
        law_recordings_merge(below, path.drop_first(), first, second);
        assert(t.record(path, first).record(path, second).children =~= t.record(
            path,
            first + second,
        ).children);
    }
}

/// Two messages added on one path end up, in that order, on one node: the
/// result is that of recording both at once.
pub proof fn law_same_path_twice(t: Tree, path: Path, first: Entry, second: Entry)
    ensures
        t.add_message(path, first).add_message(path, second) == t.record(
            path,
            seq![first, second],
        ),
{
    law_recordings_merge(t, path, seq![first], seq![second]);
    assert(seq![first] + seq![second] =~= seq![first, second]);
}

/// Inserting a path a second time changes nothing.
pub proof fn law_insert_idempotent(t: Tree, path: Path)
    ensures
        t.insert(path).insert(path) == t.insert(path),
{
    law_recordings_merge(t, path, Seq::empty(), Seq::empty());
}

/// A node that has seen nothing has no two children of one name.
pub proof fn law_fresh_has_unique_names(name: Seq<char>)
    ensures
        Tree::fresh(name).unique_names(),
{
}

/// A recording creates no second child of a name: a tree in which no two
/// siblings share a name stays so.
pub proof fn law_unique_names_kept(t: Tree, path: Path, entries: Seq<Entry>)
    requires
        t.unique_names(),
    ensures
        t.record(path, entries).unique_names(),
    decreases path.len(),
{
    if path.len() > 0 {
        let after = t.record(path, entries);
        lemma_child_index(t, path[0]);
        law_unique_names_kept(t.grown(path[0])[t.slot(path[0])], path.drop_first(), entries);
        assert forall|i: int| 0 <= i < after.children.len() implies (
        #[trigger] after.children[i]).unique_names() by {}
    }
}

/// A recording keeps the children of the node it starts from in their
/// places and under their names; at most one child is added, at the end,
/// and it is called like the first segment of the path.
pub proof fn law_children_stay_in_place(t: Tree, path: Path, entries: Seq<Entry>)
    ensures
        ({
            let after = t.record(path, entries);
            &&& t.children.len() <= after.children.len() <= t.children.len() + 1
            &&& forall|i: int|
                0 <= i < t.children.len() ==> (#[trigger] after.children[i]).name
                    == t.children[i].name
            &&& after.children.len() > t.children.len() ==> {
                &&& path.len() > 0
                &&& t.child(path[0]) is None
                &&& after.children.last().name == path[0]
            }
        }),
{
    if path.len() > 0 {
        lemma_descend(t, path, entries);
    }
}

/// A recording on a path that already leads to a node marked as a leaf
/// changes no name, no mark and no list of children: the shape stays.
pub proof fn law_known_path_keeps_shape(t: Tree, path: Path, entries: Seq<Entry>)
    requires
        t.get(path) matches Some(node) && node.is_leaf,
    ensures
        t.record(path, entries).shape() == t.shape(),
    decreases path.len(),
{
    if path.len() > 0 {
        law_known_path_keeps_shape(t.children[t.slot(path[0])], path.drop_first(), entries);
        assert(t.record(path, entries).shape().children =~= t.shape().children);
    }
}

/// Adding a message on a path a second time leaves the shape of the tree as
/// the first time made it: no node is added at any level. Only the messages
/// at that path grow, by the one message, and no others change.
pub proof fn law_repeat_keeps_shape(t: Tree, path: Path, first: Entry, second: Entry)
    ensures
        ({
            let once = t.add_message(path, first);
            let twice = once.add_message(path, second);
            &&& twice.shape() == once.shape()
            &&& twice.messages_at(path) == once.messages_at(path).push(second)
            &&& forall|other: Path|
                other != path ==> #[trigger] twice.messages_at(other) == once.messages_at(other)
        }),
{
    let once = t.add_message(path, first);
    let twice = once.add_message(path, second);
    law_recorded_is_marked(t, path, seq![first]);
    law_known_path_keeps_shape(once, path, seq![second]);
    law_messages_land(once, path, seq![second], path);
    assert forall|other: Path| other != path implies #[trigger] twice.messages_at(other)
        == once.messages_at(other) by {
        law_messages_land(once, path, seq![second], other);
    }
}

/// The node that a path leads to is called like the last segment of the
/// path.
pub proof fn law_found_is_named(t: Tree, path: Path)
    requires
        path.len() > 0,
        t.contains(path),
    ensures
        t.get(path).unwrap().name == path.last(),
    decreases path.len(),
{
    let below = t.children[t.child_index(path[0]).unwrap()];
    if path.len() > 1 {
        law_found_is_named(below, path.drop_first());
    } else {
        assert(below.get(path.drop_first()) == Some(below));
    }
}

/// In a tree where no two siblings share a name, every child is the one
/// that a lookup of its name reaches: each node is reached from the root by
/// the names on the way to it, and by them alone.
pub proof fn law_children_are_found(t: Tree, i: int)
    requires
        t.unique_names(),
        0 <= i < t.children.len(),
    ensures
        t.child(t.children[i].name) == Some(t.children[i]),
        t.children[i].unique_names(),
{
    lemma_first_is_found(t, t.children[i].name, i);
}

/// In a tree where no two siblings share a name, the same holds below every
/// node that a path leads to.
pub proof fn law_unique_names_reach(t: Tree, path: Path)
    requires
        t.unique_names(),
        t.contains(path),
    ensures
        t.get(path).unwrap().unique_names(),
    decreases path.len(),
{
    if path.len() > 0 {
        law_unique_names_reach(t.children[t.child_index(path[0]).unwrap()], path.drop_first());
    }
}

/// Putting back the node that a path leads to changes nothing.
pub proof fn law_put_back(t: Tree, path: Path)
    requires
        t.contains(path),
    ensures
        t.put(path, t.get(path).unwrap()) == t,
    decreases path.len(),
{
    if path.len() > 0 {
        law_put_back(t.children[t.child_index(path[0]).unwrap()], path.drop_first());
        assert(t.put(path, t.get(path).unwrap()).children =~= t.children);
    }
}

/// A node put in the place of another of the same name is what the path
/// leads to afterwards.
pub proof fn law_put_then_get(t: Tree, path: Path, node: Tree)
    requires
        t.get(path) matches Some(found) && found.name == node.name,
    ensures
        t.put(path, node).get(path) == Some(node),
    decreases path.len(),
{
    if path.len() > 0 {
        let i = t.child_index(path[0]).unwrap();
        law_put_then_get(t.children[i], path.drop_first(), node);
        lemma_first_is_found(t.put(path, node), path[0], i);
    }
}

/// A node put in the place of another of the same name leaves no two
/// siblings with one name, if neither the tree nor the node had such.
pub proof fn law_put_keeps_unique_names(t: Tree, path: Path, node: Tree)
    requires
        t.unique_names(),
        node.unique_names(),
        t.get(path) matches Some(found) && found.name == node.name,
    ensures
        t.put(path, node).unique_names(),
    decreases path.len(),
{
    if path.len() > 0 {
        let after = t.put(path, node);
        law_put_keeps_unique_names(
            t.children[t.child_index(path[0]).unwrap()],
            path.drop_first(),
            node,
        );
        assert forall|j: int| 0 <= j < after.children.len() implies (
        #[trigger] after.children[j]).unique_names() by {}
    }
}

} // verus!
