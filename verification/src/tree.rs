//! The mathematical model of the registry.
//!
//! A [`Tree`] is what a topic node is, as a value: its name, its leaf mark,
//! its messages in arrival order and its children in the order in which they
//! were created. Every contract of the executable registry is stated over
//! this model.

use crate::timestamp::Timestamp;
use vstd::prelude::*;

verus! {

/// A message as the model sees it: the arrival instant and the payload text.
pub type Entry = (Timestamp, Seq<char>);

/// A topic path: the segments from the root down.
pub type Path = Seq<Seq<char>>;

/// A topic node as a value.
#[verifier::ext_equal]
pub struct Tree {
    /// The segment that this node stands for.
    pub name: Seq<char>,
    /// Whether a path that was recorded ended exactly here.
    pub is_leaf: bool,
    /// What arrived here, in arrival order.
    pub messages: Seq<Entry>,
    /// The nodes one segment further down, in the order of their creation.
    pub children: Seq<Tree>,
}

impl Tree {
    /// A node that has seen nothing yet.
    pub open spec fn fresh(name: Seq<char>) -> Tree {
        Tree { name, is_leaf: false, messages: Seq::empty(), children: Seq::empty() }
    }

    /// `i` is the position of the first child called `name`.
    pub open spec fn first_named(self, i: int, name: Seq<char>) -> bool {
        &&& 0 <= i < self.children.len()
        &&& self.children[i].name == name
        &&& forall|j: int| 0 <= j < i ==> self.children[j].name != name
    }

    /// The position of the child that a lookup of `name` reaches, if any.
    pub open spec fn child_index(self, name: Seq<char>) -> Option<int> {
        if exists|i: int| self.first_named(i, name) {
            Some(choose|i: int| self.first_named(i, name))
        } else {
            None
        }
    }

    /// The child that a lookup of `name` reaches, if any.
    pub open spec fn child(self, name: Seq<char>) -> Option<Tree> {
        match self.child_index(name) {
            Some(i) => Some(self.children[i]),
            None => None,
        }
    }

    /// This node once it is marked as a leaf and has received `entries`.
    pub open spec fn landed(self, entries: Seq<Entry>) -> Tree {
        Tree { is_leaf: true, messages: self.messages + entries, ..self }
    }

    /// The tree after `entries` have arrived on `path`: the nodes along the
    /// path exist, the last one is marked as a leaf and holds the entries
    /// after those it had.
    pub open spec fn record(self, path: Path, entries: Seq<Entry>) -> Tree
        decreases path.len(),
    {
        if path.len() == 0 {
            self.landed(entries)
        } else {
            let rest = path.drop_first();
            match self.child_index(path[0]) {
                Some(i) => Tree {
                    children: self.children.update(i, self.children[i].record(rest, entries)),
                    ..self
                },
                None => Tree {
                    children: self.children.push(Tree::fresh(path[0]).record(rest, entries)),
                    ..self
                },
            }
        }
    }

    /// The tree after `path` has been inserted.
    pub open spec fn insert(self, path: Path) -> Tree {
        self.record(path, Seq::empty())
    }

    /// The tree after one message has arrived on `path`.
    pub open spec fn add_message(self, path: Path, entry: Entry) -> Tree {
        self.record(path, seq![entry])
    }

    /// The node that the segment lookups of `path` reach from here.
    pub open spec fn get(self, path: Path) -> Option<Tree>
        decreases path.len(),
    {
        if path.len() == 0 {
            Some(self)
        } else {
            match self.child(path[0]) {
                Some(below) => below.get(path.drop_first()),
                None => None,
            }
        }
    }

    /// Whether `path` leads to a node.
    pub open spec fn contains(self, path: Path) -> bool {
        self.get(path) is Some
    }

    /// The messages recorded at `path`; none where no node is.
    pub open spec fn messages_at(self, path: Path) -> Seq<Entry> {
        match self.get(path) {
            Some(node) => node.messages,
            None => Seq::empty(),
        }
    }

    /// The tree with the node at `path` replaced by `node`; unchanged where
    /// `path` leads nowhere.
    pub open spec fn put(self, path: Path, node: Tree) -> Tree
        decreases path.len(),
    {
        if path.len() == 0 {
            node
        } else {
            match self.child_index(path[0]) {
                Some(i) => Tree {
                    children: self.children.update(
                        i,
                        self.children[i].put(path.drop_first(), node),
                    ),
                    ..self
                },
                None => self,
            }
        }
    }

    /// No two children of one node share a name, anywhere in the tree.
    pub open spec fn unique_names(self) -> bool
        decreases self,
    {
        &&& forall|i: int, j: int|
            0 <= i < j < self.children.len() ==> self.children[i].name != self.children[j].name
        &&& forall|i: int|
            0 <= i < self.children.len() ==> (#[trigger] self.children[i]).unique_names()
    }

    /// The tree without its messages: names, leaf marks and children only.
    pub open spec fn shape(self) -> Tree
        decreases self,
    {
        Tree {
            name: self.name,
            is_leaf: self.is_leaf,
            messages: Seq::empty(),
            children: Seq::new(
                self.children.len(),
                |i: int|
                    if 0 <= i < self.children.len() {
                        self.children[i].shape()
                    } else {
                        arbitrary()
                    },
            ),
        }
    }
}

/// What a lookup by name finds: the first child of that name, and `None` only
/// where no child has it.
pub proof fn lemma_child_index(t: Tree, name: Seq<char>)
    ensures
        match t.child_index(name) {
            Some(i) => t.first_named(i, name),
            None => forall|j: int| 0 <= j < t.children.len() ==> t.children[j].name != name,
        },
{
    if !(exists|i: int| t.first_named(i, name)) {
        assert forall|j: int| 0 <= j < t.children.len() implies t.children[j].name != name by {
            if t.children[j].name == name {
                lemma_first_exists(t, name, j);
            }
        }
    }
}

/// A child called `name` at position `j` means that a first such child exists.
proof fn lemma_first_exists(t: Tree, name: Seq<char>, j: int)
    requires
        0 <= j < t.children.len(),
        t.children[j].name == name,
    ensures
        exists|i: int| t.first_named(i, name),
    decreases j,
{
    if forall|k: int| 0 <= k < j ==> t.children[k].name != name {
        assert(t.first_named(j, name));
    } else {
        let k = choose|k: int| 0 <= k < j && t.children[k].name == name;
        lemma_first_exists(t, name, k);
    }
}

/// The first child of a name is the one a lookup finds.
pub proof fn lemma_first_is_found(t: Tree, name: Seq<char>, i: int)
    requires
        t.first_named(i, name),
    ensures
        t.child_index(name) == Some(i),
{
}

impl Tree {
    /// The position of the child through which `name` is reached once it has
    /// been recorded: that of the first child called `name`, or the end of the
    /// children where there is none yet.
    pub open spec fn slot(self, name: Seq<char>) -> int {
        match self.child_index(name) {
            Some(i) => i,
            None => self.children.len() as int,
        }
    }

    /// The children once a child called `name` is among them.
    pub open spec fn grown(self, name: Seq<char>) -> Seq<Tree> {
        match self.child_index(name) {
            Some(_) => self.children,
            None => self.children.push(Tree::fresh(name)),
        }
    }
}

/// One step down a non-empty path: recording on `path` is recording the rest
/// of it in the child called `path[0]`, created first where it is missing; a
/// lookup of `path` afterwards goes through that child, and so does a
/// replacement.
pub proof fn lemma_descend(t: Tree, path: Path, entries: Seq<Entry>)
    requires
        path.len() > 0,
    ensures
        ({
            let k = t.slot(path[0]);
            let grown = t.grown(path[0]);
            let rest = path.drop_first();
            let below = grown[k].record(rest, entries);
            &&& 0 <= k < grown.len()
            &&& grown[k].name == path[0]
            &&& t.record(path, entries) == Tree { children: grown.update(k, below), ..t }
            &&& t.record(path, entries).child_index(path[0]) == Some(k)
            &&& t.record(path, entries).get(path) == below.get(rest)
            &&& forall|node: Tree|
                (#[trigger] t.record(path, entries).put(path, node)) == Tree {
                    children: grown.update(k, below.put(rest, node)),
                    ..t
                }
        }),
{
    let k = t.slot(path[0]);
    let grown = t.grown(path[0]);
    let rest = path.drop_first();
    let below = grown[k].record(rest, entries);
    let after = t.record(path, entries);
    lemma_child_index(t, path[0]);
    assert(after.children =~= grown.update(k, below));
    lemma_first_is_found(after, path[0], k);
    assert forall|node: Tree|
        (#[trigger] after.put(path, node)) == Tree {
            children: grown.update(k, below.put(rest, node)),
            ..t
        } by {
        assert(after.children.update(k, below.put(rest, node)) =~= grown.update(
            k,
            below.put(rest, node),
        ));
    }
}

/// Inserting a path and then handing entries to the node it ends at is
/// recording the entries on the path.
pub proof fn lemma_insert_then_land(t: Tree, path: Path, entries: Seq<Entry>)
    ensures
        t.insert(path).get(path) matches Some(node) && t.insert(path).put(
            path,
            Tree { messages: node.messages + entries, ..node },
        ) == t.record(path, entries),
    decreases path.len(),
{
    if path.len() > 0 {
        let child = t.grown(path[0])[t.slot(path[0])];
        lemma_descend(t, path, Seq::empty());
        lemma_descend(t, path, entries);
        lemma_insert_then_land(child, path.drop_first(), entries);
    }
}

} // verus!
