//! The registry itself: a tree of topic nodes, keyed by path segments.

use crate::laws::{
    law_found_is_named, law_put_back, law_put_keeps_unique_names, law_recorded_is_marked,
    law_unique_names_kept,
};
use crate::timestamp::Timestamp;
use crate::tree::{lemma_descend, lemma_first_is_found, lemma_insert_then_land, Path, Tree};
use vstd::prelude::*;

verus! {

/// A node of the topic tree. Children keep the order in which they were
/// created; a lookup by name takes the first child of that name.
#[derive(Debug)]
pub struct TopicNode {
    /// The segment that this node stands for.
    pub name: String,
    /// The nodes one segment further down, in the order of their creation.
    pub children: Vec<TopicNode>,
    /// Whether a topic that was recorded ended exactly here.
    pub is_leaf: bool,
    /// What arrived on this topic, in arrival order, each with its instant.
    pub messages: Vec<(Timestamp, String)>,
}

/// The model of a node: its name, mark and messages, and the models of its
/// children in their order.
pub open spec fn tree_of(node: TopicNode) -> Tree
    decreases node,
{
    Tree {
        name: node.name@,
        is_leaf: node.is_leaf,
        messages: node.messages.deep_view(),
        children: Seq::new(
            node.children.len() as nat,
            |i: int|
                if 0 <= i < node.children.len() {
                    tree_of(node.children[i])
                } else {
                    arbitrary()
                },
        ),
    }
}

impl View for TopicNode {
    type V = Tree;

    open spec fn view(&self) -> Tree {
        tree_of(*self)
    }
}

/// The segments of an executable path, as the model reads them.
pub open spec fn segments(path: &[&str]) -> Path {
    path.deep_view()
}

/// The model of a node's child is the node's child in the model, and carries
/// the child's name.
pub proof fn lemma_view_children(node: TopicNode)
    ensures
        node@.children.len() == node.children.len(),
        forall|j: int|
            0 <= j < node.children.len() ==> {
                &&& (#[trigger] node@.children[j]) == node.children[j]@
                &&& node@.children[j].name == node.children[j].name@
            },
{
    assert forall|j: int| 0 <= j < node.children.len() implies {
        &&& (#[trigger] node@.children[j]) == node.children[j]@
        &&& node@.children[j].name == node.children[j].name@
    } by {}
}

impl Default for TopicNode {
    /// A node without a name that has seen nothing yet.
    fn default() -> (node: TopicNode)
        ensures
            node@ == Tree::fresh(Seq::empty()),
    {
        proof {
            reveal_strlit("");
        }
        TopicNode::new("")
    }
}

impl TopicNode {
    /// A node called `name` that has seen nothing yet.
    pub fn new(name: &str) -> (node: TopicNode)
        ensures
            node@ == Tree::fresh(name@),
            node@.unique_names(),
    {
        let node = TopicNode {
            name: name.to_owned(),
            children: Vec::new(),
            is_leaf: false,
            messages: Vec::new(),
        };
        assert(node@.children =~= Seq::empty());
        node
    }

    /// The position of the first child called `key`, or the number of
    /// children where there is none.
    fn position(&self, key: &String) -> (at: usize)
        ensures
            at as int == self@.slot(key@),
            at < self.children.len() <==> self@.child_index(key@) is Some,
    {
        let mut at: usize = 0;
        while at < self.children.len() && !(self.children[at].name == *key)
            invariant
                at <= self.children.len(),
                forall|j: int| 0 <= j < at ==> self.children[j].name@ != key@,
            decreases self.children.len() - at,
        {
            at += 1;
        }
        proof {
            lemma_view_children(*self);
            if at < self.children.len() {
                lemma_first_is_found(self@, key@, at as int);
            }
        }
        at
    }

    /// The child called `name`: the first of that name, if there is one.
    pub fn child(&self, name: &str) -> (found: Option<&TopicNode>)
        ensures
            match found {
                Some(node) => self@.child(name@) == Some(node@),
                None => self@.child(name@) is None,
            },
    {
        let key: String = name.to_owned();
        let at = self.position(&key);
        if at < self.children.len() {
            Some(&self.children[at])
        } else {
            None
        }
    }

    /// The node that `path` leads to from here, if every segment of it names
    /// a child of the node before.
    pub fn find(&self, path: &[&str]) -> (found: Option<&TopicNode>)
        ensures
            match found {
                Some(node) => self@.get(segments(path)) == Some(node@),
                None => self@.get(segments(path)) is None,
            },
        decreases path@.len(),
    {
        if path.len() == 0 {
            return Some(self);
        }
        let rest = vstd::slice::slice_subrange(path, 1, path.len());
        proof {
            assert(segments(rest) =~= segments(path).drop_first());
        }
        match self.child(path[0]) {
            Some(below) => below.find(rest),
            None => None,
        }
    }

    /// Inserts `path` below this node and hands out the node it ends at.
    ///
    /// Every node along the path exists afterwards, created where it was
    /// missing, and the last one is marked as a leaf; with an empty path that
    /// is this node itself. Segments are taken as they are: an empty one is
    /// the name of a child like any other. The node handed out is the last
    /// one; what the caller makes of it is what the tree holds at `path` in
    /// the end.
    pub fn insert(&mut self, path: &[&str]) -> (node: &mut TopicNode)
        ensures
            old(self)@.insert(segments(path)).get(segments(path)) == Some(node@),
            final(self)@ == old(self)@.insert(segments(path)).put(segments(path), final(node)@),
            final(node)@ == node@ ==> final(self)@ == old(self)@.insert(segments(path)),
            node@.is_leaf,
            path@.len() > 0 ==> node@.name == segments(path).last(),
            old(self)@.unique_names() ==> node@.unique_names(),
            old(self)@.unique_names() && final(node)@.unique_names() && final(node)@.name
                == node@.name ==> final(self)@.unique_names(),
        decreases path@.len(),
    {
        proof {
            let inserted = old(self)@.insert(segments(path));
            law_recorded_is_marked(old(self)@, segments(path), Seq::empty());
            law_put_back(inserted, segments(path));
            if path@.len() > 0 {
                law_found_is_named(inserted, segments(path));
            }
            if old(self)@.unique_names() {
                law_unique_names_kept(old(self)@, segments(path), Seq::empty());
                assert forall|other: Tree|
                    other.unique_names() && other.name == inserted.get(
                        segments(path),
                    ).unwrap().name implies (#[trigger] inserted.put(
                    segments(path),
                    other,
                )).unique_names() by {
                    law_put_keeps_unique_names(inserted, segments(path), other);
                }
            }
        }
        if path.len() == 0 {
            self.is_leaf = true;
            proof {
                assert(self@.children =~= old(self)@.children);
            }
            return self;
        }
        let part: &str = path[0];
        let key: String = part.to_owned();
        let at = self.position(&key);
        if at == self.children.len() {
            self.children.push(TopicNode::new(part));
        }
        let rest = vstd::slice::slice_subrange(path, 1, path.len());
        let ghost end = *final(self);
        let ghost grown = self@.children;
        proof {
            lemma_view_children(*old(self));
            assert(segments(rest) =~= segments(path).drop_first());
            assert(grown =~= old(self)@.grown(key@));
            lemma_descend(old(self)@, segments(path), Seq::empty());
        }
        let child = &mut self.children[at];
        proof {
            assert(end@.children =~= grown.update(at as int, final(child)@));
        }
        child.insert(rest)
    }

    /// Records a message that arrived on `path` at the instant `at`.
    ///
    /// The path is inserted, and the message is appended to the messages of
    /// the node it ends at; nothing else changes.
    pub fn add_message_at(&mut self, path: &[&str], content: String, at: Timestamp)
        ensures
            final(self)@ == old(self)@.add_message(segments(path), (at, content@)),
            old(self)@.unique_names() ==> final(self)@.unique_names(),
    {
        let node = self.insert(path);
        let ghost found = node@;
        node.messages.push((at, content));
        proof {
            assert(node@.messages =~= found.messages + seq![(at, content@)]);
            lemma_insert_then_land(old(self)@, segments(path), seq![(at, content@)]);
        }
    }

    /// Records a message that arrives on `path` now.
    ///
    /// The instant is read from the clock; the rest is [`Self::add_message_at`].
    pub fn add_message(&mut self, path: &[&str], content: String)
        ensures
            exists|at: Timestamp|
                at.from_clock() && final(self)@ == #[trigger] old(self)@.add_message(
                    segments(path),
                    (at, content@),
                ),
            old(self)@.unique_names() ==> final(self)@.unique_names(),
    {
        let at = Timestamp::now();
        self.add_message_at(path, content, at);
    }
}

} // verus!
