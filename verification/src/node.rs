//! The value tree that the renderer reads.

use vstd::prelude::*;

verus! {

/// The mathematical content of a value: what a [`YamlNode`] stands for.
pub enum Tree {
    Null,
    Boolean(bool),
    /// A number, by its text.
    Number(Seq<char>),
    Text(Seq<char>),
    Sequence(Seq<Tree>),
    /// Key and value pairs, in document order.
    Mapping(Seq<(Seq<char>, Tree)>),
}

/// A parsed value, ready for rendering.
#[derive(Debug, PartialEq, Eq)]
pub enum YamlNode {
    Null,
    Boolean(bool),
    /// A number, held as the text to be written for it.
    Number(String),
    String(String),
    Sequence(Vec<YamlNode>),
    /// Key and value pairs, in document order.
    Mapping(Vec<(String, YamlNode)>),
}

/// The tree that `node` stands for.
pub open spec fn tree_of(node: YamlNode) -> Tree
    decreases node,
{
    match node {
        YamlNode::Null => Tree::Null,
        YamlNode::Boolean(value) => Tree::Boolean(value),
        YamlNode::Number(text) => Tree::Number(text@),
        YamlNode::String(text) => Tree::Text(text@),
        YamlNode::Sequence(items) => Tree::Sequence(
            Seq::new(
                items@.len(),
                |i: int|
                    if 0 <= i < items@.len() {
                        tree_of(items@[i])
                    } else {
                        Tree::Null
                    },
            ),
        ),
        YamlNode::Mapping(entries) => Tree::Mapping(
            Seq::new(
                entries@.len(),
                |i: int|
                    if 0 <= i < entries@.len() {
                        (entries@[i].0@, tree_of(entries@[i].1))
                    } else {
                        (Seq::empty(), Tree::Null)
                    },
            ),
        ),
    }
}

impl View for YamlNode {
    type V = Tree;

    open spec fn view(&self) -> Tree {
        tree_of(*self)
    }
}

/// Within each mapping of `tree` no key occurs twice.
pub open spec fn keys_distinct(tree: Tree) -> bool
    decreases tree,
{
    match tree {
        Tree::Sequence(items) => forall|i: int|
            0 <= i < items.len() ==> keys_distinct(#[trigger] items[i]),
        Tree::Mapping(entries) => {
            &&& forall|i: int, j: int|
                0 <= i < j < entries.len() ==> (#[trigger] entries[i]).0 != (
                #[trigger] entries[j]).0
            &&& forall|i: int| 0 <= i < entries.len() ==> keys_distinct((#[trigger] entries[i]).1)
        },
        _ => true,
    }
}

impl YamlNode {
    /// A mapping is a list of entries that stands for a map: within each
    /// mapping of a well-formed node no key occurs twice.
    pub open spec fn well_formed(&self) -> bool {
        keys_distinct(self@)
    }
}

/// The trees of a run of nodes.
pub open spec fn trees(nodes: Seq<YamlNode>) -> Seq<Tree> {
    Seq::new(nodes.len(), |i: int| nodes[i]@)
}

/// The keys and trees of a run of mapping entries.
pub open spec fn entry_trees(entries: Seq<(String, YamlNode)>) -> Seq<(Seq<char>, Tree)> {
    Seq::new(entries.len(), |i: int| (entries[i].0@, entries[i].1@))
}

/// A sequence node stands for the sequence of its elements' trees.
pub proof fn lemma_sequence_view(node: YamlNode)
    requires
        node is Sequence,
    ensures
        node@ == Tree::Sequence(trees(node->Sequence_0@)),
{
    assert(node@->Sequence_0 =~= trees(node->Sequence_0@));
}

/// A mapping node stands for the keys and trees of its entries, in order.
pub proof fn lemma_mapping_view(node: YamlNode)
    requires
        node is Mapping,
    ensures
        node@ == Tree::Mapping(entry_trees(node->Mapping_0@)),
{
    assert(node@->Mapping_0 =~= entry_trees(node->Mapping_0@));
}

} // verus!
