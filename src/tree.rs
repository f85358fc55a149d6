//! The tree itself.
use vstd::multiset::Multiset;
use vstd::prelude::*;

use core::cmp::Ordering;

use crate::text::{indented, push_char, push_indented};
use crate::value::TreeValue;

verus! {

/// A binary tree: `Null` is the empty tree, and a `Node` owns one value and
/// two subtrees.
pub enum Tree<T> {
    Null,
    Node { data: T, left: Box<Tree<T>>, right: Box<Tree<T>> },
}

impl<T> Tree<T> {
    /// Number of nodes.
    pub open spec fn size(&self) -> nat
        decreases self,
    {
        match self {
            Tree::Null => 0,
            Tree::Node { left, right, .. } => 1 + left.size() + right.size(),
        }
    }

    /// The empty tree.
    pub fn new_empty() -> (r: Tree<T>)
        ensures
            r is Null,
    {
        Tree::Null
    }

    /// A tree of one node that holds `data`.
    pub fn new_filled(data: T) -> (r: Tree<T>)
        ensures
            r == (Tree::Node { data, left: Box::new(Tree::<T>::Null), right: Box::new(Tree::<T>::Null) }),
    {
        Tree::Node { data, left: Box::new(Tree::Null), right: Box::new(Tree::Null) }
    }
}

impl<T: TreeValue> Tree<T> {
    /// The values held, with their multiplicities.
    pub open spec fn values(&self) -> Multiset<T>
        decreases self,
    {
        match self {
            Tree::Null => Multiset::empty(),
            Tree::Node { data, left, right } => left.values().add(right.values()).insert(*data),
        }
    }

    /// Every value in a left subtree is ordered strictly before the node's
    /// value, and every value in a right subtree at or after it.
    pub open spec fn is_search_tree(&self) -> bool
        decreases self,
    {
        match self {
            Tree::Null => true,
            Tree::Node { data, left, right } => {
                &&& left.is_search_tree()
                &&& right.is_search_tree()
                &&& forall|x: T| left.values().contains(x) ==> !data.spec_le(&x)
                &&& forall|x: T| right.values().contains(x) ==> data.spec_le(&x)
            },
        }
    }

    /// The tree after `v` is inserted: a value goes right of every value
    /// ordered at or before it, and left of the others.
    pub open spec fn inserted(self, v: T) -> Tree<T>
        decreases self,
    {
        match self {
            Tree::Null => Tree::Node { data: v, left: Box::new(Tree::Null), right: Box::new(Tree::Null) },
            Tree::Node { data, left, right } => if data.spec_le(&v) {
                Tree::Node { data, left, right: Box::new(right.inserted(v)) }
            } else {
                Tree::Node { data, left: Box::new(left.inserted(v)), right }
            },
        }
    }

    /// The value of the node reached by following right children from the root.
    pub open spec fn rightmost(&self) -> Option<T>
        decreases self,
    {
        match self {
            Tree::Null => None,
            Tree::Node { data, right, .. } => match **right {
                Tree::Null => Some(*data),
                Tree::Node { .. } => right.rightmost(),
            },
        }
    }

    /// Insertion keeps a search tree a search tree, adds the value to its
    /// contents and adds one node.
    pub proof fn lemma_inserted(self, v: T)
        requires
            self.is_search_tree(),
        ensures
            self.inserted(v).is_search_tree(),
            self.inserted(v).values() == self.values().insert(v),
            self.inserted(v).size() == self.size() + 1,
        decreases self,
    {
        match self {
            Tree::Null => {
                assert(self.inserted(v).values() =~= Multiset::empty().insert(v));
            },
            Tree::Node { data, left, right } => {
                if data.spec_le(&v) {
                    right.lemma_inserted(v);
                    assert(self.inserted(v).values() =~= self.values().insert(v));
                } else {
                    left.lemma_inserted(v);
                    assert(self.inserted(v).values() =~= self.values().insert(v));
                }
            },
        }
    }

    /// In a search tree the right-most value is one of its values and every
    /// value is ordered at or before it; only the empty tree has none.
    pub proof fn lemma_rightmost_is_max(&self)
        requires
            self.is_search_tree(),
        ensures
            self.rightmost() is None <==> self.size() == 0,
            self.rightmost() is None <==> self.values() =~= Multiset::empty(),
            self.rightmost() matches Some(m) ==> self.values().contains(m) && forall|x: T|
                self.values().contains(x) ==> x.spec_le(&m),
        decreases self,
    {
        match self {
            Tree::Null => {},
            Tree::Node { data, left, right } => {
                right.lemma_rightmost_is_max();
                let m = self.rightmost()->0;
                if **right is Null {
                    assert forall|x: T| self.values().contains(x) implies x.spec_le(&m) by {
                        T::lemma_le_total(&x, data);
                    }
                } else {
                    assert(data.spec_le(&m));
                    assert forall|x: T| self.values().contains(x) implies x.spec_le(&m) by {
                        if left.values().contains(x) {
                            T::lemma_le_total(&x, data);
                            T::lemma_le_transitive(&x, data, &m);
                        }
                    }
                }
                assert(self.values().count(*data) > 0);
            },
        }
    }

    /// Inserts `new_data`: into the right subtree where it is ordered at or
    /// after the node's value, into the left one otherwise, and as a new
    /// node in place of the first empty tree reached.
    pub fn put(&mut self, new_data: T)
        ensures
            *final(self) == old(self).inserted(new_data),
            old(self).is_search_tree() ==> {
                &&& final(self).is_search_tree()
                &&& final(self).values() == old(self).values().insert(new_data)
                &&& final(self).size() == old(self).size() + 1
            },
        decreases *old(self),
    {
        proof {
            if old(self).is_search_tree() {
                old(self).lemma_inserted(new_data);
            }
        }
        match self {
            Tree::Null => {
                *self = Tree::new_filled(new_data);
            },
            Tree::Node { data, left, right } => {
                if data.is_le(&new_data) {
                    right.put(new_data);
                } else {
                    left.put(new_data);
                }
            },
        }
    }

    /// A copy of the value of the right-most node, or `None` for the empty tree.
    pub fn find_max(&self) -> (r: Option<T>)
        ensures
            r == self.rightmost(),
            self.is_search_tree() ==> {
                &&& r is None <==> self.size() == 0
                &&& r matches Some(m) ==> self.values().contains(m) && forall|x: T|
                    self.values().contains(x) ==> x.spec_le(&m)
            },
        decreases self,
    {
        proof {
            if self.is_search_tree() {
                self.lemma_rightmost_is_max();
            }
        }
        match self {
            Tree::Null => None,
            Tree::Node { data, right, .. } => match **right {
                Tree::Null => Some(data.duplicate()),
                Tree::Node { .. } => right.find_max(),
            },
        }
    }
}

/// The mark drawn before a node's value: none for the root, a corner for the
/// last branch under its parent, a tee for the others.
pub open spec fn connector(is_tail: bool, is_first: bool) -> Seq<char> {
    if is_first {
        Seq::empty()
    } else if is_tail {
        seq!['\u{2514}', ' ']
    } else {
        seq!['\u{251C}', ' ']
    }
}

/// What a node adds to the prefix of the lines below it: nothing for the
/// root, blanks under a last branch, a vertical bar under the others.
pub open spec fn branch(is_tail: bool, is_first: bool) -> Seq<char> {
    if is_first {
        Seq::empty()
    } else if is_tail {
        seq![' ', ' ']
    } else {
        seq!['\u{2502}', ' ']
    }
}

/// The text that marks the empty tree.
pub open spec fn null_text() -> Seq<char> {
    seq!['N', 'u', 'l', 'l']
}

fn push_branch(out: &mut String, is_tail: bool, is_first: bool)
    ensures
        final(out)@ == old(out)@ + branch(is_tail, is_first),
{
    if !is_first {
        if is_tail {
            push_char(out, ' ');
        } else {
            push_char(out, '\u{2502}');
        }
        push_char(out, ' ');
    }
    assert(final(out)@ =~= old(out)@ + branch(is_tail, is_first));
}

fn push_connector(out: &mut String, is_tail: bool, is_first: bool)
    ensures
        final(out)@ == old(out)@ + connector(is_tail, is_first),
{
    if !is_first {
        if is_tail {
            push_char(out, '\u{2514}');
        } else {
            push_char(out, '\u{251C}');
        }
        push_char(out, ' ');
    }
    assert(final(out)@ =~= old(out)@ + connector(is_tail, is_first));
}

impl<T: TreeValue> Tree<T> {
    /// The lines drawn for this subtree: the node's value after `prefix` and
    /// its connector, then the right subtree, then the left one, each under
    /// the prefix extended by this node's branch. The right subtree is the
    /// last branch only when there is no left one; the left one always is.
    pub open spec fn diagram_lines(&self, prefix: Seq<char>, is_tail: bool, is_first: bool) -> Seq<char>
        decreases self,
    {
        match self {
            Tree::Null => Seq::empty(),
            Tree::Node { data, left, right } => {
                let below = prefix + branch(is_tail, is_first);
                let head = prefix + connector(is_tail, is_first) + indented(data.spec_text(), below)
                    + seq!['\n'];
                let right_lines = match **right {
                    Tree::Null => Seq::empty(),
                    Tree::Node { .. } => right.diagram_lines(below, **left is Null, false),
                };
                let left_lines = match **left {
                    Tree::Null => Seq::empty(),
                    Tree::Node { .. } => left.diagram_lines(below, true, false),
                };
                head + right_lines + left_lines
            },
        }
    }

    /// The whole diagram of the tree.
    pub open spec fn diagram(&self) -> Seq<char> {
        match self {
            Tree::Null => null_text(),
            Tree::Node { .. } => self.diagram_lines(Seq::empty(), true, true),
        }
    }

    /// Appends the lines of this subtree's diagram to `out`.
    pub fn _print(&self, prefix: String, is_tail: bool, out: &mut String, is_first: bool)
        ensures
            final(out)@ == old(out)@ + self.diagram_lines(prefix@, is_tail, is_first),
        decreases self,
    {
        match self {
            Tree::Null => {},
            Tree::Node { data, left, right } => {
                let ghost start = out@;
                let mut below = prefix.clone();
                push_branch(&mut below, is_tail, is_first);
                out.append(prefix.as_str());
                push_connector(out, is_tail, is_first);
                let t = data.text();
                push_indented(out, t.as_str(), below.as_str());
                push_char(out, '\n');
                let ghost head = prefix@ + connector(is_tail, is_first) + indented(
                    data.spec_text(),
                    below@,
                ) + seq!['\n'];
                assert(out@ =~= start + head);
                let ghost mid = out@;
                let ghost right_lines = match **right {
                    Tree::Null => Seq::<char>::empty(),
                    Tree::Node { .. } => right.diagram_lines(below@, **left is Null, false),
                };
                match **right {
                    Tree::Node { .. } => {
                        let left_empty = match **left {
                            Tree::Null => true,
                            Tree::Node { .. } => false,
                        };
                        right._print(below.clone(), left_empty, out, false);
                    },
                    Tree::Null => {},
                }
                assert(out@ =~= mid + right_lines);
                let ghost mid2 = out@;
                let ghost left_lines = match **left {
                    Tree::Null => Seq::<char>::empty(),
                    Tree::Node { .. } => left.diagram_lines(below@, true, false),
                };
                match **left {
                    Tree::Node { .. } => {
                        left._print(below, true, out, false);
                    },
                    Tree::Null => {},
                }
                assert(out@ =~= mid2 + left_lines);
                assert(self.diagram_lines(prefix@, is_tail, is_first) == head + right_lines + left_lines);
                assert(out@ =~= start + self.diagram_lines(prefix@, is_tail, is_first));
            },
        }
    }

    /// The diagram of the tree, or `Null` for the empty tree.
    pub fn render(&self) -> (r: String)
        ensures
            r@ == self.diagram(),
    {
        let mut out = String::new();
        match self {
            Tree::Null => {
                out.append("Null");
                proof {
                    reveal_strlit("Null");
                }
                assert(out@ =~= null_text());
            },
            Tree::Node { .. } => {
                self._print(String::new(), true, &mut out, true);
                assert(out@ =~= self.diagram());
            },
        }
        out
    }
}

impl<T: TreeValue> Tree<T> {
    /// Both trees are empty, or both have a root and the two root values are
    /// ordered each at or before the other. Subtrees are not looked at.
    pub open spec fn same_root(&self, other: &Tree<T>) -> bool {
        match self {
            Tree::Null => other is Null,
            Tree::Node { data: a, .. } => match other {
                Tree::Null => false,
                Tree::Node { data: b, .. } => a.spec_le(b) && b.spec_le(a),
            },
        }
    }

    /// The empty tree comes before every other tree, and two non-empty trees
    /// are ordered by their root values alone.
    pub open spec fn root_order(&self, other: &Tree<T>) -> Ordering {
        match self {
            Tree::Null => if other is Null {
                Ordering::Equal
            } else {
                Ordering::Less
            },
            Tree::Node { data: a, .. } => match other {
                Tree::Null => Ordering::Greater,
                Tree::Node { data: b, .. } => if a.spec_le(b) && b.spec_le(a) {
                    Ordering::Equal
                } else if a.spec_le(b) {
                    Ordering::Less
                } else {
                    Ordering::Greater
                },
            },
        }
    }

    /// Whether the two trees are equal by their roots alone.
    pub fn equals(&self, other: &Tree<T>) -> (r: bool)
        ensures
            r == self.same_root(other),
    {
        match self {
            Tree::Null => match other {
                Tree::Null => true,
                Tree::Node { .. } => false,
            },
            Tree::Node { data: a, .. } => match other {
                Tree::Null => false,
                Tree::Node { data: b, .. } => a.is_le(b) && b.is_le(a),
            },
        }
    }

    /// How the two trees are ordered by their roots alone.
    pub fn compare(&self, other: &Tree<T>) -> (r: Ordering)
        ensures
            r == self.root_order(other),
    {
        match self {
            Tree::Null => match other {
                Tree::Null => Ordering::Equal,
                Tree::Node { .. } => Ordering::Less,
            },
            Tree::Node { data: a, .. } => match other {
                Tree::Null => Ordering::Greater,
                Tree::Node { data: b, .. } => {
                    let ab = a.is_le(b);
                    let ba = b.is_le(a);
                    if ab && ba {
                        Ordering::Equal
                    } else if ab {
                        Ordering::Less
                    } else {
                        Ordering::Greater
                    }
                },
            },
        }
    }
}

impl<T: TreeValue> PartialEq for Tree<T> {
    fn eq(&self, other: &Tree<T>) -> (r: bool) {
        self.equals(other)
    }
}

impl<T: TreeValue> vstd::std_specs::cmp::PartialEqSpecImpl for Tree<T> {
    open spec fn obeys_eq_spec() -> bool {
        true
    }

    open spec fn eq_spec(&self, other: &Tree<T>) -> bool {
        self.same_root(other)
    }
}

impl<T: TreeValue> PartialOrd for Tree<T> {
    fn partial_cmp(&self, other: &Tree<T>) -> (r: Option<Ordering>) {
        Some(self.compare(other))
    }
}

impl<T: TreeValue> vstd::std_specs::cmp::PartialOrdSpecImpl for Tree<T> {
    open spec fn obeys_partial_cmp_spec() -> bool {
        true
    }

    open spec fn partial_cmp_spec(&self, other: &Tree<T>) -> Option<Ordering> {
        Some(self.root_order(other))
    }
}

/// A tree is ordered by its root value, the empty tree first, and is drawn
/// as its diagram.
impl<T: TreeValue> TreeValue for Tree<T> {
    open spec fn spec_le(&self, other: &Tree<T>) -> bool {
        match self {
            Tree::Null => true,
            Tree::Node { data: a, .. } => match other {
                Tree::Null => false,
                Tree::Node { data: b, .. } => a.spec_le(b),
            },
        }
    }

    open spec fn spec_text(&self) -> Seq<char> {
        self.diagram()
    }

    proof fn lemma_le_total(a: &Tree<T>, b: &Tree<T>) {
        if let (Tree::Node { data: x, .. }, Tree::Node { data: y, .. }) = (a, b) {
            T::lemma_le_total(x, y);
        }
    }

    proof fn lemma_le_transitive(a: &Tree<T>, b: &Tree<T>, c: &Tree<T>) {
        if let (Tree::Node { data: x, .. }, Tree::Node { data: y, .. }, Tree::Node { data: z, .. }) = (
            a,
            b,
            c,
        ) {
            T::lemma_le_transitive(x, y, z);
        }
    }

    fn is_le(&self, other: &Tree<T>) -> (r: bool) {
        match self {
            Tree::Null => true,
            Tree::Node { data: a, .. } => match other {
                Tree::Null => false,
                Tree::Node { data: b, .. } => a.is_le(b),
            },
        }
    }

    fn duplicate(&self) -> (r: Tree<T>)
        decreases self,
    {
        match self {
            Tree::Null => Tree::Null,
            Tree::Node { data, left, right } => {
                let l = (**left).duplicate();
                let r = (**right).duplicate();
                Tree::Node { data: data.duplicate(), left: Box::new(l), right: Box::new(r) }
            },
        }
    }

    fn text(&self) -> (r: String) {
        self.render()
    }
}

} // verus!
