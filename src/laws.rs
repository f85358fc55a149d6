//! What holds of every tree built by insertion, and of the root-only
//! comparisons.
use vstd::multiset::Multiset;
use vstd::prelude::*;

use core::cmp::Ordering;

use crate::tree::Tree;
use crate::value::TreeValue;

verus! {

/// The tree made by inserting the values of `s`, in order, into the empty tree.
pub open spec fn built_from<T: TreeValue>(s: Seq<T>) -> Tree<T>
    decreases s.len(),
{
    if s.len() == 0 {
        Tree::Null
    } else {
        built_from(s.drop_last()).inserted(s.last())
    }
}

/// A tree built by insertion is a search tree that holds exactly the
/// inserted values, one node for each.
pub proof fn lemma_built_from<T: TreeValue>(s: Seq<T>)
    ensures
        built_from(s).is_search_tree(),
        built_from(s).values() == s.to_multiset(),
        built_from(s).size() == s.len(),
    decreases s.len(),
{
    if s.len() == 0 {
        s.to_multiset_ensures();
        assert(s.to_multiset() =~= Multiset::empty());
    } else {
        lemma_built_from(s.drop_last());
        built_from(s.drop_last()).lemma_inserted(s.last());
        s.drop_last().to_multiset_ensures();
        assert(s.drop_last().push(s.last()) == s);
    }
}

/// Inserting the values of any sequence into the empty tree gives a tree
/// whose right-most value, the one `find_max` returns, is absent exactly
/// when the sequence is empty, and is otherwise one of the inserted values
/// that every inserted value is ordered at or before.
pub proof fn lemma_max_of_inserted<T: TreeValue>(s: Seq<T>)
    ensures
        built_from(s).rightmost() is None <==> s.len() == 0,
        built_from(s).rightmost() matches Some(m) ==> {
            &&& s.contains(m)
            &&& forall|i: int| 0 <= i < s.len() ==> #[trigger] s[i].spec_le(&m)
        },
{
    lemma_built_from(s);
    built_from(s).lemma_rightmost_is_max();
    s.to_multiset_ensures();
    if let Some(m) = built_from(s).rightmost() {
        assert forall|i: int| 0 <= i < s.len() implies #[trigger] s[i].spec_le(&m) by {
            assert(s.to_multiset().count(s[i]) > 0);
        }
    }
}

/// Inserting `n` values into the empty tree gives a tree of `n` nodes.
pub proof fn lemma_size_of_inserted<T: TreeValue>(s: Seq<T>)
    ensures
        built_from(s).size() == s.len(),
{
    lemma_built_from(s);
}

/// Two non-empty trees with the same root value are equal whatever their
/// subtrees hold.
pub proof fn lemma_equal_roots<T: TreeValue>(a: Tree<T>, b: Tree<T>)
    requires
        a is Node,
        b is Node,
        a->data == b->data,
    ensures
        a.same_root(&b),
        a.root_order(&b) == Ordering::Equal,
{
    T::lemma_le_total(&a->data, &a->data);
}

/// The empty tree comes before a tree of one value, whatever the value, and
/// is equal to the empty tree.
pub proof fn lemma_empty_first<T: TreeValue>(x: T)
    ensures
        Tree::<T>::Null.root_order(
            &Tree::Node { data: x, left: Box::new(Tree::Null), right: Box::new(Tree::Null) },
        ) == Ordering::Less,
        Tree::<T>::Null.root_order(&Tree::Null) == Ordering::Equal,
        Tree::<T>::Null.same_root(&Tree::Null),
{
}

/// The diagram is determined by the tree alone: equal trees draw the same text.
pub proof fn lemma_diagram_determined<T: TreeValue>(a: Tree<T>, b: Tree<T>)
    requires
        a == b,
    ensures
        a.diagram() == b.diagram(),
{
}

} // verus!
