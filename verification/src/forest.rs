//! Decision forests: trees that test one feature at a time against a
//! threshold and end in the outcome counts of a leaf. The features may be
//! of any type; how two of them compare is the caller's to say.

use crate::text::{chars_of, texts_model};
use vstd::prelude::*;

verus! {

/// A node of a decision tree.
#[derive(Debug)]
pub enum DecisionTreeNode<T> {
    /// A test of one feature against a threshold: on to the left child
    /// where the feature is at most the threshold, to the right child where
    /// it is not.
    Branch { fid: usize, threshold: T, lhs: Box<DecisionTreeNode<T>>, rhs: Box<DecisionTreeNode<T>> },
    /// An outcome: how many examples at this leaf were not of the class,
    /// and how many were.
    Leaf { no: T, yes: T },
}

impl<T> DecisionTreeNode<T> {
    /// Whether every feature that the tree tests is among the first `n`.
    pub open spec fn indexes_within(self, n: nat) -> bool
        decreases self,
    {
        match self {
            DecisionTreeNode::Branch { fid, threshold, lhs, rhs } => fid < n
                && lhs.indexes_within(n) && rhs.indexes_within(n),
            DecisionTreeNode::Leaf { no, yes } => true,
        }
    }

    /// Whether the features can lead to the outcome `(no, yes)`, going by
    /// what `at_most` may answer when it is asked whether a feature is at
    /// most a threshold.
    pub open spec fn leads_to<F: Fn(&T, &T) -> bool>(
        self,
        features: Seq<T>,
        at_most: F,
        outcome: (T, T),
    ) -> bool
        decreases self,
    {
        match self {
            DecisionTreeNode::Branch { fid, threshold, lhs, rhs } => {
                ||| call_ensures(at_most, (&features[fid as int], &threshold), true)
                    && lhs.leads_to(features, at_most, outcome)
                ||| call_ensures(at_most, (&features[fid as int], &threshold), false)
                    && rhs.leads_to(features, at_most, outcome)
            },
            DecisionTreeNode::Leaf { no, yes } => outcome == (no, yes),
        }
    }

    /// Whether every feature that the tree tests is among the first `n`.
    pub fn tests_within(&self, n: usize) -> (yes: bool)
        ensures
            yes == self.indexes_within(n as nat),
        decreases self,
    {
        match self {
            DecisionTreeNode::Branch { fid, threshold, lhs, rhs } => *fid < n && lhs.tests_within(n)
                && rhs.tests_within(n),
            DecisionTreeNode::Leaf { no, yes } => true,
        }
    }

    /// The outcome that the features lead to: from the root, left at each
    /// branch whose feature is at most the threshold and right at the
    /// others, down to a leaf.
    pub fn predict<F: Fn(&T, &T) -> bool>(&self, features: &[T], at_most: &F) -> (outcome: (T, T))
        where T: Copy
        requires
            self.indexes_within(features@.len()),
            forall|a: &T, b: &T| call_requires(*at_most, (a, b)),
        ensures
            self.leads_to(features@, *at_most, outcome),
        decreases self,
    {
        match self {
            DecisionTreeNode::Branch { fid, threshold, lhs, rhs } => {
                if at_most(&features[*fid], threshold) {
                    lhs.predict(features, at_most)
                } else {
                    rhs.predict(features, at_most)
                }
            },
            DecisionTreeNode::Leaf { no, yes } => (*no, *yes),
        }
    }
}

/// Where `name` first stands among `names`.
pub open spec fn first_position(names: Seq<Seq<char>>, name: Seq<char>) -> Option<int>
    decreases names.len(),
{
    if names.len() == 0 {
        None
    } else {
        match first_position(names.drop_last(), name) {
            Some(i) => Some(i),
            None => if names.last() == name {
                Some(names.len() - 1)
            } else {
                None
            },
        }
    }
}

/// The features of a page laid out by name: each feature goes to the place
/// where its name first stands among `names`, a feature whose name is not
/// among them goes nowhere, and a place that no feature goes to holds
/// `zero`. Of two features of one name the later one stays.
pub open spec fn laid_out<T>(names: Seq<Seq<char>>, features: Seq<(String, T)>, zero: T) -> Seq<T>
    decreases features.len(),
{
    if features.len() == 0 {
        Seq::new(names.len(), |i: int| zero)
    } else {
        let before = laid_out(names, features.drop_last(), zero);
        match first_position(names, features.last().0@) {
            Some(i) => before.update(i, features.last().1),
            None => before,
        }
    }
}

/// The trees of a sequence of forests, in order.
pub open spec fn trees_of<T>(forests: Seq<Vec<Box<DecisionTreeNode<T>>>>) -> Seq<
    DecisionTreeNode<T>,
>
    decreases forests.len(),
{
    if forests.len() == 0 {
        Seq::empty()
    } else {
        trees_of(forests.drop_last()) + Seq::new(
            forests.last()@.len(),
            |i: int| *forests.last()@[i],
        )
    }
}

/// A name that stands among the first names stands among all of them, at
/// the same place.
pub proof fn lemma_first_position_stays(names: Seq<Seq<char>>, name: Seq<char>, k: int)
    requires
        0 <= k <= names.len(),
        first_position(names.take(k), name) is Some,
    ensures
        first_position(names, name) == first_position(names.take(k), name),
    decreases names.len() - k,
{
    if k == names.len() {
        assert(names.take(k) =~= names);
    } else {
        assert(names.take(k + 1).drop_last() =~= names.take(k));
        lemma_first_position_stays(names, name, k + 1);
    }
}

/// A place that is found is a place among the names.
pub proof fn lemma_first_position_bounds(names: Seq<Seq<char>>, name: Seq<char>)
    ensures
        first_position(names, name) matches Some(i) ==> 0 <= i < names.len() && names[i] == name,
    decreases names.len(),
{
    if names.len() > 0 {
        lemma_first_position_bounds(names.drop_last(), name);
    }
}

/// Whether two texts are the same.
fn same_chars(a: &Vec<char>, b: &Vec<char>) -> (same: bool)
    ensures
        same == (a@ == b@),
{
    if a.len() != b.len() {
        return false;
    }
    let mut i: usize = 0;
    while i < a.len()
        invariant
            a@.len() == b@.len(),
            i <= a@.len(),
            a@.take(i as int) == b@.take(i as int),
        decreases a@.len() - i,
    {
        if a[i] != b[i] {
            return false;
        }
        i += 1;
        assert(a@.take(i as int) =~= a@.take(i - 1).push(a@[i - 1]));
        assert(b@.take(i as int) =~= b@.take(i - 1).push(b@[i - 1]));
    }
    assert(a@.take(a@.len() as int) =~= a@);
    assert(b@.take(b@.len() as int) =~= b@);
    true
}

/// Where a feature stands in the layout that the names give: at the place
/// of the first name that is the same.
pub fn feature_index(names: &Vec<String>, name: &str) -> (index: Option<usize>)
    ensures
        first_position(texts_model(names@), name@) == match index {
            Some(i) => Some(i as int),
            None => None,
        },
{
    let ghost all = texts_model(names@);
    let wanted = chars_of(name);
    let mut i: usize = 0;
    assert(all.take(0) =~= Seq::empty());
    while i < names.len()
        invariant
            i <= names@.len(),
            all == texts_model(names@),
            wanted@ == name@,
            first_position(all.take(i as int), name@) is None,
        decreases names@.len() - i,
    {
        let candidate = chars_of(names[i].as_str());
        proof {
            assert(all.take(i + 1).drop_last() =~= all.take(i as int));
            assert(all.take(i + 1).last() == names@[i as int]@);
        }
        if same_chars(&candidate, &wanted) {
            proof {
                lemma_first_position_stays(all, name@, i + 1);
            }
            return Some(i);
        }
        i += 1;
    }
    assert(all.take(names@.len() as int) =~= all);
    None
}

/// A model: forests of decision trees, and the names of the features in
/// the order in which the trees number them.
#[derive(Debug)]
pub struct PyForestModel<T> {
    pub feature_names: Vec<String>,
    pub forest: Vec<Vec<Box<DecisionTreeNode<T>>>>,
}

impl<T> PyForestModel<T> {
    /// All the trees of the model, forest after forest.
    pub open spec fn trees(self) -> Seq<DecisionTreeNode<T>> {
        trees_of(self.forest@)
    }

    /// Whether every feature that a tree of the model tests is among the
    /// first `n`.
    pub open spec fn indexes_within(self, n: nat) -> bool {
        forall|j: int, i: int|
            0 <= j < self.forest@.len() && 0 <= i < self.forest@[j]@.len() ==> (
            #[trigger] self.forest@[j]@[i]).indexes_within(n)
    }

    /// Whether the trees test no feature but those that the model names.
    pub fn is_well_indexed(&self) -> (yes: bool)
        ensures
            yes == self.indexes_within(self.feature_names@.len()),
    {
        let n = self.feature_names.len();
        let mut j: usize = 0;
        while j < self.forest.len()
            invariant
                j <= self.forest@.len(),
                n == self.feature_names@.len(),
                forall|a: int, b: int|
                    0 <= a < j && 0 <= b < self.forest@[a]@.len() ==> (
                    #[trigger] self.forest@[a]@[b]).indexes_within(n as nat),
            decreases self.forest@.len() - j,
        {
            let trees = &self.forest[j];
            let mut i: usize = 0;
            while i < trees.len()
                invariant
                    i <= trees@.len(),
                    j < self.forest@.len(),
                    n == self.feature_names@.len(),
                    trees == self.forest@[j as int],
                    forall|b: int| 0 <= b < i ==> (#[trigger] trees@[b]).indexes_within(n as nat),
                decreases trees@.len() - i,
            {
                if !trees[i].tests_within(n) {
                    assert(!self.forest@[j as int]@[i as int].indexes_within(n as nat));
                    return false;
                }
                i += 1;
            }
            j += 1;
        }
        true
    }

    /// The features of a page laid out as the trees number them. The
    /// features come as pairs of a name and a value, in any order.
    pub fn layout(&self, features: &Vec<(String, T)>, zero: T) -> (dense: Vec<T>)
        where T: Copy
        ensures
            dense@ == laid_out(texts_model(self.feature_names@), features@, zero),
            dense@.len() == self.feature_names@.len(),
    {
        let ghost names = texts_model(self.feature_names@);
        let mut dense: Vec<T> = Vec::new();
        let mut i: usize = 0;
        while i < self.feature_names.len()
            invariant
                i <= self.feature_names@.len(),
                dense@ == Seq::new(i as nat, |k: int| zero),
            decreases self.feature_names@.len() - i,
        {
            dense.push(zero);
            i += 1;
            assert(dense@ =~= Seq::new(i as nat, |k: int| zero));
        }
        let mut k: usize = 0;
        assert(features@.take(0) =~= Seq::empty());
        while k < features.len()
            invariant
                k <= features@.len(),
                names == texts_model(self.feature_names@),
                dense@.len() == names.len(),
                dense@ == laid_out(names, features@.take(k as int), zero),
            decreases features@.len() - k,
        {
            proof {
                assert(features@.take(k + 1).drop_last() =~= features@.take(k as int));
                lemma_first_position_bounds(names, features@[k as int].0@);
            }
            match feature_index(&self.feature_names, features[k].0.as_str()) {
                Some(index) => {
                    dense.set(index, features[k].1);
                },
                None => {},
            }
            k += 1;
        }
        assert(features@.take(features@.len() as int) =~= features@);
        dense
    }

    /// The outcome that the features lead to in each tree of the model,
    /// forest after forest.
    pub fn outcomes<F: Fn(&T, &T) -> bool>(&self, features: &[T], at_most: &F) -> (found: Vec<
        (T, T),
    >)
        where T: Copy
        requires
            self.indexes_within(features@.len()),
            forall|a: &T, b: &T| call_requires(*at_most, (a, b)),
        ensures
            found@.len() == self.trees().len(),
            forall|k: int|
                0 <= k < found@.len() ==> (#[trigger] self.trees()[k]).leads_to(
                    features@,
                    *at_most,
                    found@[k],
                ),
    {
        let mut found: Vec<(T, T)> = Vec::new();
        let mut j: usize = 0;
        assert(self.forest@.take(0) =~= Seq::empty());
        while j < self.forest.len()
            invariant
                j <= self.forest@.len(),
                self.indexes_within(features@.len()),
                forall|a: &T, b: &T| call_requires(*at_most, (a, b)),
                found@.len() == trees_of(self.forest@.take(j as int)).len(),
                forall|k: int|
                    0 <= k < found@.len() ==> (#[trigger] trees_of(
                        self.forest@.take(j as int),
                    )[k]).leads_to(features@, *at_most, found@[k]),
            decreases self.forest@.len() - j,
        {
            let trees = &self.forest[j];
            let ghost before = trees_of(self.forest@.take(j as int));
            let ghost here = Seq::new(trees@.len(), |i: int| *trees@[i]);
            proof {
                assert(self.forest@.take(j + 1).drop_last() =~= self.forest@.take(j as int));
                assert(trees_of(self.forest@.take(j + 1)) == before + here);
            }
            let mut i: usize = 0;
            while i < trees.len()
                invariant
                    i <= trees@.len(),
                    j < self.forest@.len(),
                    trees == self.forest@[j as int],
                    self.indexes_within(features@.len()),
                    forall|a: &T, b: &T| call_requires(*at_most, (a, b)),
                    here == Seq::new(trees@.len(), |i: int| *trees@[i]),
                    found@.len() == before.len() + i,
                    forall|k: int|
                        0 <= k < found@.len() ==> (#[trigger] (before + here)[k]).leads_to(
                            features@,
                            *at_most,
                            found@[k],
                        ),
                decreases trees@.len() - i,
            {
                assert(self.forest@[j as int]@[i as int].indexes_within(features@.len()));
                let outcome = trees[i].predict(features, at_most);
                found.push(outcome);
                assert((before + here)[before.len() + i] == *trees@[i as int]);
                i += 1;
            }
            j += 1;
        }
        assert(self.forest@.take(self.forest@.len() as int) =~= self.forest@);
        found
    }
}

} // verus!
