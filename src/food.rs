//! The food index: a multiset of grid points kept in an R-tree.

use vstd::prelude::*;
use vstd::multiset::Multiset;

verus! {

/// Largest side of a world. The R-tree computes areas and squared distances
/// in `i32`; coordinates below this bound keep those sums far from overflow.
pub const MAX_SIDE: i32 = 4096;

/// The food markers of a world, duplicates permitted, kept in an R-tree of
/// points. What it holds is known to proofs only through `markers`.
#[verifier::external_body]
pub struct FoodTree {
    tree: rstar::RTree<[i32; 2]>,
}

/// The food markers an R-tree of points holds, with multiplicity.
pub uninterp spec fn markers(t: FoodTree) -> Multiset<(i32, i32)>;

pub open spec fn in_side(v: i32) -> bool {
    0 <= v < MAX_SIDE
}

/// Relies on `rstar::RTree::new`: an empty tree.
#[verifier::external_body]
fn tree_new() -> (r: FoodTree)
    ensures
        markers(r) =~= Multiset::empty(),
{
    FoodTree { tree: rstar::RTree::new() }
}

/// Relies on `rstar::RTree::insert`: the point is added once more, duplicates kept.
#[verifier::external_body]
fn tree_insert(t: &mut FoodTree, x: i32, y: i32)
    requires
        in_side(x),
        in_side(y),
    ensures
        markers(*final(t)) == markers(*old(t)).insert((x, y)),
{
    t.tree.insert([x, y])
}

/// Relies on `rstar::RTree::locate_at_point`: for points, `contains_point` is
/// equality, so some element is found exactly when the point is held.
#[verifier::external_body]
fn tree_has(t: &FoodTree, x: i32, y: i32) -> (r: bool)
    requires
        in_side(x),
        in_side(y),
    ensures
        r == markers(*t).contains((x, y)),
{
    t.tree.locate_at_point(&[x, y]).is_some()
}

/// Relies on `rstar::RTree::remove_at_point`: one element equal to the point
/// is removed if there is one, else the tree is unchanged.
#[verifier::external_body]
fn tree_remove_one(t: &mut FoodTree, x: i32, y: i32)
    requires
        in_side(x),
        in_side(y),
    ensures
        markers(*final(t)) == markers(*old(t)).remove((x, y)),
{
    t.tree.remove_at_point(&[x, y]);
}

/// Relies on `rstar::RTree::iter`: every element once, in an unspecified order.
#[verifier::external_body]
fn tree_points(t: &FoodTree) -> (r: Vec<(i32, i32)>)
    ensures
        r@.to_multiset() == markers(*t),
{
    t.tree.iter().map(|p| (p[0], p[1])).collect()
}

impl FoodTree {
    pub closed spec fn view(&self) -> Multiset<(i32, i32)> {
        markers(*self)
    }

    pub fn new() -> (r: FoodTree)
        ensures
            r@ =~= Multiset::empty(),
    {
        tree_new()
    }

    /// Adds one marker at `(x, y)`.
    pub fn insert(&mut self, x: i32, y: i32)
        requires
            in_side(x),
            in_side(y),
        ensures
            final(self)@ == old(self)@.insert((x, y)),
    {
        tree_insert(self, x, y)
    }

    /// Whether a marker lies exactly at `(x, y)`.
    pub fn present_at(&self, x: i32, y: i32) -> (r: bool)
        requires
            in_side(x),
            in_side(y),
        ensures
            r == self@.contains((x, y)),
    {
        tree_has(self, x, y)
    }

    /// Removes exactly one marker at `(x, y)`; does nothing where there is none.
    pub fn remove_one_at(&mut self, x: i32, y: i32)
        requires
            in_side(x),
            in_side(y),
        ensures
            final(self)@ == old(self)@.remove((x, y)),
    {
        tree_remove_one(self, x, y)
    }

    /// The positions of all markers, each as often as it is held.
    pub fn positions(&self) -> (r: Vec<(i32, i32)>)
        ensures
            r@.to_multiset() == self@,
    {
        tree_points(self)
    }
}

} // verus!
