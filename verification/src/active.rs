//! The growth frontier: a sparse set of cell indices kept in a compressed
//! bitmap.

use roaring::RoaringBitmap;
use vstd::prelude::*;

verus! {

#[verifier::external_type_specification]
#[verifier::external_body]
pub struct ExRoaringBitmap(RoaringBitmap);

/// The integers that a bitmap holds.
pub uninterp spec fn bitmap_members(b: RoaringBitmap) -> Set<u32>;

/// `RoaringBitmap::new` creates a bitmap that holds no integer.
pub assume_specification[ RoaringBitmap::new ]() -> (b: RoaringBitmap)
    ensures
        bitmap_members(b) == Set::<u32>::empty(),
;

/// `RoaringBitmap::insert` adds `value` to the integers held and keeps the
/// others; it returns whether `value` was absent before.
pub assume_specification[ RoaringBitmap::insert ](b: &mut RoaringBitmap, value: u32) -> (absent:
    bool)
    ensures
        bitmap_members(*final(b)) == bitmap_members(*old(b)).insert(value),
        absent == !bitmap_members(*old(b)).contains(value),
;

/// `RoaringBitmap::contains` tells whether `value` is among the integers
/// held.
pub assume_specification[ RoaringBitmap::contains ](b: &RoaringBitmap, value: u32) -> (found: bool)
    ensures
        found == bitmap_members(*b).contains(value),
;

/// `RoaringBitmap::clear` removes every integer.
pub assume_specification[ RoaringBitmap::clear ](b: &mut RoaringBitmap)
    ensures
        bitmap_members(*final(b)) == Set::<u32>::empty(),
;

/// `RoaringBitmap::is_empty` tells whether the bitmap holds no integer.
pub assume_specification[ RoaringBitmap::is_empty ](b: &RoaringBitmap) -> (none: bool)
    ensures
        none == (bitmap_members(*b) == Set::<u32>::empty()),
;

/// `RoaringBitmap::len` counts the distinct integers held.
pub assume_specification[ RoaringBitmap::len ](b: &RoaringBitmap) -> (n: u64)
    ensures
        n == bitmap_members(*b).len(),
;

/// `RoaringBitmap::iter` walks the integers held in ascending order, each
/// once; this collects the walk into a vector.
#[verifier::external_body]
fn bitmap_values(b: &RoaringBitmap) -> (values: Vec<u32>)
    ensures
        ascending(values@),
        values@.to_set() == bitmap_members(*b),
{
    b.iter().collect()
}

/// Whether each element of `s` is smaller than the next.
pub open spec fn ascending(s: Seq<u32>) -> bool {
    forall|i: int, j: int| 0 <= i < j < s.len() ==> s[i] < s[j]
}

/// A set of cell indices.
pub struct ActiveSet {
    bits: RoaringBitmap,
}

impl View for ActiveSet {
    type V = Set<u32>;

    closed spec fn view(&self) -> Set<u32> {
        bitmap_members(self.bits)
    }
}

impl ActiveSet {
    /// The empty set.
    pub fn new() -> (s: ActiveSet)
        ensures
            s@ == Set::<u32>::empty(),
    {
        ActiveSet { bits: RoaringBitmap::new() }
    }

    /// Whether the set has no element.
    pub fn is_empty(&self) -> (none: bool)
        ensures
            none == (self@ == Set::<u32>::empty()),
    {
        self.bits.is_empty()
    }

    /// Whether `index` is in the set.
    pub fn contains(&self, index: u32) -> (found: bool)
        ensures
            found == self@.contains(index),
    {
        self.bits.contains(index)
    }

    /// The number of elements.
    pub fn len(&self) -> (n: u64)
        ensures
            n == self@.len(),
    {
        self.bits.len()
    }

    /// Adds `index`; a second insertion of the same index changes nothing.
    /// Returns whether `index` was absent.
    pub fn insert(&mut self, index: u32) -> (absent: bool)
        ensures
            final(self)@ == old(self)@.insert(index),
            absent == !old(self)@.contains(index),
    {
        self.bits.insert(index)
    }

    /// Removes every element.
    pub fn clear(&mut self)
        ensures
            final(self)@ == Set::<u32>::empty(),
    {
        self.bits.clear()
    }

    /// The elements in ascending order.
    pub fn iterate(&self) -> (values: Vec<u32>)
        ensures
            ascending(values@),
            values@.to_set() == self@,
            values@.no_duplicates(),
            self@.finite(),
            values@.len() == self@.len(),
    {
        let values = bitmap_values(&self.bits);
        proof {
            assert(values@.no_duplicates());
            values@.unique_seq_to_set();
            vstd::seq_lib::seq_to_set_is_finite(values@);
        }
        values
    }
}

/// A set of indices below `n` is finite and has at most `n` elements.
pub proof fn lemma_below_len(s: Set<u32>, n: u32)
    requires
        forall|i: u32| s.contains(i) ==> i < n,
    ensures
        s.finite(),
        s.len() <= n,
    decreases n,
{
    if n == 0 {
        assert(s =~= Set::<u32>::empty());
    } else {
        let m = (n - 1) as u32;
        let rest = s.remove(m);
        lemma_below_len(rest, m);
        if s.contains(m) {
            assert(s =~= rest.insert(m));
        } else {
            assert(s =~= rest);
        }
    }
}

/// Inserting an index that is already present leaves the set as it was.
pub proof fn lemma_insert_idempotent(s: Set<u32>, index: u32)
    ensures
        s.insert(index).insert(index) == s.insert(index),
        s.contains(index) ==> s.insert(index) == s,
{
    assert(s.insert(index).insert(index) =~= s.insert(index));
    if s.contains(index) {
        assert(s.insert(index) =~= s);
    }
}

} // verus!
