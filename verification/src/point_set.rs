//! A set of points held by reference, each distinct point once.
//!
//! The members are kept in the order in which they came in, and a hash set of
//! one number for each member tells in constant time whether a point is among
//! them.

use vstd::prelude::*;
use std::collections::HashSet;
use crate::geometry::pow64;
use crate::point::Point;

verus! {

broadcast use vstd::std_specs::hash::group_hash_axioms;

/// The points that a sequence of references leads to, in order.
pub open spec fn values(items: Seq<&Point>) -> Seq<Point> {
    Seq::new(items.len(), |i: int| *items[i])
}

/// One number for each point: no two points have the same.
pub open spec fn key_of(p: Point) -> int {
    (p.x + 0x8000_0000_0000_0000) * pow64() + (p.y + 0x8000_0000_0000_0000)
}

/// The numbers of the points that a sequence of references leads to.
pub open spec fn keys_of(items: Seq<&Point>) -> Set<u128> {
    Set::new(|k: u128| exists|i: int| 0 <= i < items.len() && #[trigger] key_of(*items[i]) == k)
}

/// A finite set of points, each held as a reference into a slice that the
/// caller owns. Two references to equal points count as one member.
#[derive(Debug)]
pub struct PointSet<'a> {
    items: Vec<&'a Point>,
    keys: HashSet<u128>,
}

impl<'a> View for PointSet<'a> {
    type V = Set<Point>;

    closed spec fn view(&self) -> Set<Point> {
        values(self.items@).to_set()
    }
}

impl<'a> PointSet<'a> {
    #[verifier::type_invariant]
    spec fn indexed(self) -> bool {
        &&& values(self.items@).no_duplicates()
        &&& self.keys@ == keys_of(self.items@)
    }

    /// A set is always finite.
    pub proof fn lemma_finite(&self)
        ensures
            self@.finite(),
    {
        vstd::seq_lib::seq_to_set_is_finite(values(self.items@));
    }

    /// The empty set.
    pub fn new() -> (r: PointSet<'a>)
        ensures
            r@ == Set::<Point>::empty(),
    {
        let items: Vec<&'a Point> = Vec::new();
        let keys: HashSet<u128> = HashSet::new();
        assert(values(items@) =~= Seq::<Point>::empty());
        assert(keys@ =~= keys_of(items@));
        PointSet { items, keys }
    }

    /// The number of distinct points in the set.
    pub fn len(&self) -> (n: usize)
        ensures
            n == self@.len(),
    {
        proof {
            use_type_invariant(self);
            values(self.items@).unique_seq_to_set();
        }
        self.items.len()
    }

    /// Tells whether the set has no member.
    pub fn is_empty(&self) -> (r: bool)
        ensures
            r == (self@ == Set::<Point>::empty()),
    {
        proof {
            if self.items@.len() > 0 {
                assert(values(self.items@)[0] == *self.items@[0]);
                assert(self@.contains(*self.items@[0]));
            } else {
                assert(self@ =~= Set::<Point>::empty());
            }
        }
        self.items.len() == 0
    }

    /// Tells whether a point equal to `p` is in the set.
    pub fn contains(&self, p: &Point) -> (r: bool)
        ensures
            r == self@.contains(*p),
    {
        proof {
            use_type_invariant(self);
            lemma_key_tells_member(self.items@, *p);
        }
        let k = key(p);
        self.keys.contains(&k)
    }

    /// Adds `p` to the set. Returns `true` when no point equal to `p` was in it.
    pub fn insert(&mut self, p: &'a Point) -> (r: bool)
        ensures
            final(self)@ == old(self)@.insert(*p),
            r == !old(self)@.contains(*p),
    {
        if self.contains(p) {
            assert(self@.insert(*p) =~= self@);
            false
        } else {
            proof {
                use_type_invariant(&*self);
            }
            let mut taken = PointSet::new();
            std::mem::swap(self, &mut taken);
            let PointSet { mut items, mut keys } = taken;
            proof {
                lemma_push_distinct(items@, p);
            }
            items.push(p);
            keys.insert(key(p));
            *self = PointSet { items, keys };
            true
        }
    }

    /// The set of the points that are in `self` or in `other`.
    pub fn union(&self, other: &PointSet<'a>) -> (r: PointSet<'a>)
        ensures
            r@ == self@.union(other@),
    {
        let (mut items, mut keys) = indexed_copy(&self.items);
        proof {
            use_type_invariant(self);
        }
        let mut j: usize = 0;
        while j < other.items.len()
            invariant
                j <= other.items@.len(),
                values(items@).no_duplicates(),
                keys@ == keys_of(items@),
                values(items@).to_set() == self@.union(
                    values(other.items@).take(j as int).to_set(),
                ),
            decreases other.items@.len() - j,
        {
            let p = other.items[j];
            let ghost seen = values(other.items@).take(j as int);
            proof {
                assert(values(other.items@).take(j + 1) =~= seen.push(*p));
                seen.lemma_push_to_set_commute(*p);
                lemma_key_tells_member(items@, *p);
            }
            if keys.insert(key(p)) {
                proof {
                    lemma_push_distinct(items@, p);
                    assert(self@.union(seen.to_set()).insert(*p) =~= self@.union(
                        seen.to_set().insert(*p),
                    ));
                }
                items.push(p);
            } else {
                assert(self@.union(seen.to_set()) =~= self@.union(seen.to_set().insert(*p)));
            }
            j += 1;
        }
        assert(values(other.items@).take(j as int) =~= values(other.items@));
        PointSet { items, keys }
    }

    /// The members, each distinct point once, in the order in which they came in.
    pub fn to_vec(&self) -> (r: Vec<&'a Point>)
        ensures
            values(r@).no_duplicates(),
            values(r@).to_set() == self@,
    {
        proof {
            use_type_invariant(self);
        }
        let mut r: Vec<&'a Point> = Vec::new();
        let mut i: usize = 0;
        while i < self.items.len()
            invariant
                i <= self.items@.len(),
                r@ == self.items@.take(i as int),
            decreases self.items@.len() - i,
        {
            r.push(self.items[i]);
            assert(self.items@.take(i + 1) =~= self.items@.take(i as int).push(
                self.items@[i as int],
            ));
            i += 1;
        }
        assert(self.items@.take(i as int) =~= self.items@);
        r
    }
}

/// The number of a point.
fn key(p: &Point) -> (k: u128)
    ensures
        k == key_of(*p),
{
    let x = (p.x as i128 + 0x8000_0000_0000_0000) as u128;
    let y = (p.y as i128 + 0x8000_0000_0000_0000) as u128;
    x * 0x1_0000_0000_0000_0000 + y
}

/// A copy of `items` with the numbers of its points.
fn indexed_copy<'a>(items: &Vec<&'a Point>) -> (r: (Vec<&'a Point>, HashSet<u128>))
    ensures
        r.0@ == items@,
        r.1@ == keys_of(items@),
{
    let mut copy: Vec<&'a Point> = Vec::new();
    let mut keys: HashSet<u128> = HashSet::new();
    assert(keys@ =~= keys_of(copy@));
    let mut i: usize = 0;
    while i < items.len()
        invariant
            i <= items@.len(),
            copy@ == items@.take(i as int),
            keys@ == keys_of(copy@),
        decreases items@.len() - i,
    {
        let p = items[i];
        proof {
            lemma_keys_push(copy@, p);
            assert(items@.take(i + 1) =~= items@.take(i as int).push(p));
        }
        copy.push(p);
        keys.insert(key(p));
        i += 1;
    }
    assert(items@.take(i as int) =~= items@);
    (copy, keys)
}

/// Points with the same number are the same point.
pub proof fn lemma_key_injective(p: Point, q: Point)
    ensures
        key_of(p) == key_of(q) <==> p == q,
        0 <= key_of(p) <= u128::MAX,
{
}

/// Whether a point is among `items` shows in the numbers of their points.
proof fn lemma_key_tells_member(items: Seq<&Point>, p: Point)
    ensures
        keys_of(items).contains(key_of(p) as u128) <==> values(items).to_set().contains(p),
{
    lemma_key_injective(p, p);
    if keys_of(items).contains(key_of(p) as u128) {
        let i = choose|i: int| 0 <= i < items.len() && #[trigger] key_of(*items[i]) == key_of(p);
        lemma_key_injective(*items[i], p);
        assert(values(items)[i] == p);
    }
    if values(items).to_set().contains(p) {
        let i = choose|i: int| 0 <= i < values(items).len() && values(items)[i] == p;
        assert(key_of(*items[i]) == key_of(p));
    }
}

/// Appending a point adds its number to the numbers.
proof fn lemma_keys_push(items: Seq<&Point>, p: &Point)
    ensures
        keys_of(items.push(p)) == keys_of(items).insert(key_of(*p) as u128),
{
    lemma_key_injective(*p, *p);
    assert forall|k: u128| keys_of(items.push(p)).contains(k) <==> keys_of(items).insert(
        key_of(*p) as u128,
    ).contains(k) by {
        if keys_of(items.push(p)).contains(k) {
            let i = choose|i: int|
                0 <= i < items.push(p).len() && #[trigger] key_of(*items.push(p)[i]) == k;
            if i < items.len() {
                assert(key_of(*items[i]) == k);
            }
        }
        if keys_of(items).contains(k) {
            let i = choose|i: int| 0 <= i < items.len() && #[trigger] key_of(*items[i]) == k;
            assert(key_of(*items.push(p)[i]) == k);
        }
        if k == key_of(*p) as u128 {
            assert(key_of(*items.push(p)[items.len() as int]) == k);
        }
    }
    assert(keys_of(items.push(p)) =~= keys_of(items).insert(key_of(*p) as u128));
}

/// Appending a point that is not yet among `items` keeps the points distinct
/// and adds it to their set and its number to their numbers.
proof fn lemma_push_distinct(items: Seq<&Point>, p: &Point)
    requires
        values(items).no_duplicates(),
        !values(items).to_set().contains(*p),
    ensures
        values(items.push(p)).no_duplicates(),
        values(items.push(p)).to_set() == values(items).to_set().insert(*p),
        keys_of(items.push(p)) == keys_of(items).insert(key_of(*p) as u128),
{
    lemma_keys_push(items, p);
    assert(values(items.push(p)) =~= values(items).push(*p));
    values(items).lemma_push_to_set_commute(*p);
    assert forall|i: int, j: int|
        0 <= i < values(items).push(*p).len() && 0 <= j < values(items).push(*p).len() && i
            != j implies values(items).push(*p)[i] != values(items).push(*p)[j] by {
        if i < items.len() {
            assert(values(items).contains(values(items)[i]));
        }
        if j < items.len() {
            assert(values(items).contains(values(items)[j]));
        }
    }
}

} // verus!
