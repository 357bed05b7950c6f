//! A finite set of digests.

use vstd::prelude::*;

verus! {

/// The digests that a list of stored hashes stands for, in order.
pub open spec fn digests(items: Seq<crate::Hash>) -> Seq<Seq<u8>> {
    items.map_values(|hash: crate::Hash| hash@)
}

/// A finite set of digests, viewed as the mathematical set of their byte
/// strings. No digest is stored twice.
#[derive(Debug)]
pub struct Hashes {
    items: Vec<crate::Hash>,
}

impl View for Hashes {
    type V = Set<Seq<u8>>;

    closed spec fn view(&self) -> Set<Seq<u8>> {
        digests(self.items@).to_set()
    }
}

/// Whether two digests hold the same bytes.
pub fn same_digest(a: &crate::Hash, b: &crate::Hash) -> (same: bool)
    ensures
        same == (a@ == b@),
{
    let same = a == b;
    proof {
        if same {
            assert(a@ =~= b@);
        }
    }
    same
}

/// A copy of a digest.
pub fn copy_digest(hash: &crate::Hash) -> (copy: crate::Hash)
    ensures
        copy@ == hash@,
{
    hash.clone()
}

impl Hashes {
    #[verifier::type_invariant]
    spec fn distinct(&self) -> bool {
        digests(self.items@).no_duplicates()
    }

    /// The empty set.
    pub fn new() -> (set: Self)
        ensures
            set@ == Set::<Seq<u8>>::empty(),
    {
        Hashes { items: Vec::new() }
    }

    /// The number of digests in the set.
    pub fn len(&self) -> (n: usize)
        ensures
            self@.finite(),
            n == self@.len(),
    {
        proof {
            use_type_invariant(self);
            vstd::seq_lib::seq_to_set_is_finite(digests(self.items@));
            digests(self.items@).unique_seq_to_set();
        }
        self.items.len()
    }

    /// Whether the set holds no digest.
    pub fn is_empty(&self) -> (empty: bool)
        ensures
            empty == (self@ == Set::<Seq<u8>>::empty()),
    {
        proof {
            if self.items@.len() > 0 {
                assert(digests(self.items@)[0] == self.items@[0]@);
                assert(self@.contains(self.items@[0]@));
            } else {
                assert(self@ =~= Set::<Seq<u8>>::empty());
            }
        }
        self.items.len() == 0
    }

    /// Whether `hash` is in the set.
    pub fn contains(&self, hash: &crate::Hash) -> (found: bool)
        ensures
            found == self@.contains(hash@),
    {
        let mut i: usize = 0;
        while i < self.items.len()
            invariant
                i <= self.items@.len(),
                forall|j: int| 0 <= j < i ==> self.items@[j]@ != hash@,
            decreases self.items@.len() - i,
        {
            if same_digest(&self.items[i], hash) {
                proof {
                    assert(digests(self.items@)[i as int] == hash@);
                }
                return true;
            }
            i += 1;
        }
        false
    }

    /// Adds `hash` to the set, and says whether it was new to it.
    pub fn insert(&mut self, hash: crate::Hash) -> (fresh: bool)
        ensures
            final(self)@ == old(self)@.insert(hash@),
            fresh == !old(self)@.contains(hash@),
    {
        if self.contains(&hash) {
            false
        } else {
            proof {
                use_type_invariant(&*self);
                let before = digests(self.items@);
                assert(digests(self.items@.push(hash)) =~= before.push(hash@));
                before.lemma_push_to_set_commute(hash@);
            }
            // The invariant holds at every step: the list is taken out,
            // extended and put back.
            let mut items: Vec<crate::Hash> = Vec::new();
            std::mem::swap(&mut items, &mut self.items);
            items.push(hash);
            self.items = items;
            true
        }
    }

    /// The digests of `self` that are in `other`, where `members` is set,
    /// or else those that are not.
    fn partition(&self, other: &Hashes, members: bool) -> (part: Hashes)
        ensures
            part@ == if members {
                self@.intersect(other@)
            } else {
                self@.difference(other@)
            },
    {
        let mut part = Hashes::new();
        let mut i: usize = 0;
        while i < self.items.len()
            invariant
                i <= self.items@.len(),
                part@ == if members {
                    digests(self.items@.take(i as int)).to_set().intersect(other@)
                } else {
                    digests(self.items@.take(i as int)).to_set().difference(other@)
                },
            decreases self.items@.len() - i,
        {
            proof {
                let seen = digests(self.items@.take(i as int));
                let next = self.items@[i as int]@;
                assert(digests(self.items@.take(i + 1)) =~= seen.push(next));
                seen.lemma_push_to_set_commute(next);
            }
            if other.contains(&self.items[i]) == members {
                part.insert(copy_digest(&self.items[i]));
            }
            i += 1;
        }
        proof {
            assert(self.items@.take(self.items@.len() as int) =~= self.items@);
        }
        part
    }

    /// The digests of `self` that are not in `other`.
    pub fn difference(&self, other: &Hashes) -> (rest: Hashes)
        ensures
            rest@ == self@.difference(other@),
    {
        self.partition(other, false)
    }

    /// The digests that are in both sets.
    pub fn intersection(&self, other: &Hashes) -> (common: Hashes)
        ensures
            common@ == self@.intersect(other@),
    {
        self.partition(other, true)
    }

    /// Adds every digest of `other` to the set.
    pub fn extend(&mut self, other: &Hashes)
        ensures
            final(self)@ == old(self)@.union(other@),
    {
        let mut i: usize = 0;
        while i < other.items.len()
            invariant
                i <= other.items@.len(),
                self@ == old(self)@.union(digests(other.items@.take(i as int)).to_set()),
            decreases other.items@.len() - i,
        {
            proof {
                let seen = digests(other.items@.take(i as int));
                let next = other.items@[i as int]@;
                assert(digests(other.items@.take(i + 1)) =~= seen.push(next));
                seen.lemma_push_to_set_commute(next);
            }
            self.insert(copy_digest(&other.items[i]));
            i += 1;
        }
        proof {
            assert(other.items@.take(other.items@.len() as int) =~= other.items@);
        }
    }

    /// Removes every digest of `other` from the set.
    pub fn remove_all(&mut self, other: &Hashes)
        ensures
            final(self)@ == old(self)@.difference(other@),
    {
        let rest = self.difference(other);
        *self = rest;
    }
}

} // verus!
