//! The tracker that keeps an allocation shared by several owners from being
//! charged more than once during one report computation.
use std::collections::HashSet;
use vstd::prelude::*;
use vstd::std_specs::hash::*;

verus! {

broadcast use vstd::std_specs::hash::group_hash_axioms;

/// Allocation identities (addresses) already counted during the current pass.
pub struct SeenPointers {
    seen: HashSet<usize>,
}

/// What `was_seen(a)` answers when the tracker holds `seen`.
pub open spec fn seen_before(seen: Set<usize>, a: usize) -> bool {
    seen.contains(a)
}

/// What the tracker holds after `was_seen(a)`.
pub open spec fn after_seen(seen: Set<usize>, a: usize) -> Set<usize> {
    seen.insert(a)
}

/// The bytes charged for a run of `(address, size)` allocations visited in
/// order: an allocation counts only the first time its address comes up,
/// and not at all if it was seen before the run started.
pub open spec fn charged(allocs: Seq<(usize, usize)>, seen: Set<usize>) -> int
    decreases allocs.len(),
{
    if allocs.len() == 0 {
        0
    } else {
        let (a, size) = allocs[0];
        if seen_before(seen, a) {
            charged(allocs.skip(1), seen)
        } else {
            size + charged(allocs.skip(1), after_seen(seen, a))
        }
    }
}

/// The bytes of all the allocations, counted as often as they occur.
pub open spec fn total_size(allocs: Seq<(usize, usize)>) -> int
    decreases allocs.len(),
{
    if allocs.len() == 0 {
        0
    } else {
        allocs[0].1 + total_size(allocs.skip(1))
    }
}

impl View for SeenPointers {
    type V = Set<usize>;

    closed spec fn view(&self) -> Set<usize> {
        self.seen@
    }
}

impl SeenPointers {
    /// A tracker that has seen nothing yet.
    pub fn new() -> (r: SeenPointers)
        ensures
            r@ == Set::<usize>::empty(),
    {
        SeenPointers { seen: HashSet::new() }
    }

    /// Answers whether `ptr` was seen before in this pass, and remembers it.
    pub fn was_seen(&mut self, ptr: usize) -> (r: bool)
        ensures
            r == seen_before(old(self)@, ptr),
            final(self)@ == after_seen(old(self)@, ptr),
    {
        proof {
            lemma_usize_obeys_key_model();
        }
        !self.seen.insert(ptr)
    }

    /// Ends the pass: forgets every address and releases the storage.
    pub fn reset(&mut self)
        ensures
            final(self)@ == Set::<usize>::empty(),
    {
        self.seen = HashSet::new();
    }

    /// Sums the sizes of the allocations visited in order, charging each
    /// address only the first time it is met in this pass.
    pub fn charge(&mut self, allocs: &Vec<(usize, usize)>) -> (r: usize)
        requires
            total_size(allocs@) <= usize::MAX,
        ensures
            r == charged(allocs@, old(self)@),
            final(self)@ == old(self)@.union(allocs@.map_values(|p: (usize, usize)| p.0).to_set()),
    {
        let mut total: usize = 0;
        let mut i: usize = 0;
        proof {
            assert(allocs@.skip(0) =~= allocs@);
        }
        while i < allocs.len()
            invariant
                i <= allocs.len(),
                total_size(allocs@) <= usize::MAX,
                total + charged(allocs@.skip(i as int), self@) == charged(allocs@, old(self)@),
                total + total_size(allocs@.skip(i as int)) <= total_size(allocs@),
                self@ == old(self)@.union(
                    allocs@.subrange(0, i as int).map_values(|p: (usize, usize)| p.0).to_set(),
                ),
            decreases allocs.len() - i,
        {
            let (a, size) = allocs[i];
            let ghost before = self@;
            proof {
                lemma_charged_le_total(allocs@.skip(i as int), before);
                assert(allocs@.skip(i as int).skip(1) =~= allocs@.skip(i + 1));
                assert(allocs@.skip(i as int)[0] == (a, size));
                assert(total_size(allocs@.skip(i as int)) == size + total_size(allocs@.skip(i + 1)));
                lemma_charged_le_total(allocs@.skip(i + 1), before);
                assert(charged(allocs@.skip(i as int), before) == if seen_before(before, a) {
                    charged(allocs@.skip(i + 1), before)
                } else {
                    size + charged(allocs@.skip(i + 1), after_seen(before, a))
                });
            }
            if !self.was_seen(a) {
                total = total + size;
            }
            proof {
                if before.contains(a) {
                    assert(self@ =~= before);
                }
                let f = |p: (usize, usize)| p.0;
                assert(allocs@.subrange(0, i + 1) =~= allocs@.subrange(0, i as int).push((a, size)));
                assert(allocs@.subrange(0, i + 1).map_values(f) =~= allocs@.subrange(0, i as int).map_values(f).push(a));
                lemma_push_to_set(allocs@.subrange(0, i as int).map_values(f), a);
                assert(self@ =~= old(self)@.union(allocs@.subrange(0, i + 1).map_values(f).to_set()));
            }
            i = i + 1;
        }
        proof {
            assert(allocs@.subrange(0, allocs.len() as int) =~= allocs@);
        }
        total
    }
}

proof fn lemma_usize_obeys_key_model()
    ensures
        obeys_key_model::<usize>(),
{
}

proof fn lemma_push_to_set(s: Seq<usize>, a: usize)
    ensures
        s.push(a).to_set() == s.to_set().insert(a),
{
    assert(s.push(a).to_set() =~= s.to_set().insert(a)) by {
        assert forall|x: usize| s.push(a).to_set().contains(x) <==> s.to_set().insert(a).contains(x) by {
            if s.to_set().contains(x) {
                let j = choose|j: int| 0 <= j < s.len() && s[j] == x;
                assert(s.push(a)[j] == x);
            }
            if x == a {
                assert(s.push(a)[s.len() as int] == a);
            }
        }
    }
}

/// What is charged never exceeds the plain sum of the sizes.
pub proof fn lemma_charged_le_total(allocs: Seq<(usize, usize)>, seen: Set<usize>)
    ensures
        0 <= charged(allocs, seen) <= total_size(allocs),
    decreases allocs.len(),
{
    if allocs.len() > 0 {
        lemma_charged_le_total(allocs.skip(1), seen);
        lemma_charged_le_total(allocs.skip(1), seen.insert(allocs[0].0));
    }
}

/// Within a pass, the first `was_seen(a)` answers false; once it has been
/// made, every later `was_seen(a)` answers true, whatever other addresses
/// were asked about in between, until the tracker is reset.
pub proof fn lemma_first_seen(seen: Set<usize>, a: usize, later: Set<usize>)
    requires
        !seen.contains(a),
        after_seen(seen, a).subset_of(later),
    ensures
        !seen_before(seen, a),
        seen_before(later, a),
        forall|b: usize| later.subset_of(#[trigger] after_seen(later, b)),
{
}

/// After a reset, an address seen in the previous pass is new again.
pub proof fn lemma_pass_isolation(seen: Set<usize>, a: usize)
    requires
        seen.contains(a),
    ensures
        seen_before(seen, a),
        !seen_before(Set::<usize>::empty(), a),
{
}

/// Visiting an allocation whose address was already met (earlier in the run,
/// or before it) adds nothing to what is charged.
pub proof fn lemma_revisit_adds_nothing(
    allocs: Seq<(usize, usize)>,
    seen: Set<usize>,
    a: usize,
    size: usize,
)
    requires
        seen.contains(a) || exists|i: int| 0 <= i < allocs.len() && allocs[i].0 == a,
    ensures
        charged(allocs.push((a, size)), seen) == charged(allocs, seen),
    decreases allocs.len(),
{
    let whole = allocs.push((a, size));
    if allocs.len() == 0 {
        assert(whole.skip(1) =~= Seq::<(usize, usize)>::empty());
        assert(whole[0] == (a, size));
        assert(seen.contains(a));
        assert(charged(whole.skip(1), seen) == 0);
        assert(charged(whole, seen) == charged(whole.skip(1), seen));
    } else {
        let (b, sz) = allocs[0];
        assert(whole.skip(1) =~= allocs.skip(1).push((a, size)));
        assert(whole[0] == (b, sz));
        if !(seen.contains(a)) && a != b {
            let i = choose|i: int| 0 <= i < allocs.len() && allocs[i].0 == a;
            assert(allocs.skip(1)[i - 1].0 == a);
        }
        if seen_before(seen, b) {
            lemma_revisit_adds_nothing(allocs.skip(1), seen, a, size);
            assert(charged(whole, seen) == charged(whole.skip(1), seen));
        } else {
            lemma_revisit_adds_nothing(allocs.skip(1), after_seen(seen, b), a, size);
            assert(charged(whole, seen) == sz + charged(whole.skip(1), after_seen(seen, b)));
        }
    }
}

/// Two owners that both reference one allocation of `size` bytes, not seen
/// before in the pass, are charged `size` once between them, not twice.
pub proof fn lemma_shared_counted_once(
    owner1: Seq<(usize, usize)>,
    owner2: Seq<(usize, usize)>,
    seen: Set<usize>,
    a: usize,
    size: usize,
)
    requires
        owner1 == seq![(a, size)],
        owner2 == seq![(a, size)],
        !seen.contains(a),
    ensures
        charged(owner1 + owner2, seen) == size,
{
    let both = owner1 + owner2;
    assert(both =~= owner1.push((a, size)));
    assert(owner1.skip(1) =~= Seq::<(usize, usize)>::empty());
    assert(owner1[0] == (a, size));
    assert(charged(owner1.skip(1), seen.insert(a)) == 0);
    assert(charged(owner1, seen) == size);
    lemma_revisit_adds_nothing(owner1, seen, a, size);
}

} // verus!
