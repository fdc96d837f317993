//! The bands a model holds, each under an id it was given on insert: no two share an id, and
//! an id is never handed out twice.
use vstd::prelude::*;

use super::band::BandId;
use super::tracker::BandIds;

verus! {

/// No id occurs twice.
pub open spec fn distinct_ids(ids: Seq<BandId>) -> bool {
    forall|i: int, j: int| 0 <= i < j < ids.len() ==> ids[i] != ids[j]
}

/// Every id was issued before `next`.
pub open spec fn all_below(ids: Seq<BandId>, next: u64) -> bool {
    forall|i: int| 0 <= i < ids.len() ==> (#[trigger] ids[i]).0 < next
}

pub struct BandList<T> {
    ids: Vec<BandId>,
    items: Vec<T>,
    issued: BandIds,
}

impl<T> BandList<T> {
    #[verifier::type_invariant]
    spec fn inv(&self) -> bool {
        &&& self.ids@.len() == self.items@.len()
        &&& distinct_ids(self.ids@)
        &&& all_below(self.ids@, self.issued.next_spec())
    }

    /// The ids, in band order.
    pub closed spec fn ids_spec(&self) -> Seq<BandId> {
        self.ids@
    }

    /// The bands, in order; band `i` has id `ids_spec()[i]`.
    pub closed spec fn items_spec(&self) -> Seq<T> {
        self.items@
    }

    /// The id the next inserted band gets.
    pub closed spec fn next_spec(&self) -> u64 {
        self.issued.next_spec()
    }

    pub fn new() -> (r: BandList<T>)
        ensures
            r.ids_spec().len() == 0,
            r.items_spec().len() == 0,
            r.next_spec() == 1,
    {
        BandList { ids: Vec::new(), items: Vec::new(), issued: BandIds::new() }
    }

    /// The ids, in band order; none occurs twice, and each was issued before the next one.
    pub fn ids(&self) -> (r: &Vec<BandId>)
        ensures
            r@ == self.ids_spec(),
            distinct_ids(r@),
            all_below(r@, self.next_spec()),
            r@.len() == self.items_spec().len(),
    {
        proof {
            use_type_invariant(self);
        }
        &self.ids
    }

    pub fn items(&self) -> (r: &Vec<T>)
        ensures
            r@ == self.items_spec(),
            r@.len() == self.ids_spec().len(),
    {
        proof {
            use_type_invariant(self);
        }
        &self.items
    }

    /// The id the next inserted band gets.
    pub fn next_id(&self) -> (r: u64)
        ensures
            r == self.next_spec(),
    {
        self.issued.peek()
    }

    /// Adds a band at the end under a new id, which is returned: the next id, one that no band
    /// in the list has.
    pub fn push(&mut self, item: T) -> (r: BandId)
        requires
            old(self).next_spec() < u64::MAX,
        ensures
            r.0 == old(self).next_spec(),
            !old(self).ids_spec().contains(r),
            final(self).ids_spec() == old(self).ids_spec().push(r),
            final(self).items_spec() == old(self).items_spec().push(item),
            final(self).next_spec() == old(self).next_spec() + 1,
            distinct_ids(final(self).ids_spec()),
    {
        let mut taken = BandList::new();
        std::mem::swap(&mut taken, self);
        proof {
            use_type_invariant(&taken);
        }
        let BandList { mut ids, mut items, mut issued } = taken;
        let ghost before = ids@;
        let id = issued.issue();
        assert(!before.contains(id)) by {
            if before.contains(id) {
                let k = choose|k: int| 0 <= k < before.len() && before[k] == id;
                assert(before[k].0 < id.0);
            }
        }
        ids.push(id);
        items.push(item);
        assert(distinct_ids(ids@)) by {
            assert forall|i: int, j: int| 0 <= i < j < ids@.len() implies ids@[i] != ids@[j] by {
                if j == ids@.len() - 1 {
                    assert(ids@[i] == before[i]);
                } else {
                    assert(ids@[i] == before[i] && ids@[j] == before[j]);
                }
            }
        }
        assert(all_below(ids@, issued.next_spec())) by {
            assert forall|i: int| 0 <= i < ids@.len() implies (#[trigger] ids@[i]).0 < issued.next_spec() by {
                if i < before.len() {
                    assert(ids@[i] == before[i]);
                }
            }
        }
        *self = BandList { ids, items, issued };
        id
    }
    /// Where the band with this id is, if it is in the list.
    pub fn index_of(&self, id: BandId) -> (r: Option<usize>)
        ensures
            match r {
                Some(i) => i < self.ids_spec().len() && self.ids_spec()[i as int] == id,
                None => !self.ids_spec().contains(id),
            },
    {
        let mut i: usize = 0;
        while i < self.ids.len()
            invariant
                i <= self.ids@.len(),
                forall|j: int| 0 <= j < i ==> self.ids@[j] != id,
            decreases self.ids@.len() - i,
        {
            if self.ids[i] == id {
                return Some(i);
            }
            i += 1;
        }
        None
    }

    /// Replaces band `i`, keeping its id.
    pub fn set(&mut self, i: usize, item: T)
        requires
            i < old(self).items_spec().len(),
        ensures
            final(self).ids_spec() == old(self).ids_spec(),
            final(self).items_spec() == old(self).items_spec().update(i as int, item),
            final(self).next_spec() == old(self).next_spec(),
    {
        let mut taken = BandList::new();
        std::mem::swap(&mut taken, self);
        proof {
            use_type_invariant(&taken);
        }
        let BandList { ids, mut items, issued } = taken;
        items.set(i, item);
        *self = BandList { ids, items, issued };
    }

    /// Removes the band with this id; says whether there was one. The other bands keep their
    /// order and ids, and no id is handed out again.
    pub fn remove(&mut self, id: BandId) -> (r: bool)
        ensures
            r == old(self).ids_spec().contains(id),
            r ==> exists|k: int|
                0 <= k < old(self).ids_spec().len() && old(self).ids_spec()[k] == id
                    && final(self).ids_spec() == old(self).ids_spec().remove(k)
                    && final(self).items_spec() == old(self).items_spec().remove(k),
            !r ==> final(self).ids_spec() == old(self).ids_spec() && final(self).items_spec()
                == old(self).items_spec(),
            !final(self).ids_spec().contains(id),
            final(self).next_spec() == old(self).next_spec(),
    {
        proof {
            use_type_invariant(&*self);
        }
        let found = self.index_of(id);
        let k = match found {
            Some(k) => k,
            None => return false,
        };
        let mut taken = BandList::new();
        std::mem::swap(&mut taken, self);
        let BandList { mut ids, mut items, issued } = taken;
        let ghost before = ids@;
        ids.remove(k);
        items.remove(k);
        assert(distinct_ids(ids@)) by {
            assert forall|i: int, j: int| 0 <= i < j < ids@.len() implies ids@[i] != ids@[j] by {
                let oi = if i < k { i } else { i + 1 };
                let oj = if j < k { j } else { j + 1 };
                assert(ids@[i] == before[oi] && ids@[j] == before[oj]);
            }
        }
        assert(all_below(ids@, issued.next_spec())) by {
            assert forall|i: int| 0 <= i < ids@.len() implies (#[trigger] ids@[i]).0 < issued.next_spec() by {
                let oi = if i < k { i } else { i + 1 };
                assert(ids@[i] == before[oi]);
            }
        }
        assert(!ids@.contains(id)) by {
            if ids@.contains(id) {
                let j = choose|j: int| 0 <= j < ids@.len() && ids@[j] == id;
                let oj = if j < k { j } else { j + 1 };
                assert(ids@[j] == before[oj]);
            }
        }
        *self = BandList { ids, items, issued };
        true
    }

    /// Removes every band; ids already handed out stay used.
    pub fn clear(&mut self)
        ensures
            final(self).ids_spec().len() == 0,
            final(self).items_spec().len() == 0,
            final(self).next_spec() == old(self).next_spec(),
    {
        let mut taken = BandList::new();
        std::mem::swap(&mut taken, self);
        let BandList { mut ids, mut items, issued } = taken;
        ids.clear();
        items.clear();
        *self = BandList { ids, items, issued };
    }
}

/// The id `push` hands out is new: when every id in a list is below `next`, the id `next` is
/// not among them, however bands were added and removed before.
pub proof fn law_ids_never_reused(ids: Seq<BandId>, next: u64, id: BandId)
    requires
        all_below(ids, next),
        id.0 == next,
    ensures
        !ids.contains(id),
{
    if ids.contains(id) {
        let k = choose|k: int| 0 <= k < ids.len() && ids[k] == id;
        assert(ids[k].0 < next);
    }
}

} // verus!
