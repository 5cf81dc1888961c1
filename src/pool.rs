use vstd::prelude::*;

use crate::assemble::{scale_rank, Scale, SCALE_COUNT};

verus! {

/// Free lists of reusable sampler handles, one per scale. A handle is either
/// held by a lease or sits in exactly one free list.
pub struct HandlePool<H> {
    free: Vec<Vec<H>>,
}

/// A handle checked out of a pool, with the scale whose free list takes it back.
pub struct Lease<H> {
    pub scale: Scale,
    pub handle: H,
}

/// Free lists after one checkout at scale rank `r`: the newest free handle
/// leaves, if there is one.
pub open spec fn after_checkout<H>(lists: Seq<Seq<H>>, r: int) -> Seq<Seq<H>> {
    if lists[r].len() == 0 {
        lists
    } else {
        lists.update(r, lists[r].drop_last())
    }
}

/// Free lists after `h` is given back at scale rank `r`.
pub open spec fn after_release<H>(lists: Seq<Seq<H>>, r: int, h: H) -> Seq<Seq<H>> {
    lists.update(r, lists[r].push(h))
}

/// Free lists after `n` checkouts at scale rank `r`.
pub open spec fn after_checkouts<H>(lists: Seq<Seq<H>>, r: int, n: nat) -> Seq<Seq<H>>
    decreases n,
{
    if n == 0 {
        lists
    } else {
        after_checkout(after_checkouts(lists, r, (n - 1) as nat), r)
    }
}

/// Free lists after the handles `hs` are given back, in order, at scale rank `r`.
pub open spec fn after_releases<H>(lists: Seq<Seq<H>>, r: int, hs: Seq<H>) -> Seq<Seq<H>>
    decreases hs.len(),
{
    if hs.len() == 0 {
        lists
    } else {
        after_release(after_releases(lists, r, hs.drop_last()), r, hs.last())
    }
}

impl<H> HandlePool<H> {
    /// The free list of each scale, by rank.
    pub closed spec fn view(&self) -> Seq<Seq<H>> {
        Seq::new(self.free@.len(), |i: int| self.free@[i]@)
    }

    pub closed spec fn wf(&self) -> bool {
        self.free@.len() == SCALE_COUNT
    }

    /// A pool with no free handles.
    pub fn new() -> (r: Self)
        ensures
            r.wf(),
            r@.len() == SCALE_COUNT,
            forall|i: int| 0 <= i < SCALE_COUNT ==> (#[trigger] r@[i]).len() == 0,
    {
        let mut free: Vec<Vec<H>> = Vec::new();
        let mut i: usize = 0;
        while i < SCALE_COUNT
            invariant
                i <= SCALE_COUNT,
                free@.len() == i,
                forall|j: int| 0 <= j < i ==> (#[trigger] free@[j])@.len() == 0,
            decreases SCALE_COUNT - i,
        {
            free.push(Vec::new());
            i = i + 1;
        }
        let r = HandlePool { free };
        assert(r@.len() == SCALE_COUNT);
        r
    }

    /// Number of free handles of `scale`.
    pub fn free_count(&self, scale: Scale) -> (r: usize)
        requires
            self.wf(),
        ensures
            self@.len() == SCALE_COUNT,
            r == self@[scale_rank(scale) as int].len(),
    {
        self.free[scale.rank()].len()
    }

    /// Takes the newest free handle of `scale`, if there is one; `None` tells
    /// the caller to create a handle.
    pub fn take(&mut self, scale: Scale) -> (r: Option<H>)
        requires
            old(self).wf(),
        ensures
            final(self).wf(),
            final(self)@.len() == SCALE_COUNT,
            final(self)@ == after_checkout(old(self)@, scale_rank(scale) as int),
            old(self)@[scale_rank(scale) as int].len() == 0 <==> r is None,
            r matches Some(h) ==> h == old(self)@[scale_rank(scale) as int].last(),
    {
        let i = scale.rank();
        let r = self.free[i].pop();
        proof {
            assert(self@ =~= after_checkout(old(self)@, i as int));
        }
        r
    }

    /// Puts `handle` back on the free list of `scale`.
    pub fn give_back(&mut self, handle: H, scale: Scale)
        requires
            old(self).wf(),
        ensures
            final(self).wf(),
            final(self)@.len() == SCALE_COUNT,
            final(self)@ == after_release(old(self)@, scale_rank(scale) as int, handle),
    {
        let i = scale.rank();
        self.free[i].push(handle);
        proof {
            assert(self@ =~= after_release(old(self)@, i as int, handle));
        }
    }

    /// Ends a lease: its handle goes back on its scale's free list.
    pub fn release(&mut self, lease: Lease<H>)
        requires
            old(self).wf(),
        ensures
            final(self).wf(),
            final(self)@.len() == SCALE_COUNT,
            final(self)@ == after_release(old(self)@, scale_rank(lease.scale) as int, lease.handle),
    {
        let Lease { scale, handle } = lease;
        self.give_back(handle, scale);
    }
}

/// `n` checkouts of one scale followed by the release of `n` handles leave
/// that scale's free list with as many handles as the larger of its former
/// size and `n`: the handles the checkouts left behind, then the released
/// ones, in release order. The other scales' lists stay as they were. From
/// an empty list, the list holds exactly the released handles.
pub proof fn lemma_checkouts_then_releases<H>(lists: Seq<Seq<H>>, r: int, hs: Seq<H>)
    requires
        0 <= r < lists.len(),
    ensures
        after_releases(after_checkouts(lists, r, hs.len()), r, hs).len() == lists.len(),
        after_releases(after_checkouts(lists, r, hs.len()), r, hs)[r].len() == if lists[r].len()
            >= hs.len() {
            lists[r].len()
        } else {
            hs.len()
        },
        forall|i: int|
            0 <= i < lists.len() && i != r ==> #[trigger] after_releases(
                after_checkouts(lists, r, hs.len()),
                r,
                hs,
            )[i] == lists[i],
        after_releases(after_checkouts(lists, r, hs.len()), r, hs)[r] == lists[r].subrange(
            0,
            if lists[r].len() >= hs.len() {
                lists[r].len() - hs.len()
            } else {
                0
            },
        ) + hs,
        lists[r].len() == 0 ==> after_releases(after_checkouts(lists, r, hs.len()), r, hs)[r]
            == hs,
{
    lemma_checkouts(lists, r, hs.len());
    let mid = after_checkouts(lists, r, hs.len());
    lemma_releases(mid, r, hs);
    if lists[r].len() == 0 {
        assert(lists[r].subrange(0, 0) + hs =~= hs);
    }
}

proof fn lemma_checkouts<H>(lists: Seq<Seq<H>>, r: int, n: nat)
    requires
        0 <= r < lists.len(),
    ensures
        after_checkouts(lists, r, n).len() == lists.len(),
        after_checkouts(lists, r, n)[r] == lists[r].subrange(
            0,
            if lists[r].len() >= n {
                lists[r].len() - n
            } else {
                0
            },
        ),
        forall|i: int|
            0 <= i < lists.len() && i != r ==> #[trigger] after_checkouts(lists, r, n)[i]
                == lists[i],
    decreases n,
{
    if n > 0 {
        lemma_checkouts(lists, r, (n - 1) as nat);
        let prev = after_checkouts(lists, r, (n - 1) as nat)[r];
        if prev.len() > 0 {
            assert(prev.drop_last() =~= lists[r].subrange(0, prev.len() - 1));
        }
    } else {
        assert(lists[r].subrange(0, lists[r].len() as int) =~= lists[r]);
    }
}

proof fn lemma_releases<H>(lists: Seq<Seq<H>>, r: int, hs: Seq<H>)
    requires
        0 <= r < lists.len(),
    ensures
        after_releases(lists, r, hs).len() == lists.len(),
        after_releases(lists, r, hs)[r] == lists[r] + hs,
        forall|i: int|
            0 <= i < lists.len() && i != r ==> #[trigger] after_releases(lists, r, hs)[i]
                == lists[i],
    decreases hs.len(),
{
    if hs.len() > 0 {
        lemma_releases(lists, r, hs.drop_last());
        assert((lists[r] + hs.drop_last()).push(hs.last()) =~= lists[r] + hs);
    } else {
        assert(lists[r] + hs =~= lists[r]);
    }
}

/// A checked-out handle is no longer free: with no handle listed twice, the
/// handle that a checkout hands out is not in the list it leaves behind.
pub proof fn lemma_checkout_exclusive<H>(lists: Seq<Seq<H>>, r: int)
    requires
        0 <= r < lists.len(),
        lists[r].len() > 0,
        lists[r].no_duplicates(),
    ensures
        !after_checkout(lists, r)[r].contains(lists[r].last()),
        after_checkout(lists, r)[r].no_duplicates(),
{
    let l = lists[r];
    let rest = l.drop_last();
    assert forall|i: int| 0 <= i < rest.len() implies rest[i] != l.last() by {
        assert(rest[i] == l[i]);
    }
}

} // verus!
