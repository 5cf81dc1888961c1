use vstd::prelude::*;

use crate::tileprovider::TilePos;

verus! {

/// Encoded bytes of one tile and the time, in seconds, it was last read.
pub struct CachedTile {
    pub data: Vec<u8>,
    pub last_access: u64,
}

/// One entry of the in-memory tile store.
pub struct CacheEntry {
    pub pos: TilePos,
    pub tile: CachedTile,
}

/// Whether `a` and `b` hold the same key, bytes and access time.
pub open spec fn same_entry(a: CacheEntry, b: CacheEntry) -> bool {
    a.pos == b.pos && a.tile.data@ == b.tile.data@ && a.tile.last_access == b.tile.last_access
}

/// Whether `e` is, key, bytes and access time, one of `entries`.
pub open spec fn entry_of(e: CacheEntry, entries: Seq<CacheEntry>) -> bool {
    exists|j: int| 0 <= j < entries.len() && same_entry(e, #[trigger] entries[j])
}

/// Whether some entry of `entries` has key `pos`.
pub open spec fn has_key(entries: Seq<CacheEntry>, pos: TilePos) -> bool {
    exists|i: int| 0 <= i < entries.len() && #[trigger] entries[i].pos == pos
}

/// Whether no key appears twice in `entries`.
pub open spec fn keys_unique(entries: Seq<CacheEntry>) -> bool {
    forall|i: int, j: int|
        0 <= i < entries.len() && 0 <= j < entries.len() && i != j ==> #[trigger] entries[i].pos
            != #[trigger] entries[j].pos
}

/// Number of entries that a cleanup of `n` entries removes: the oldest
/// third, or all of them where a third rounds down to nothing.
pub open spec fn evict_count(n: nat) -> nat {
    if n < 3 {
        n
    } else {
        n / 3
    }
}

/// Whether `after` is what a cleanup may leave of `before`: entries of
/// `before`, `evict_count` fewer of them, and none of them older than an
/// entry that was removed.
pub open spec fn cleaned(before: Seq<CacheEntry>, after: Seq<CacheEntry>) -> bool {
    &&& after.len() == before.len() - evict_count(before.len())
    &&& forall|i: int| 0 <= i < after.len() ==> #[trigger] entry_of(after[i], before)
    &&& forall|j: int, i: int|
        0 <= j < before.len() && !has_key(after, before[j].pos) && 0 <= i < after.len()
            ==> #[trigger] before[j].tile.last_access <= #[trigger] after[i].tile.last_access
}

/// Whether `after` is `before` with the access time of the entry for `pos`,
/// if there is one, set to `now`.
pub open spec fn touched(before: Seq<CacheEntry>, after: Seq<CacheEntry>, pos: TilePos, now: u64) -> bool {
    &&& after.len() == before.len()
    &&& forall|i: int|
        0 <= i < before.len() ==> #[trigger] after[i].pos == before[i].pos
            && after[i].tile.data@ == before[i].tile.data@
            && after[i].tile.last_access == if before[i].pos == pos {
            now
        } else {
            before[i].tile.last_access
        }
}

/// Whether `after` is `before` with `data`, read at `now`, stored for
/// `pos`: in place of the entry for `pos`, or appended when there is none,
/// every other entry kept as it was.
pub open spec fn inserted(
    before: Seq<CacheEntry>,
    after: Seq<CacheEntry>,
    pos: TilePos,
    data: Seq<u8>,
    now: u64,
) -> bool {
    &&& after.len() == before.len() + if has_key(before, pos) {
        0int
    } else {
        1int
    }
    &&& forall|i: int|
        0 <= i < before.len() && before[i].pos != pos ==> same_entry(#[trigger] after[i], before[i])
    &&& forall|i: int|
        0 <= i < after.len() && (i >= before.len() || before[i].pos == pos) ==> {
            &&& (#[trigger] after[i]).pos == pos
            &&& after[i].tile.data@ == data
            &&& after[i].tile.last_access == now
        }
}

/// A copy of `v`.
pub fn copy_bytes(v: &Vec<u8>) -> (r: Vec<u8>)
    ensures
        r@ == v@,
{
    let mut r: Vec<u8> = Vec::with_capacity(v.len());
    let mut i: usize = 0;
    while i < v.len()
        invariant
            i <= v@.len(),
            r@ == v@.subrange(0, i as int),
        decreases v@.len() - i,
    {
        r.push(v[i]);
        i = i + 1;
        assert(r@ =~= v@.subrange(0, i as int));
    }
    assert(v@.subrange(0, v@.len() as int) =~= v@);
    r
}

/// The bounded in-memory tier of the tile cache: encoded tiles by position,
/// each with the time it was last read.
pub struct MemCache {
    entries: Vec<CacheEntry>,
    max_capacity: usize,
}

impl MemCache {
    pub closed spec fn view(&self) -> Seq<CacheEntry> {
        self.entries@
    }

    pub closed spec fn capacity(&self) -> nat {
        self.max_capacity as nat
    }

    pub open spec fn wf(&self) -> bool {
        keys_unique(self@)
    }

    /// The bytes stored for `pos`, if any.
    pub open spec fn lookup_spec(&self, pos: TilePos) -> Option<Seq<u8>> {
        if has_key(self@, pos) {
            Some(self@[choose|i: int| 0 <= i < self@.len() && #[trigger] self@[i].pos == pos].tile.data@)
        } else {
            None
        }
    }

    /// An empty store that cleans up once it holds `max_capacity` tiles.
    pub fn new(max_capacity: usize) -> (r: Self)
        ensures
            r.wf(),
            r@.len() == 0,
            r.capacity() == max_capacity,
    {
        MemCache { entries: Vec::new(), max_capacity }
    }

    pub fn len(&self) -> (r: usize)
        ensures
            r == self@.len(),
    {
        self.entries.len()
    }

    /// Whether the store is at or over its capacity, so that a cleanup is due
    /// before the next insertion.
    pub fn needs_cleanup(&self) -> (r: bool)
        ensures
            r == (self@.len() >= self.capacity()),
    {
        self.entries.len() >= self.max_capacity
    }

    fn find(&self, pos: TilePos) -> (r: Option<usize>)
        requires
            self.wf(),
        ensures
            r matches Some(i) ==> i < self@.len() && self@[i as int].pos == pos,
            r is None ==> !has_key(self@, pos),
    {
        let mut i: usize = 0;
        while i < self.entries.len()
            invariant
                i <= self@.len(),
                forall|j: int| 0 <= j < i ==> #[trigger] self@[j].pos != pos,
            decreases self@.len() - i,
        {
            if self.entries[i].pos == pos {
                return Some(i);
            }
            i = i + 1;
        }
        None
    }

    /// The bytes stored for `pos`, without touching its access time.
    pub fn lookup(&self, pos: TilePos) -> (r: Option<Vec<u8>>)
        requires
            self.wf(),
        ensures
            r is Some <==> has_key(self@, pos),
            r matches Some(b) ==> self.lookup_spec(pos) == Some(b@),
    {
        match self.find(pos) {
            Some(i) => {
                assert(self@[i as int].pos == pos);
                Some(copy_bytes(&self.entries[i].tile.data))
            },
            None => None,
        }
    }

    /// Marks the tile at `pos`, if there is one, as read at time `now`.
    pub fn touch(&mut self, pos: TilePos, now: u64)
        requires
            old(self).wf(),
        ensures
            final(self).wf(),
            final(self).capacity() == old(self).capacity(),
            touched(old(self)@, final(self)@, pos, now),
    {
        match self.find(pos) {
            Some(i) => {
                let mut entry = self.entries.remove(i);
                entry.tile.last_access = now;
                self.entries.insert(i, entry);
                assert forall|a: int| 0 <= a < self@.len() implies (#[trigger] self@[a]).pos == old(
                    self,
                )@[a].pos by {}
            },
            None => {},
        }
    }

    /// The bytes stored for `pos`, marking them as read at time `now`.
    pub fn get(&mut self, pos: TilePos, now: u64) -> (r: Option<Vec<u8>>)
        requires
            old(self).wf(),
        ensures
            final(self).wf(),
            r is Some <==> has_key(old(self)@, pos),
            r matches Some(b) ==> old(self).lookup_spec(pos) == Some(b@),
            final(self).capacity() == old(self).capacity(),
            touched(old(self)@, final(self)@, pos, now),
    {
        let r = self.lookup(pos);
        self.touch(pos, now);
        r
    }

    /// Stores `data` for `pos`, read at time `now`, replacing what was
    /// stored for it.
    pub fn insert(&mut self, pos: TilePos, data: Vec<u8>, now: u64)
        requires
            old(self).wf(),
        ensures
            final(self).wf(),
            final(self).capacity() == old(self).capacity(),
            final(self).lookup_spec(pos) == Some(data@),
            has_key(old(self)@, pos) ==> final(self)@.len() == old(self)@.len(),
            !has_key(old(self)@, pos) ==> final(self)@.len() == old(self)@.len() + 1,
            forall|q: TilePos| q != pos ==> #[trigger] final(self).lookup_spec(q) == old(
                self,
            ).lookup_spec(q),
            inserted(old(self)@, final(self)@, pos, data@, now),
    {
        let entry = CacheEntry { pos, tile: CachedTile { data, last_access: now } };
        let ghost idx: int;
        match self.find(pos) {
            Some(i) => {
                let _old = self.entries.remove(i);
                self.entries.insert(i, entry);
                assert(self@ =~= old(self)@.update(i as int, entry));
                proof {
                    idx = i as int;
                }
            },
            None => {
                self.entries.push(entry);
                proof {
                    idx = self@.len() - 1;
                }
            },
        }
        proof {
            assert(self@[idx].pos == pos);
            assert(has_key(self@, pos));
            let k = choose|k: int| 0 <= k < self@.len() && #[trigger] self@[k].pos == pos;
            assert(k == idx);
            assert forall|i: int|
                0 <= i < self@.len() && (i >= old(self)@.len() || old(self)@[i].pos == pos) implies {
                &&& (#[trigger] self@[i]).pos == pos
                &&& self@[i].tile.data@ == data@
                &&& self@[i].tile.last_access == now
            } by {
                assert(i == idx);
            }
            assert forall|q: TilePos| q != pos implies #[trigger] self.lookup_spec(q)
                == old(self).lookup_spec(q) by {
                if has_key(old(self)@, q) {
                    let j = choose|j: int| 0 <= j < old(self)@.len() && #[trigger] old(self)@[j].pos == q;
                    assert(self@[j].pos == q);
                }
                if has_key(self@, q) {
                    let j = choose|j: int| 0 <= j < self@.len() && #[trigger] self@[j].pos == q;
                    assert(old(self)@[j].pos == q);
                }
            }
        }
    }

    /// Stores `data` for `pos`, read at time `now`, first cleaning up when
    /// the store is at or over its capacity.
    pub fn store(&mut self, pos: TilePos, data: Vec<u8>, now: u64)
        requires
            old(self).wf(),
        ensures
            final(self).wf(),
            final(self).capacity() == old(self).capacity(),
            final(self).lookup_spec(pos) == Some(data@),
            old(self)@.len() < old(self).capacity() ==> inserted(
                old(self)@,
                final(self)@,
                pos,
                data@,
                now,
            ),
            old(self)@.len() >= old(self).capacity() ==> exists|mid: Seq<CacheEntry>|
                #[trigger] cleaned(old(self)@, mid) && inserted(mid, final(self)@, pos, data@, now),
    {
        if self.needs_cleanup() {
            self.cleanup();
            let ghost mid = self@;
            self.insert(pos, data, now);
            assert(cleaned(old(self)@, mid) && inserted(mid, self@, pos, data@, now));
        } else {
            self.insert(pos, data, now);
        }
    }

    /// Index of an entry with the smallest access time.
    fn oldest(&self) -> (r: usize)
        requires
            self@.len() > 0,
        ensures
            r < self@.len(),
            forall|i: int|
                0 <= i < self@.len() ==> self@[r as int].tile.last_access <= (
                #[trigger] self@[i]).tile.last_access,
    {
        let mut best: usize = 0;
        let mut i: usize = 1;
        while i < self.entries.len()
            invariant
                self@.len() > 0,
                best < self@.len(),
                1 <= i <= self@.len(),
                forall|j: int|
                    0 <= j < i ==> self@[best as int].tile.last_access <= (
                    #[trigger] self@[j]).tile.last_access,
            decreases self@.len() - i,
        {
            if self.entries[i].tile.last_access < self.entries[best].tile.last_access {
                best = i;
            }
            i = i + 1;
        }
        best
    }

    /// Frees memory by evicting the oldest third of the entries by access
    /// time, counted by entries; where a third rounds down to nothing the
    /// store is emptied.
    pub fn cleanup(&mut self)
        requires
            old(self).wf(),
        ensures
            final(self).wf(),
            final(self).capacity() == old(self).capacity(),
            cleaned(old(self)@, final(self)@),
    {
        let n = self.entries.len();
        if n < 3 {
            self.entries.clear();
            assert(cleaned(old(self)@, self@));
            return;
        }
        let evict: usize = n / 3;
        let ghost src: Seq<int> = Seq::new(n as nat, |i: int| i);
        let ghost threshold: u64 = 0;
        let mut step: usize = 0;
        while step < evict
            invariant
                n == old(self)@.len(),
                n >= 3,
                evict == n / 3,
                step <= evict,
                self.max_capacity == old(self).max_capacity,
                keys_unique(old(self)@),
                self@.len() == n - step,
                src.len() == self@.len(),
                forall|i: int|
                    0 <= i < self@.len() ==> 0 <= #[trigger] src[i] < n && self@[i] == old(
                        self,
                    )@[src[i]],
                forall|i: int, j: int|
                    0 <= i < self@.len() && 0 <= j < self@.len() && i != j ==> #[trigger] src[i]
                        != #[trigger] src[j],
                forall|i: int|
                    0 <= i < self@.len() ==> threshold <= (#[trigger] self@[i]).tile.last_access,
                forall|j: int|
                    0 <= j < n ==> has_key(self@, #[trigger] old(self)@[j].pos) || old(
                        self,
                    )@[j].tile.last_access <= threshold,
            decreases evict - step,
        {
            let m = self.oldest();
            let ghost before = self@;
            let ghost src_before = src;
            let removed = self.entries.remove(m);
            proof {
                let t = removed.tile.last_access;
                src = src_before.remove(m as int);
                assert forall|j: int| 0 <= j < n implies has_key(
                    self@,
                    #[trigger] old(self)@[j].pos,
                ) || old(self)@[j].tile.last_access <= t by {
                    if has_key(before, old(self)@[j].pos) {
                        let i = choose|i: int|
                            0 <= i < before.len() && #[trigger] before[i].pos == old(self)@[j].pos;
                        if i == m {
                            assert(old(self)@[src_before[i]].pos == old(self)@[j].pos);
                            assert(src_before[i] == j);
                        } else if i < m {
                            assert(self@[i] == before[i]);
                        } else {
                            assert(self@[i - 1] == before[i]);
                        }
                    }
                }
                assert forall|i: int| 0 <= i < self@.len() implies t <= (
                #[trigger] self@[i]).tile.last_access by {
                    if i < m {
                        assert(self@[i] == before[i]);
                    } else {
                        assert(self@[i] == before[i + 1]);
                    }
                }
                threshold = t;
            }
            step = step + 1;
        }
        proof {
            let after = self@;
            assert forall|i: int| 0 <= i < after.len() implies #[trigger] entry_of(
                after[i],
                old(self)@,
            ) by {
                assert(same_entry(after[i], old(self)@[src[i]]));
            }
            assert forall|i: int, j: int|
                0 <= i < after.len() && 0 <= j < after.len() && i != j implies #[trigger] after[i].pos
                != #[trigger] after[j].pos by {
                assert(old(self)@[src[i]].pos != old(self)@[src[j]].pos);
            }
            assert(after.len() == n - evict_count(n as nat));
            assert forall|j: int, i: int|
                0 <= j < n && !has_key(after, old(self)@[j].pos) && 0 <= i < after.len()
                    implies #[trigger] old(self)@[j].tile.last_access <= #[trigger] after[i].tile.last_access by {
                assert(threshold <= after[i].tile.last_access);
            }
            assert(cleaned(old(self)@, after));
        }
    }
}

/// A cleanup of a full store leaves it below its capacity, keeping the most
/// recently read two-thirds (rounded up) of a store of three or more, none of
/// them older than an evicted entry; from six entries on, the entry that
/// triggered the cleanup fits in too without reaching the capacity again.
pub proof fn lemma_cleanup_at_capacity(before: Seq<CacheEntry>, after: Seq<CacheEntry>, capacity: nat)
    requires
        cleaned(before, after),
        before.len() == capacity,
        capacity >= 1,
    ensures
        after.len() < capacity,
        capacity >= 3 ==> after.len() == capacity - capacity / 3,
        capacity >= 6 ==> after.len() + 1 < capacity,
        forall|j: int, i: int|
            0 <= j < before.len() && !has_key(after, before[j].pos) && 0 <= i < after.len()
                ==> #[trigger] before[j].tile.last_access <= #[trigger] after[i].tile.last_access,
{
}

/// A read only refreshes access times: after a hit, every key, the one read
/// included, still gives the bytes it gave before, so a second read returns
/// what the first returned.
pub proof fn lemma_lookup_after_touch(before: MemCache, after: MemCache, pos: TilePos, now: u64)
    requires
        before.wf(),
        touched(before@, after@, pos, now),
    ensures
        after.wf(),
        forall|q: TilePos| #[trigger] after.lookup_spec(q) == before.lookup_spec(q),
{
    assert forall|i: int, j: int|
        0 <= i < after@.len() && 0 <= j < after@.len() && i != j implies #[trigger] after@[i].pos
        != #[trigger] after@[j].pos by {
        assert(after@[i].pos == before@[i].pos && after@[j].pos == before@[j].pos);
    }
    assert forall|q: TilePos| #[trigger] after.lookup_spec(q) == before.lookup_spec(q) by {
        if has_key(before@, q) {
            let j = choose|j: int| 0 <= j < before@.len() && #[trigger] before@[j].pos == q;
            assert(after@[j].pos == q);
        }
        if has_key(after@, q) {
            let j = choose|j: int| 0 <= j < after@.len() && #[trigger] after@[j].pos == q;
            assert(before@[j].pos == q);
            let a = choose|i: int| 0 <= i < after@.len() && #[trigger] after@[i].pos == q;
            let b = choose|i: int| 0 <= i < before@.len() && #[trigger] before@[i].pos == q;
            assert(after@[b].pos == q);
            assert(a == b);
        }
    }
}

} // verus!
