//! The generational slot arena and its handle type.
//!
//! `Space<T>` keeps every value in a slot of a dense vector. Unused slots are
//! threaded into an intrusive free list, so allocation and release are O(1).
//! Each allocation stamps the slot with the arena's current generation
//! counter and returns an `Index` carrying both the slot position and that
//! stamp; a lookup succeeds only while the stamps still agree, so a handle
//! whose slot has been reclaimed and reused is rejected instead of aliasing
//! the new occupant.

use vstd::prelude::*;

verus! {

/// Default slot count of an arena built with `Space::new`.
pub const CAPACITY: usize = 4;

/// One slot of the backing store: either a link in the free list or a live
/// value together with the generation stamp of its allocation.
#[derive(Clone)]
enum Entry<T> {
    Free { next_free: Option<u32> },
    Used { generation: u32, val: T },
}

/// A stable, copyable handle into a `Space`: a slot position paired with the
/// generation stamp the slot carried when the handle was issued.
///
/// The default value (maximum position and stamp) is a sentinel that no
/// allocation ever returns; it stands for "no object" where a plain value is
/// needed.
#[derive(Debug, Clone, Copy, PartialEq, Eq, PartialOrd, Ord, Hash, Structural)]
pub struct Index {
    index: u32,
    generation: u32,
}

/// The arena: a dense backing store of entries, the head of the free list,
/// a monotonically available generation counter, and the live-entry count.
#[derive(Clone)]
pub struct Space<T> {
    items: Vec<Entry<T>>,
    generation: u32,
    list_head: Option<u32>,
    len: usize,
    /// The positions of the free slots, in the order the free list links them.
    free: Ghost<Seq<u32>>,
}

impl Index {
    /// The slot position this handle points at.
    pub closed spec fn pos(self) -> u32 {
        self.index
    }

    /// The generation stamp this handle was issued with.
    pub closed spec fn stamp(self) -> u32 {
        self.generation
    }

    /// The sentinel handle: maximum position and stamp, never issued by an
    /// allocation.
    pub closed spec fn invalid_spec() -> Index {
        Index { index: u32::MAX, generation: u32::MAX }
    }

    /// Reconstruct a handle from a raw (position, generation) pair, as when
    /// a handle crosses a boundary that cannot carry the opaque type.
    pub fn from_raw_parts(index: u32, generation: u32) -> (r: Index)
        ensures
            r.pos() == index,
            r.stamp() == generation,
    {
        Index { index, generation }
    }

    /// Decompose a handle into its raw (position, generation) pair.
    pub fn into_raw_parts(self) -> (r: (u32, u32))
        ensures
            r.0 == self.pos(),
            r.1 == self.stamp(),
    {
        (self.index, self.generation)
    }

    /// Two handles are the same value exactly when they agree on position
    /// and stamp.
    pub proof fn lemma_parts_determine_index(a: Index, b: Index)
        ensures
            (a == b) <==> (a.pos() == b.pos() && a.stamp() == b.stamp()),
    {
    }

    /// The sentinel handle carries the maximum position and stamp.
    pub proof fn lemma_sentinel_parts()
        ensures
            Index::invalid_spec().pos() == u32::MAX,
            Index::invalid_spec().stamp() == u32::MAX,
    {
    }
}

impl Default for Index {
    /// The sentinel handle, distinguishable from every handle a real
    /// insertion returns.
    fn default() -> (r: Self)
        ensures
            r == Index::invalid_spec(),
            r.pos() == u32::MAX,
            r.stamp() == u32::MAX,
    {
        Index { index: u32::MAX, generation: u32::MAX }
    }
}

/// Number of `Used` entries of `s` at positions `k` and beyond.
spec fn used_from<T>(s: Seq<Entry<T>>, k: int) -> nat
    decreases s.len() - k,
{
    if k < 0 || k >= s.len() {
        0
    } else {
        (if s[k] is Used {
            1nat
        } else {
            0nat
        }) + used_from(s, k + 1)
    }
}

proof fn lemma_used_from_push<T>(s: Seq<Entry<T>>, e: Entry<T>, k: int)
    requires
        0 <= k <= s.len(),
    ensures
        used_from(s.push(e), k) == used_from(s, k) + (if e is Used {
            1nat
        } else {
            0nat
        }),
    decreases s.len() - k,
{
    let sp = s.push(e);
    if k == s.len() {
        assert(sp[k] == e);
        assert(used_from(sp, k + 1) == 0);
    } else {
        assert(sp[k] == s[k]);
        lemma_used_from_push(s, e, k + 1);
    }
}

proof fn lemma_used_from_update<T>(s: Seq<Entry<T>>, i: int, e: Entry<T>, k: int)
    requires
        0 <= i < s.len(),
        0 <= k <= s.len(),
    ensures
        i >= k ==> used_from(s.update(i, e), k) as int == used_from(s, k) as int - (if s[i]
            is Used {
            1int
        } else {
            0int
        }) + (if e is Used {
            1int
        } else {
            0int
        }),
        i < k ==> used_from(s.update(i, e), k) == used_from(s, k),
    decreases s.len() - k,
{
    let su = s.update(i, e);
    if k < s.len() {
        if i == k {
            assert(su[k] == e);
        } else {
            assert(su[k] == s[k]);
        }
        lemma_used_from_update(s, i, e, k + 1);
    }
}

proof fn lemma_used_from_at_least_one<T>(s: Seq<Entry<T>>, p: int, k: int)
    requires
        0 <= k <= p < s.len(),
        s[p] is Used,
    ensures
        used_from(s, k) >= 1,
    decreases s.len() - k,
{
    if k < p {
        lemma_used_from_at_least_one(s, p, k + 1);
    }
}

/// The values of the `Used` entries of `s` at positions `k` and beyond, in
/// position order.
spec fn used_vals_from<T>(s: Seq<Entry<T>>, k: int) -> Seq<T>
    decreases s.len() - k,
{
    if k < 0 || k >= s.len() {
        Seq::empty()
    } else {
        (if s[k] is Used {
            seq![s[k]->val]
        } else {
            Seq::empty()
        }) + used_vals_from(s, k + 1)
    }
}

/// The values of the `Used` entries of `s`, reading the sequence backwards:
/// the order in which a stack holding `s` pops them.
spec fn rev_used_vals<T>(s: Seq<Entry<T>>) -> Seq<T>
    decreases s.len(),
{
    if s.len() == 0 {
        Seq::empty()
    } else {
        (if s.last() is Used {
            seq![s.last()->val]
        } else {
            Seq::empty()
        }) + rev_used_vals(s.drop_last())
    }
}

proof fn lemma_used_vals_len<T>(s: Seq<Entry<T>>, k: int)
    ensures
        used_vals_from(s, k).len() == used_from(s, k),
    decreases s.len() - k,
{
    if 0 <= k < s.len() {
        lemma_used_vals_len(s, k + 1);
    }
}

/// Position `k` of the free-list order `f` names an in-range `Free` slot of
/// `s` whose link leads to position `k + 1` of the order (or ends the list).
spec fn free_link_ok<T>(s: Seq<Entry<T>>, f: Seq<u32>, k: int) -> bool {
    &&& (f[k] as int) < s.len()
    &&& s[f[k] as int] is Free
    &&& s[f[k] as int]->next_free == (if k + 1 < f.len() {
        Some(f[k + 1])
    } else {
        None
    })
}

impl<T> Space<T> {
    /// Everything `wf` asks except the minimum slot count; constructors pass
    /// through a momentarily empty store.
    spec fn inv0(self) -> bool {
        let s = self.items@;
        let f = self.free@;
        &&& s.len() < u32::MAX as int
        &&& (self.generation as int) < u32::MAX as int
        &&& self.len == used_from(s, 0)
        &&& f.len() + used_from(s, 0) == s.len()
        &&& self.list_head == (if f.len() == 0 {
            None::<u32>
        } else {
            Some(f[0])
        })
        &&& f.no_duplicates()
        &&& (forall|k: int| 0 <= k < f.len() ==> #[trigger] free_link_ok(s, f, k))
        &&& (forall|j: int|
            0 <= j < s.len() && (#[trigger] s[j]) is Free ==> f.contains(j as u32))
        &&& (forall|j: int|
            0 <= j < s.len() && (#[trigger] s[j]) is Used ==> s[j]->generation
                <= self.generation)
    }

    /// Well-formedness: the free list holds exactly the slots without a live
    /// value, linked acyclically; the live count matches the `Used` entries;
    /// generation stamps never exceed the arena's counter; and the store
    /// stays strictly below the sentinel position, with at least one slot.
    pub closed spec fn wf(self) -> bool {
        &&& self.inv0()
        &&& 1 <= self.items@.len()
    }

    /// Total number of slots, free and used.
    pub closed spec fn num_slots(self) -> nat {
        self.items@.len()
    }

    /// The positions of the free slots, in the order allocations will claim
    /// them: the head of the free list first.
    pub closed spec fn free_order(self) -> Seq<u32> {
        self.free@
    }

    /// Number of slots currently on the free list.
    pub open spec fn num_free(self) -> nat {
        self.free_order().len()
    }

    /// Number of live (used) entries.
    pub closed spec fn live(self) -> nat {
        self.len as nat
    }

    /// The arena's current generation counter.
    pub closed spec fn stamp(self) -> u32 {
        self.generation
    }

    /// A handle is valid while its slot holds a live value stamped with the
    /// handle's own generation.
    pub closed spec fn valid(self, i: Index) -> bool {
        &&& (i.pos() as int) < self.items@.len()
        &&& self.items@[i.pos() as int] is Used
        &&& self.items@[i.pos() as int]->generation == i.stamp()
    }

    /// The value a valid handle refers to.
    pub closed spec fn at(self, i: Index) -> T
        recommends
            self.valid(i),
    {
        self.items@[i.pos() as int]->val
    }

    /// What a lookup returns: the stored value for a valid handle, absent
    /// for a stale or unknown one.
    pub open spec fn spec_get(self, i: Index) -> Option<T> {
        if self.valid(i) {
            Some(self.at(i))
        } else {
            None
        }
    }

    /// An arena with the default slot count, all slots free.
    pub fn new() -> (r: Space<T>)
        ensures
            r.wf(),
            r.num_slots() == CAPACITY,
            r.num_free() == CAPACITY,
            r.live() == 0,
            r.stamp() == 0,
            forall|i: Index| !r.valid(i),
            forall|k: int| 0 <= k < r.free_order().len() ==> #[trigger] r.free_order()[k] as int
                == k,
    {
        Space::with_capacity(CAPACITY)
    }

    /// An arena with `x` slots (at least one), all free: the free list links
    /// them in ascending position order.
    pub fn with_capacity(x: usize) -> (r: Space<T>)
        requires
            x < u32::MAX as usize,
        ensures
            r.wf(),
            r.num_slots() as int == (if x == 0 {
                1int
            } else {
                x as int
            }),
            r.num_free() == r.num_slots(),
            r.live() == 0,
            r.stamp() == 0,
            forall|i: Index| !r.valid(i),
            forall|k: int| 0 <= k < r.free_order().len() ==> #[trigger] r.free_order()[k] as int
                == k,
    {
        let cap = if x < 1 {
            1
        } else {
            x
        };
        let mut space = Space {
            items: Vec::new(),
            generation: 0,
            list_head: None,
            len: 0,
            free: Ghost(Seq::empty()),
        };
        space.grow(cap);
        space
    }

    /// A full iteration yields exactly as many values as the arena has live
    /// entries.
    pub proof fn lemma_vals_count(self)
        requires
            self.wf(),
        ensures
            self.vals().len() == self.live(),
    {
        lemma_used_vals_len(self.items@, 0);
    }

    /// Law: round-trip. A handle that an insertion just returned — so it is
    /// valid and refers to the inserted value — reads back exactly that
    /// value.
    pub proof fn lemma_round_trip(self, i: Index, v: T)
        requires
            self.wf(),
            self.valid(i),
            self.at(i) == v,
        ensures
            self.spec_get(i) == Some(v),
    {
    }

    /// Law: sentinel distinctness. A live handle is never the default
    /// (sentinel) handle: its position and stamp both stay strictly below
    /// the sentinel's.
    pub proof fn lemma_live_handle_not_sentinel(self, i: Index)
        requires
            self.wf(),
            self.valid(i),
        ensures
            i != Index::invalid_spec(),
            i.pos() < u32::MAX,
            i.stamp() < u32::MAX,
            i.stamp() <= self.stamp(),
            i.pos() < self.num_slots(),
    {
        assert(self.items@[i.pos() as int] is Used);
    }

    /// Law: no double validity. A slot position backs at most one valid
    /// handle at a time, so a handle is never "valid for two insertions".
    pub proof fn lemma_one_handle_per_slot(self, a: Index, b: Index)
        requires
            self.valid(a),
            self.valid(b),
            a.pos() == b.pos(),
        ensures
            a == b,
    {
    }

    /// Law: staleness detection. Once a removal has invalidated a handle and
    /// advanced the generation counter past its stamp, no later insertion can
    /// revive it: a handle minted afterwards for the same slot is a different
    /// handle, and the old one stays invalid even while the slot is live
    /// again.
    ///
    /// `self` is the arena just after the removal; `later` is the arena at
    /// any later time, with `h2` a handle minted at or after the removal
    /// (every operation keeps the counter from decreasing, and insertions
    /// stamp handles with the counter as they find it).
    pub proof fn lemma_removed_handle_stays_stale(
        self,
        later: Space<T>,
        h: Index,
        h2: Index,
    )
        requires
            self.wf(),
            !self.valid(h),
            h.stamp() < self.stamp(),
            later.wf(),
            later.stamp() >= self.stamp(),
            h2.stamp() >= self.stamp(),
            h2.pos() == h.pos(),
            later.valid(h2),
        ensures
            h2 != h,
            !later.valid(h),
            later.spec_get(h) is None,
    {
        assert(later.items@[h.pos() as int]->generation == h2.stamp());
    }

    /// Law: exhaustion then growth. A full arena (its free list empty) is
    /// exactly one whose live count equals its slot count; doubling the slot
    /// count, as the infallible insertion does before retrying, always yields
    /// room for at least one more value.
    pub proof fn lemma_exhaustion_then_growth(self, post: Space<T>)
        requires
            self.wf(),
            self.num_free() == 0,
            post.num_slots() == 2 * self.num_slots(),
        ensures
            self.live() == self.num_slots(),
            post.num_slots() >= self.live() + 1,
    {
    }

    /// Law: order-independence of storage. Three values inserted in sequence
    /// read back, each through its own handle, unchanged — whatever slots the
    /// free list handed out. `self` is the arena after the first insertion;
    /// the `requires` restate what the second and third insertions ensure.
    pub proof fn lemma_storage_order_independent(
        self,
        s2: Space<T>,
        s3: Space<T>,
        ha: Index,
        hb: Index,
        hc: Index,
        a: T,
        b: T,
        c: T,
    )
        requires
            self.valid(ha),
            self.at(ha) == a,
            s2.valid(hb),
            s2.at(hb) == b,
            !self.valid(hb),
            forall|j: Index| j != hb ==> s2.valid(j) == self.valid(j),
            forall|j: Index| self.valid(j) ==> s2.at(j) == self.at(j),
            s3.valid(hc),
            s3.at(hc) == c,
            !s2.valid(hc),
            forall|j: Index| j != hc ==> s3.valid(j) == s2.valid(j),
            forall|j: Index| s2.valid(j) ==> s3.at(j) == s2.at(j),
        ensures
            ha != hb && hb != hc && ha != hc,
            s3.valid(ha) && s3.at(ha) == a,
            s3.valid(hb) && s3.at(hb) == b,
            s3.valid(hc) && s3.at(hc) == c,
    {
        assert(ha != hb);
        assert(s2.valid(ha));
        assert(ha != hc && hb != hc);
        assert(s3.valid(ha) && s3.valid(hb));
    }

    /// Grow the backing store by `capacity` fresh `Free` slots, linked in
    /// ascending order, and put the new chain in front of the old free list.
    fn grow(&mut self, capacity: usize)
        requires
            old(self).inv0(),
            capacity >= 1,
            old(self).num_slots() + capacity < u32::MAX as int,
        ensures
            final(self).wf(),
            final(self).num_slots() == old(self).num_slots() + capacity,
            final(self).num_free() == old(self).num_free() + capacity,
            final(self).live() == old(self).live(),
            final(self).stamp() == old(self).stamp(),
            forall|i: Index| final(self).valid(i) == old(self).valid(i),
            forall|i: Index| old(self).valid(i) ==> final(self).at(i) == old(self).at(i),
            forall|k: int|
                0 <= k < capacity ==> #[trigger] final(self).free_order()[k] as int
                    == old(self).num_slots() + k,
            forall|k: int|
                capacity <= k < final(self).free_order().len()
                    ==> #[trigger] final(self).free_order()[k]
                    == old(self).free_order()[k - capacity],
    {
        let start = self.items.len();
        let end = start + capacity;
        let old_head = self.list_head;
        let ghost orig = *self;
        let mut i = start;
        while i < end
            invariant
                orig.inv0(),
                start == orig.items@.len(),
                end == start + capacity,
                start <= i <= end,
                end < u32::MAX as usize,
                self.items@.len() == i,
                self.generation == orig.generation,
                self.list_head == orig.list_head,
                self.len == orig.len,
                self.free@ == orig.free@,
                old_head == orig.list_head,
                used_from(self.items@, 0) == used_from(orig.items@, 0),
                forall|j: int| 0 <= j < start ==> self.items@[j] == orig.items@[j],
                forall|j: int|
                    start <= j < i ==> (#[trigger] self.items@[j]) is Free
                        && self.items@[j]->next_free == (if j == end - 1 {
                        old_head
                    } else {
                        Some((j + 1) as u32)
                    }),
            decreases end - i,
        {
            let next: Option<u32> = if i == end - 1 {
                old_head
            } else {
                Some((i + 1) as u32)
            };
            let ghost before = self.items@;
            self.items.push(Entry::Free { next_free: next });
            proof {
                lemma_used_from_push(before, Entry::Free { next_free: next }, 0);
            }
            i = i + 1;
        }
        self.list_head = Some(start as u32);
        self.free = Ghost(Seq::new(capacity as nat, |k: int| (start + k) as u32) + orig.free@);
        proof {
            let s = self.items@;
            let f = self.free@;
            let of = orig.free@;
            assert forall|k: int| 0 <= k < f.len() implies #[trigger] free_link_ok(s, f, k) by {
                if k < capacity {
                    assert(f[k] == (start + k) as u32);
                    assert(s[start + k] is Free);
                    if k + 1 < capacity {
                        assert(f[k + 1] == (start + k + 1) as u32);
                    } else {
                        if of.len() > 0 {
                            assert(f[k + 1] == of[0]);
                        }
                    }
                } else {
                    assert(f[k] == of[k - capacity]);
                    assert(free_link_ok(orig.items@, of, k - capacity));
                    assert((of[k - capacity] as int) < start);
                    assert(s[of[k - capacity] as int] == orig.items@[of[k - capacity] as int]);
                }
            }
            assert forall|p: int, q: int|
                0 <= p < f.len() && 0 <= q < f.len() && p != q implies f[p] != f[q] by {
                if p < capacity && q < capacity {
                } else if p < capacity && q >= capacity {
                    assert(free_link_ok(orig.items@, of, q - capacity));
                    assert((of[q - capacity] as int) < start);
                } else if p >= capacity && q < capacity {
                    assert(free_link_ok(orig.items@, of, p - capacity));
                    assert((of[p - capacity] as int) < start);
                } else {
                    assert(of.no_duplicates());
                    assert(of[p - capacity] != of[q - capacity]);
                }
            }
            assert(f.no_duplicates());
            assert forall|j: int|
                0 <= j < s.len() && (#[trigger] s[j]) is Free implies f.contains(j as u32) by {
                if j < start {
                    assert(orig.items@[j] is Free);
                    assert(of.contains(j as u32));
                    let m = choose|m: int| 0 <= m < of.len() && of[m] == j as u32;
                    assert(f[capacity + m] == j as u32);
                } else {
                    assert(f[j - start] == j as u32);
                }
            }
            assert forall|j: int|
                0 <= j < s.len() && (#[trigger] s[j]) is Used implies s[j]->generation
                <= self.generation by {
                if j >= start {
                    assert(s[j] is Free);
                } else {
                    assert(s[j] == orig.items@[j]);
                }
            }
            assert forall|i2: Index| self.valid(i2) == orig.valid(i2) by {
                if (i2.pos() as int) < s.len() {
                    if (i2.pos() as int) >= start {
                        assert(s[i2.pos() as int] is Free);
                    } else {
                        assert(s[i2.pos() as int] == orig.items@[i2.pos() as int]);
                    }
                }
            }
            assert forall|i2: Index| orig.valid(i2) implies self.at(i2) == orig.at(i2) by {
                assert(s[i2.pos() as int] == orig.items@[i2.pos() as int]);
            }
        }
    }

    /// Claim the head of the free list for `val`. On success the slot is
    /// stamped with the arena's current generation and the matching handle is
    /// returned; with the free list exhausted, the value comes back unclaimed
    /// — it is never dropped, and nothing panics.
    pub fn try_insert(&mut self, val: T) -> (r: Result<Index, T>)
        requires
            old(self).wf(),
        ensures
            final(self).wf(),
            final(self).num_slots() == old(self).num_slots(),
            final(self).stamp() == old(self).stamp(),
            old(self).num_free() == 0 ==> (r matches Err(v) && v == val && *final(self) == *old(
                self,
            )),
            old(self).num_free() > 0 ==> (r matches Ok(i) && {
                &&& final(self).valid(i)
                &&& final(self).at(i) == val
                &&& !old(self).valid(i)
                &&& i.stamp() == old(self).stamp()
                &&& (i.pos() as int) < old(self).num_slots()
                &&& i.pos() == old(self).free_order()[0]
                &&& final(self).free_order() == old(self).free_order().drop_first()
                &&& final(self).live() == old(self).live() + 1
                &&& final(self).num_free() == old(self).num_free() - 1
                &&& (forall|j: Index| j != i ==> final(self).valid(j) == old(self).valid(j))
                &&& (forall|j: Index|
                    old(self).valid(j) ==> final(self).at(j) == old(self).at(j))
            }),
    {
        match self.list_head {
            None => Err(val),
            Some(h) => {
                proof {
                    assert(self.free@.len() > 0);
                    assert(free_link_ok(self.items@, self.free@, 0));
                    assert(self.free@[0] == h);
                }
                let hu = h as usize;
                let next: Option<u32> = match &self.items[hu] {
                    Entry::Free { next_free } => *next_free,
                    Entry::Used { .. } => {
                        // A used slot at the head of the free list would mean
                        // the free list and the slot tags disagree;
                        // well-formedness proves this arm unreachable.
                        proof {
                            assert(false);
                        }
                        None
                    },
                };
                self.list_head = next;
                self.len = self.len + 1;
                let idx = Index { index: h, generation: self.generation };
                let ghost before = self.items@;
                let ghost of = self.free@;
                self.items.set(hu, Entry::Used { generation: self.generation, val });
                self.free = Ghost(self.free@.drop_first());
                proof {
                    let s = self.items@;
                    let f = self.free@;
                    lemma_used_from_update(
                        before,
                        h as int,
                        Entry::Used { generation: self.generation, val },
                        0,
                    );
                    assert forall|k: int| 0 <= k < f.len() implies #[trigger] free_link_ok(
                        s,
                        f,
                        k,
                    ) by {
                        assert(free_link_ok(before, of, k + 1));
                        assert(f[k] == of[k + 1]);
                        assert(of[k + 1] != of[0]);
                        assert(s[f[k] as int] == before[f[k] as int]);
                        if k + 1 < f.len() {
                            assert(f[k + 1] == of[k + 2]);
                        }
                    }
                    assert forall|p: int, q: int|
                        0 <= p < f.len() && 0 <= q < f.len() && p != q implies f[p] != f[q] by {
                        assert(f[p] == of[p + 1]);
                        assert(f[q] == of[q + 1]);
                    }
                    assert(f.no_duplicates());
                    assert forall|j: int|
                        0 <= j < s.len() && (#[trigger] s[j]) is Free implies f.contains(
                        j as u32,
                    ) by {
                        assert(s[j] == before[j]);
                        assert(of.contains(j as u32));
                        let m = choose|m: int| 0 <= m < of.len() && of[m] == j as u32;
                        assert(m != 0);
                        assert(f[m - 1] == j as u32);
                    }
                    assert forall|j: Index| j != idx implies self.valid(j) == old(self).valid(
                        j,
                    ) by {
                        if j.pos() == idx.pos() {
                            assert(s[j.pos() as int]->generation == self.generation);
                            assert(j.stamp() != idx.stamp());
                        } else if (j.pos() as int) < s.len() {
                            assert(s[j.pos() as int] == before[j.pos() as int]);
                        }
                    }
                    assert forall|j: Index| old(self).valid(j) implies self.at(j) == old(
                        self,
                    ).at(j) by {
                        assert(before[j.pos() as int] is Used);
                        assert(j.pos() != idx.pos());
                    }
                }
                Ok(idx)
            },
        }
    }

    /// Double the slot count, then claim a fresh slot: the first of the new
    /// batch, at the old slot count's position. Called when the free list is
    /// exhausted; failing again after growth would mean the arena's
    /// bookkeeping is corrupt, which well-formedness rules out.
    fn insert_slow_path(&mut self, val: T) -> (i: Index)
        requires
            old(self).wf(),
            old(self).num_free() == 0,
            2 * old(self).num_slots() < u32::MAX as int,
        ensures
            final(self).wf(),
            final(self).valid(i),
            final(self).at(i) == val,
            !old(self).valid(i),
            i.stamp() == old(self).stamp(),
            i.pos() as int == old(self).num_slots(),
            final(self).stamp() == old(self).stamp(),
            final(self).live() == old(self).live() + 1,
            final(self).num_slots() == 2 * old(self).num_slots(),
            final(self).num_free() as int == old(self).num_slots() - 1,
            forall|k: int|
                0 <= k < final(self).free_order().len()
                    ==> #[trigger] final(self).free_order()[k] as int
                    == old(self).num_slots() + 1 + k,
            forall|j: Index| j != i ==> final(self).valid(j) == old(self).valid(j),
            forall|j: Index| old(self).valid(j) ==> final(self).at(j) == old(self).at(j),
    {
        let len = self.items.len();
        self.reserve(len);
        match self.try_insert(val) {
            Ok(i) => i,
            // Failure right after growing would mean the arena's bookkeeping
            // is corrupt; the growth contract proves this arm unreachable.
            Err(_) => unreached(),
        }
    }

    /// Insert `val`, doubling the slot count first if the free list is
    /// exhausted; always returns a fresh valid handle, claimed from the head
    /// of the free list (the first slot of the new batch after a growth).
    pub fn insert(&mut self, val: T) -> (i: Index)
        requires
            old(self).wf(),
            old(self).num_free() == 0 ==> 2 * old(self).num_slots() < u32::MAX as int,
        ensures
            final(self).wf(),
            final(self).valid(i),
            final(self).at(i) == val,
            !old(self).valid(i),
            i.stamp() == old(self).stamp(),
            old(self).num_free() > 0 ==> (i.pos() == old(self).free_order()[0]
                && final(self).free_order() == old(self).free_order().drop_first()),
            old(self).num_free() == 0 ==> (i.pos() as int == old(self).num_slots()
                && (forall|k: int|
                    0 <= k < final(self).free_order().len()
                        ==> #[trigger] final(self).free_order()[k] as int
                        == old(self).num_slots() + 1 + k)),
            final(self).stamp() == old(self).stamp(),
            final(self).live() == old(self).live() + 1,
            final(self).num_slots() as int == (if old(self).num_free() == 0 {
                2 * old(self).num_slots() as int
            } else {
                old(self).num_slots() as int
            }),
            final(self).num_free() as int == (if old(self).num_free() == 0 {
                old(self).num_slots() - 1
            } else {
                old(self).num_free() - 1
            }),
            forall|j: Index| j != i ==> final(self).valid(j) == old(self).valid(j),
            forall|j: Index| old(self).valid(j) ==> final(self).at(j) == old(self).at(j),
    {
        match self.try_insert(val) {
            Ok(i) => i,
            Err(val) => self.insert_slow_path(val),
        }
    }

    /// Look up a handle: the stored value while the handle is valid, absent
    /// once it is stale or out of range. Constant-time and side-effect-free.
    pub fn get(&self, i: Index) -> (r: Option<&T>)
        ensures
            self.valid(i) ==> (r matches Some(v) && *v == self.at(i)),
            !self.valid(i) ==> r is None,
    {
        let pu = i.index as usize;
        if pu < self.items.len() {
            match &self.items[pu] {
                Entry::Used { generation, val } => {
                    if *generation == i.generation {
                        Some(val)
                    } else {
                        None
                    }
                },
                Entry::Free { .. } => None,
            }
        } else {
            None
        }
    }

    /// Checked indexed access, for call sites that have already established
    /// the handle's liveness.
    pub fn index(&self, i: Index) -> (r: &T)
        requires
            self.valid(i),
        ensures
            *r == self.at(i),
    {
        match self.get(i) {
            Some(v) => v,
            None => unreached(),
        }
    }

    /// Replace the value a valid handle refers to, returning the old value.
    /// The handle stays valid with its generation stamp unchanged, and every
    /// other entry is untouched: the arena's one in-place mutation path.
    pub fn replace(&mut self, i: Index, val: T) -> (r: T)
        requires
            old(self).wf(),
            old(self).valid(i),
        ensures
            r == old(self).at(i),
            final(self).wf(),
            final(self).valid(i),
            final(self).at(i) == val,
            final(self).num_slots() == old(self).num_slots(),
            final(self).num_free() == old(self).num_free(),
            final(self).live() == old(self).live(),
            final(self).stamp() == old(self).stamp(),
            forall|j: Index| final(self).valid(j) == old(self).valid(j),
            forall|j: Index|
                j != i && old(self).valid(j) ==> final(self).at(j) == old(self).at(j),
    {
        let pu = i.index as usize;
        let ghost before = self.items@;
        let mut entry = Entry::Used { generation: i.generation, val };
        self.items.set_and_swap(pu, &mut entry);
        proof {
            let s = self.items@;
            let f = self.free@;
            let e = s[pu as int];
            lemma_used_from_update(before, pu as int, e, 0);
            assert forall|k: int| 0 <= k < f.len() implies #[trigger] free_link_ok(s, f, k) by {
                assert(free_link_ok(before, f, k));
                assert(before[f[k] as int] is Free);
                assert(f[k] as int != pu as int);
                assert(s[f[k] as int] == before[f[k] as int]);
            }
            assert forall|j: int|
                0 <= j < s.len() && (#[trigger] s[j]) is Free implies f.contains(j as u32) by {
                assert(j != pu as int);
                assert(s[j] == before[j]);
            }
            assert forall|j: Index| self.valid(j) == old(self).valid(j) by {
                if j.pos() == i.pos() {
                    assert(s[j.pos() as int]->generation == i.stamp());
                } else if (j.pos() as int) < s.len() {
                    assert(s[j.pos() as int] == before[j.pos() as int]);
                }
            }
            assert forall|j: Index|
                j != i && old(self).valid(j) implies self.at(j) == old(self).at(j) by {
                assert(j.pos() != i.pos());
                assert(s[j.pos() as int] == before[j.pos() as int]);
            }
        }
        match entry {
            Entry::Used { val, .. } => val,
            Entry::Free { .. } => unreached(),
        }
    }

    /// Remove the value a valid handle refers to, relink its slot into the
    /// free list, and advance the generation counter past every stamp issued
    /// so far — so no handle to the old value can ever read a later occupant
    /// of the slot. A stale or unknown handle removes nothing.
    pub fn remove(&mut self, i: Index) -> (r: Option<T>)
        requires
            old(self).wf(),
            old(self).stamp() as int + 1 < u32::MAX as int,
        ensures
            final(self).wf(),
            final(self).num_slots() == old(self).num_slots(),
            final(self).stamp() >= old(self).stamp(),
            old(self).valid(i) ==> ({
                &&& r matches Some(v) && v == old(self).at(i)
                &&& !final(self).valid(i)
                &&& final(self).stamp() == old(self).stamp() + 1
                &&& i.stamp() < final(self).stamp()
                &&& final(self).live() == old(self).live() - 1
                &&& final(self).num_free() == old(self).num_free() + 1
                &&& final(self).free_order() == seq![i.pos()] + old(self).free_order()
                &&& (forall|j: Index| j != i ==> final(self).valid(j) == old(self).valid(j))
                &&& (forall|j: Index|
                    j != i && old(self).valid(j) ==> final(self).at(j) == old(self).at(j))
            }),
            !old(self).valid(i) ==> (r is None && *final(self) == *old(self)),
    {
        let pu = i.index as usize;
        if pu >= self.items.len() {
            return None;
        }
        let is_live = match &self.items[pu] {
            Entry::Used { generation, .. } => *generation == i.generation,
            Entry::Free { .. } => false,
        };
        if !is_live {
            return None;
        }
        let ghost before = self.items@;
        let ghost of = self.free@;
        proof {
            lemma_used_from_at_least_one(before, pu as int, 0);
        }
        let mut entry = Entry::Free { next_free: self.list_head };
        self.items.set_and_swap(pu, &mut entry);
        self.list_head = Some(i.index);
        self.len = self.len - 1;
        self.generation = self.generation + 1;
        self.free = Ghost(seq![i.pos()] + of);
        proof {
            let s = self.items@;
            let f = self.free@;
            let p = i.pos() as int;
            lemma_used_from_update(before, p, Entry::Free { next_free: old(self).list_head }, 0);
            assert forall|k: int| 0 <= k < of.len() implies of[k] != i.pos() by {
                assert(free_link_ok(before, of, k));
            }
            assert forall|k: int| 0 <= k < f.len() implies #[trigger] free_link_ok(s, f, k) by {
                if k == 0 {
                    assert(f[0] == i.pos());
                    assert(s[p] is Free);
                } else {
                    assert(f[k] == of[k - 1]);
                    assert(free_link_ok(before, of, k - 1));
                    assert(s[f[k] as int] == before[f[k] as int]);
                    if k + 1 < f.len() {
                        assert(f[k + 1] == of[k]);
                    }
                }
            }
            assert forall|a: int, b: int|
                0 <= a < f.len() && 0 <= b < f.len() && a != b implies f[a] != f[b] by {
                if a > 0 && b > 0 {
                    assert(f[a] == of[a - 1]);
                    assert(f[b] == of[b - 1]);
                }
            }
            assert(f.no_duplicates());
            assert forall|j: int|
                0 <= j < s.len() && (#[trigger] s[j]) is Free implies f.contains(j as u32) by {
                if j == p {
                    assert(f[0] == j as u32);
                } else {
                    assert(s[j] == before[j]);
                    assert(of.contains(j as u32));
                    let m = choose|m: int| 0 <= m < of.len() && of[m] == j as u32;
                    assert(f[m + 1] == j as u32);
                }
            }
            assert forall|j: int|
                0 <= j < s.len() && (#[trigger] s[j]) is Used implies s[j]->generation
                <= self.generation by {
                assert(s[j] == before[j]);
            }
            assert forall|j: Index| j != i implies self.valid(j) == old(self).valid(j) by {
                if j.pos() == i.pos() {
                    assert(!self.valid(j));
                    assert(old(self).valid(j) ==> j.stamp() == i.stamp());
                } else if (j.pos() as int) < s.len() {
                    assert(s[j.pos() as int] == before[j.pos() as int]);
                }
            }
            assert forall|j: Index| j != i && old(self).valid(j) implies self.at(j) == old(
                self,
            ).at(j) by {
                assert(j.pos() != i.pos());
                assert(s[j.pos() as int] == before[j.pos() as int]);
            }
        }
        match entry {
            Entry::Used { val, .. } => Some(val),
            Entry::Free { .. } => unreached(),
        }
    }

    /// The live values in slot-position order: what a full iteration yields.
    pub closed spec fn vals(self) -> Seq<T> {
        used_vals_from(self.items@, 0)
    }

    /// Number of live entries at slot positions `k` and beyond.
    pub closed spec fn live_from(self, k: int) -> nat {
        used_from(self.items@, k)
    }

    /// Total number of slots, free and used.
    pub fn capacity(&self) -> (r: usize)
        ensures
            r == self.num_slots(),
    {
        self.items.len()
    }

    /// Number of live entries.
    pub fn len(&self) -> (r: usize)
        ensures
            r == self.live(),
    {
        self.len
    }

    /// A borrowing iterator over the live entries, in slot-position order,
    /// with an exact remaining count.
    pub fn iter(&self) -> (it: Iter<'_, T>)
        requires
            self.wf(),
        ensures
            it.wf(),
            it.arena() == *self,
            it.cursor() == 0,
            it.remaining() == self.live(),
    {
        Iter { space: self, pos: 0, rem: self.len }
    }

    /// A consuming iterator over the live values, in slot-position order,
    /// with an exact remaining count.
    pub fn into_iter(self) -> (it: IntoIter<T>)
        requires
            self.wf(),
        ensures
            it.wf(),
            it.remaining_vals() == self.vals(),
            it.remaining_vals().len() == self.live(),
    {
        let n = self.len;
        let Space { mut items, .. } = self;
        let ghost orig = items@;
        proof {
            lemma_used_vals_len(orig, 0);
            assert(items@ =~= orig.subrange(0, items@.len() as int));
        }
        let mut rev: Vec<Entry<T>> = Vec::new();
        while items.len() > 0
            invariant
                items@.len() <= orig.len(),
                items@ == orig.subrange(0, items@.len() as int),
                rev_used_vals(rev@) == used_vals_from(orig, items@.len() as int),
            decreases items@.len(),
        {
            let ghost items_before = items@;
            let ghost rev_before = rev@;
            let e = items.pop().unwrap();
            let ghost ge = e;
            rev.push(e);
            proof {
                let m = items@.len() as int;
                assert(ge == items_before.last());
                assert(ge == orig[m]);
                assert(items@ =~= orig.subrange(0, m));
                assert(rev@.drop_last() =~= rev_before);
                assert(rev@.last() == ge);
                if ge is Used {
                    assert(rev_used_vals(rev@) == seq![ge->val] + rev_used_vals(rev_before));
                    assert(used_vals_from(orig, m) == seq![orig[m]->val] + used_vals_from(
                        orig,
                        m + 1,
                    ));
                } else {
                    assert(rev_used_vals(rev@) == Seq::<T>::empty() + rev_used_vals(rev_before));
                    assert(used_vals_from(orig, m) == Seq::<T>::empty() + used_vals_from(
                        orig,
                        m + 1,
                    ));
                }
                assert(rev_used_vals(rev@) =~= used_vals_from(orig, m));
            }
        }
        IntoIter { entries: rev, len: n }
    }

    /// Grow the backing store by `capacity` slots. The new batch, positions
    /// `[old slot count, old slot count + capacity)`, is linked in ascending
    /// order and prepended in front of the old free-list head, so the most
    /// recently reserved capacity is consumed before older freed capacity;
    /// existing positions are never reordered or invalidated.
    pub fn reserve(&mut self, capacity: usize)
        requires
            old(self).wf(),
            old(self).num_slots() + capacity < u32::MAX as int,
        ensures
            final(self).wf(),
            final(self).num_slots() == old(self).num_slots() + capacity,
            final(self).num_free() == old(self).num_free() + capacity,
            final(self).live() == old(self).live(),
            final(self).stamp() == old(self).stamp(),
            forall|i: Index| final(self).valid(i) == old(self).valid(i),
            forall|i: Index| old(self).valid(i) ==> final(self).at(i) == old(self).at(i),
            forall|k: int|
                0 <= k < capacity ==> #[trigger] final(self).free_order()[k] as int
                    == old(self).num_slots() + k,
            forall|k: int|
                capacity <= k < final(self).free_order().len()
                    ==> #[trigger] final(self).free_order()[k]
                    == old(self).free_order()[k - capacity],
    {
        if capacity == 0 {
            return ;
        }
        self.grow(capacity);
    }
}

/// A borrowing iterator over the live entries of a `Space`: yields each live
/// (handle, value) pair once, in slot-position order, skipping free slots,
/// and always knows exactly how many live entries remain. Once exhausted it
/// stays exhausted.
#[derive(Clone)]
pub struct Iter<'a, T> {
    space: &'a Space<T>,
    pos: usize,
    rem: usize,
}

impl<'a, T> Iter<'a, T> {
    /// The arena being iterated.
    pub closed spec fn arena(self) -> Space<T> {
        *self.space
    }

    /// The slot position the next scan starts from.
    pub closed spec fn cursor(self) -> nat {
        self.pos as nat
    }

    /// How many live entries are still to come.
    pub closed spec fn remaining(self) -> nat {
        self.rem as nat
    }

    pub closed spec fn wf(self) -> bool {
        &&& self.space.wf()
        &&& self.pos <= self.space.items@.len()
        &&& self.rem == used_from(self.space.items@, self.pos as int)
    }

    /// The exact number of live entries not yet yielded.
    pub fn len(&self) -> (r: usize)
        ensures
            r == self.remaining(),
    {
        self.rem
    }

    /// Law: exact-size iteration. At every point of an iteration — at the
    /// start and after any partial consumption — the reported length equals
    /// the number of live entries the arena holds at or past the cursor; a
    /// fresh iterator therefore reports exactly the arena's live count.
    pub proof fn lemma_len_counts_live(self)
        requires
            self.wf(),
        ensures
            self.remaining() == self.arena().live_from(self.cursor() as int),
            self.cursor() == 0 ==> self.remaining() == self.arena().live(),
    {
    }

    /// The next live entry at or past the cursor, as a (handle, value) pair;
    /// `None` exactly when every live entry has been yielded.
    pub fn next(&mut self) -> (r: Option<(Index, &'a T)>)
        requires
            old(self).wf(),
        ensures
            final(self).wf(),
            final(self).arena() == old(self).arena(),
            old(self).remaining() == 0 ==> (r is None && final(self).remaining() == 0
                && final(self).cursor() == old(self).arena().num_slots()),
            old(self).remaining() > 0 ==> (r matches Some((i, v)) && {
                &&& final(self).remaining() == old(self).remaining() - 1
                &&& old(self).arena().valid(i)
                &&& *v == old(self).arena().at(i)
                &&& i.pos() >= old(self).cursor()
                &&& final(self).cursor() == i.pos() + 1
            }),
    {
        let ghost orig = *self;
        while self.pos < self.space.items.len()
            invariant
                orig == *old(self),
                self.space == orig.space,
                orig.space.wf(),
                orig.pos <= self.pos <= self.space.items@.len(),
                self.rem == orig.rem,
                self.rem == used_from(self.space.items@, self.pos as int),
            decreases self.space.items@.len() - self.pos,
        {
            let p = self.pos;
            self.pos = p + 1;
            match &self.space.items[p] {
                Entry::Used { generation, val } => {
                    self.rem = self.rem - 1;
                    let idx = Index { index: p as u32, generation: *generation };
                    return Some((idx, val));
                },
                Entry::Free { .. } => {},
            }
        }
        None
    }
}

/// A consuming iterator over the live values of a `Space`: yields each live
/// value once, in slot-position order, skipping free slots, with an exact
/// remaining count. Once exhausted it stays exhausted.
#[derive(Clone)]
pub struct IntoIter<T> {
    /// The not-yet-visited entries, kept in reverse slot order so the next
    /// entry is popped from the back.
    entries: Vec<Entry<T>>,
    len: usize,
}

impl<T> IntoIter<T> {
    /// The live values still to be yielded, in the order they will come.
    pub closed spec fn remaining_vals(self) -> Seq<T> {
        rev_used_vals(self.entries@)
    }

    pub closed spec fn wf(self) -> bool {
        self.len == rev_used_vals(self.entries@).len()
    }

    /// The exact number of live values not yet yielded.
    pub fn len(&self) -> (r: usize)
        requires
            self.wf(),
        ensures
            r == self.remaining_vals().len(),
    {
        self.len
    }

    /// The next live value; `None` exactly when all have been yielded.
    pub fn next(&mut self) -> (r: Option<T>)
        requires
            old(self).wf(),
        ensures
            final(self).wf(),
            old(self).remaining_vals().len() == 0 ==> (r is None && final(self).remaining_vals()
                == old(self).remaining_vals()),
            old(self).remaining_vals().len() > 0 ==> (r matches Some(v) && v == old(
                self,
            ).remaining_vals()[0] && final(self).remaining_vals() == old(
                self,
            ).remaining_vals().drop_first()),
    {
        let ghost orig_vals = rev_used_vals(self.entries@);
        loop
            invariant
                orig_vals == old(self).remaining_vals(),
                rev_used_vals(self.entries@) == orig_vals,
                self.len == orig_vals.len(),
            decreases self.entries@.len(),
        {
            if self.entries.len() == 0 {
                return None;
            }
            let ghost before = self.entries@;
            let e = self.entries.pop().unwrap();
            proof {
                assert(e == before.last());
                assert(before.drop_last() == self.entries@);
            }
            match e {
                Entry::Free { .. } => {
                    proof {
                        assert(rev_used_vals(before) == Seq::<T>::empty() + rev_used_vals(
                            self.entries@,
                        ));
                        assert(Seq::<T>::empty() + rev_used_vals(self.entries@) =~= rev_used_vals(
                            self.entries@,
                        ));
                    }
                },
                Entry::Used { val, .. } => {
                    proof {
                        assert(before.last() is Used);
                        assert(rev_used_vals(before) == seq![before.last()->val] + rev_used_vals(
                            self.entries@,
                        ));
                        assert((seq![before.last()->val] + rev_used_vals(self.entries@))[0]
                            == before.last()->val);
                        assert((seq![before.last()->val] + rev_used_vals(
                            self.entries@,
                        )).drop_first() =~= rev_used_vals(self.entries@));
                    }
                    self.len = self.len - 1;
                    return Some(val);
                },
            }
        }
    }
}

} // verus!
