//! A thin domain wrapper around the arena, showing its intended usage
//! pattern: insertion that returns a stable handle, handle-checked lookup,
//! and append-only change logs that a downstream consumer (for instance a
//! renderer keeping visual copies in sync) drains on its own schedule.

use vstd::prelude::*;

use crate::space::{Index, Iter, Space};

verus! {

/// Marker flags attached to every scene object.
#[derive(Clone)]
pub struct ObjectFlags {}

/// A handle to a scene object: a newtype over the arena's `Index`, with the
/// same sentinel ("no object") value.
#[derive(Debug, Clone, Copy, PartialEq, Eq, Hash, Structural)]
pub struct ObjectHandle(pub Index);

impl ObjectHandle {
    /// The sentinel handle, never returned by an insertion.
    pub fn invalid() -> (r: Self)
        ensures
            r.0 == Index::invalid_spec(),
    {
        let i = Index::from_raw_parts(u32::MAX, u32::MAX);
        proof {
            Index::lemma_sentinel_parts();
            Index::lemma_parts_determine_index(i, Index::invalid_spec());
        }
        ObjectHandle(i)
    }
}

impl Default for ObjectHandle {
    /// The sentinel handle.
    fn default() -> (r: Self)
        ensures
            r.0 == Index::invalid_spec(),
    {
        ObjectHandle::invalid()
    }
}

/// Linkage of an object to a parent object. The geometric offset relative to
/// the parent lives with the rendering layer; the arena-level state is the
/// parent handle itself.
#[derive(Clone, Copy)]
pub struct ObjectParent {
    pub handle: ObjectHandle,
}

/// A scene object as the arena-level model sees it: parent linkage and the
/// caller-owned tag. Geometry stays with the rendering layer, which re-reads
/// current state through the handle whenever it synchronizes.
#[derive(Clone)]
pub struct SceneObject {
    pub parent: Option<ObjectParent>,
    pub flags: ObjectFlags,
    pub user_data: u128,
}

/// One arena of scene objects plus two append-only logs of handles. The logs
/// are caller-owned and caller-drained: nothing here clears or deduplicates
/// them, so a consumer may rely on multiplicity.
pub struct ObjectSet {
    pub objects: Space<SceneObject>,
    pub removed_objects: Vec<ObjectHandle>,
    pub changed_objects: Vec<ObjectHandle>,
}

impl ObjectSet {
    pub open spec fn wf(self) -> bool {
        self.objects.wf()
    }

    /// An empty set: a fresh arena and empty logs.
    pub fn new() -> (r: Self)
        ensures
            r.wf(),
            r.objects.live() == 0,
            r.objects.stamp() == 0,
            forall|i: Index| !r.objects.valid(i),
            r.removed_objects@ == Seq::<ObjectHandle>::empty(),
            r.changed_objects@ == Seq::<ObjectHandle>::empty(),
    {
        Self { objects: Space::new(), removed_objects: Vec::new(), changed_objects: Vec::new() }
    }

    /// Insert an object. New objects start unparented: any inherited parent
    /// linkage is cleared. The fresh handle is appended to the change log so
    /// a consumer can discover it without rescanning the arena.
    pub fn insert(&mut self, obj: SceneObject) -> (h: ObjectHandle)
        requires
            old(self).wf(),
            old(self).objects.num_free() == 0 ==> 2 * old(self).objects.num_slots()
                < u32::MAX as int,
        ensures
            final(self).wf(),
            final(self).objects.valid(h.0),
            !old(self).objects.valid(h.0),
            final(self).objects.at(h.0) == (SceneObject { parent: None, ..obj }),
            final(self).objects.live() == old(self).objects.live() + 1,
            forall|j: Index|
                j != h.0 ==> final(self).objects.valid(j) == old(self).objects.valid(j),
            forall|j: Index|
                old(self).objects.valid(j) ==> final(self).objects.at(j) == old(
                    self,
                ).objects.at(j),
            final(self).changed_objects@ == old(self).changed_objects@.push(h),
            final(self).removed_objects@ == old(self).removed_objects@,
    {
        let mut obj = obj;
        obj.parent = None;
        let handle = ObjectHandle(self.objects.insert(obj));
        self.changed_objects.push(handle);
        handle
    }

    /// Handle-checked lookup: the object while the handle is valid, absent
    /// once it is stale or unknown.
    pub fn get(&self, handle: ObjectHandle) -> (r: Option<&SceneObject>)
        ensures
            self.objects.valid(handle.0) ==> (r matches Some(v) && *v == self.objects.at(
                handle.0,
            )),
            !self.objects.valid(handle.0) ==> r is None,
    {
        self.objects.get(handle.0)
    }

    /// Replace the object a valid handle refers to, returning the old one:
    /// the in-place mutation path. Nothing is logged; callers tracking
    /// changes append the handle to the change log themselves.
    pub fn replace(&mut self, handle: ObjectHandle, obj: SceneObject) -> (r: SceneObject)
        requires
            old(self).wf(),
            old(self).objects.valid(handle.0),
        ensures
            final(self).wf(),
            r == old(self).objects.at(handle.0),
            final(self).objects.valid(handle.0),
            final(self).objects.at(handle.0) == obj,
            final(self).objects.live() == old(self).objects.live(),
            forall|j: Index| final(self).objects.valid(j) == old(self).objects.valid(j),
            forall|j: Index|
                j != handle.0 && old(self).objects.valid(j) ==> final(self).objects.at(j) == old(
                    self,
                ).objects.at(j),
            final(self).changed_objects@ == old(self).changed_objects@,
            final(self).removed_objects@ == old(self).removed_objects@,
    {
        self.objects.replace(handle.0, obj)
    }

    /// Checked indexed access, for call sites that have already established
    /// the handle's liveness.
    pub fn index(&self, handle: ObjectHandle) -> (r: &SceneObject)
        requires
            self.objects.valid(handle.0),
        ensures
            *r == self.objects.at(handle.0),
    {
        self.objects.index(handle.0)
    }

    /// Iterate the live objects with an exact remaining count.
    pub fn iter(&self) -> (it: ObjectIter<'_>)
        requires
            self.wf(),
        ensures
            it.wf(),
            it.arena() == self.objects,
            it.cursor() == 0,
            it.remaining() == self.objects.live(),
    {
        ObjectIter { inner: self.objects.iter() }
    }
}

/// A borrowing iterator over the live objects of an `ObjectSet`: the arena's
/// iterator with the handle type substituted for the raw `Index`. Yields each
/// live (handle, object) pair once, in slot-position order, with an exact
/// remaining count; once exhausted it stays exhausted.
pub struct ObjectIter<'a> {
    inner: Iter<'a, SceneObject>,
}

impl<'a> ObjectIter<'a> {
    /// The arena being iterated.
    pub closed spec fn arena(self) -> Space<SceneObject> {
        self.inner.arena()
    }

    /// The slot position the next scan starts from.
    pub closed spec fn cursor(self) -> nat {
        self.inner.cursor()
    }

    /// How many live objects are still to come.
    pub closed spec fn remaining(self) -> nat {
        self.inner.remaining()
    }

    pub closed spec fn wf(self) -> bool {
        self.inner.wf()
    }

    /// The exact number of live objects not yet yielded.
    pub fn len(&self) -> (r: usize)
        ensures
            r == self.remaining(),
    {
        self.inner.len()
    }

    /// The next live object at or past the cursor, as a (handle, object)
    /// pair; `None` exactly when every live object has been yielded.
    pub fn next(&mut self) -> (r: Option<(ObjectHandle, &'a SceneObject)>)
        requires
            old(self).wf(),
        ensures
            final(self).wf(),
            final(self).arena() == old(self).arena(),
            old(self).remaining() == 0 ==> (r is None && final(self).remaining() == 0
                && final(self).cursor() == old(self).arena().num_slots()),
            old(self).remaining() > 0 ==> (r matches Some((h, v)) && {
                &&& final(self).remaining() == old(self).remaining() - 1
                &&& old(self).arena().valid(h.0)
                &&& *v == old(self).arena().at(h.0)
                &&& h.0.pos() >= old(self).cursor()
                &&& final(self).cursor() == h.0.pos() + 1
            }),
    {
        match self.inner.next() {
            Some((i, v)) => Some((ObjectHandle(i), v)),
            None => None,
        }
    }
}

} // verus!
