//! The table of live protocol objects of one connection.
use vstd::prelude::*;
use std::collections::HashMap;

verus! {

broadcast use vstd::std_specs::hash::group_hash_axioms;

/// Ids below this value are allocated by the server; the client allocates ids
/// from this value up.
pub const CLIENT_ID_BASE: u32 = 0xff00_0000;

/// Id of the root display object, present from connection time.
pub const DISPLAY_ID: u32 = 1;

/// What the table knows of one live object.
#[derive(Clone, Copy, Debug, PartialEq, Eq)]
pub struct ObjectInfo {
    /// Index of the object's interface in the protocol's interface table.
    pub interface: usize,
    /// Version the object was bound at.
    pub version: u32,
    /// Event queue the object's events are delivered to.
    pub queue: usize,
}

/// Why an id could not be bound.
#[derive(Clone, Copy, Debug, PartialEq, Eq)]
pub enum RegisterError {
    /// Id 0, or a client id that was never allocated.
    InvalidId,
    /// The id is bound to a live object.
    AlreadyBound,
}

/// Mapping from object id to live object. Client ids are handed out in
/// increasing order and never reused, so an id once freed stays unbound
/// unless the server creates an object under it again.
pub struct ObjectTable {
    objects: HashMap<u32, ObjectInfo>,
    next_client_id: u32,
}

impl View for ObjectTable {
    type V = Map<u32, ObjectInfo>;

    closed spec fn view(&self) -> Map<u32, ObjectInfo> {
        self.objects@
    }
}

impl ObjectTable {
    /// The next client id to be handed out, or `u32::MAX` once the client
    /// range is used up.
    pub closed spec fn next_id(&self) -> u32 {
        self.next_client_id
    }

    /// Every bound id lies below the next client id.
    pub closed spec fn wf(&self) -> bool {
        &&& self.next_client_id >= CLIENT_ID_BASE
        &&& forall|id: u32| #[trigger] self.objects@.contains_key(id) ==> 0 < id < self.next_client_id
    }

    /// An empty table.
    pub fn new() -> (t: ObjectTable)
        ensures
            t.wf(),
            t@ == Map::<u32, ObjectInfo>::empty(),
            t.next_id() == CLIENT_ID_BASE,
    {
        ObjectTable { objects: HashMap::new(), next_client_id: CLIENT_ID_BASE }
    }

    /// Hands out a client id that is not bound, or `None` once the client
    /// range is used up.
    pub fn allocate_client_id(&mut self) -> (r: Option<u32>)
        requires
            old(self).wf(),
        ensures
            final(self).wf(),
            final(self)@ == old(self)@,
            old(self).next_id() == u32::MAX <==> r is None,
            r is Some ==> r->0 == old(self).next_id() && !old(self)@.contains_key(r->0),
            r is Some ==> r->0 >= CLIENT_ID_BASE,
            r is Some ==> final(self).next_id() == old(self).next_id() + 1,
            r is None ==> final(self).next_id() == old(self).next_id(),
    {
        if self.next_client_id == u32::MAX {
            None
        } else {
            let id = self.next_client_id;
            self.next_client_id = id + 1;
            Some(id)
        }
    }

    /// Binds `id` to a live object.
    pub fn register(&mut self, id: u32, info: ObjectInfo) -> (r: Result<(), RegisterError>)
        requires
            old(self).wf(),
        ensures
            final(self).wf(),
            final(self).next_id() == old(self).next_id(),
            old(self).next_id() >= CLIENT_ID_BASE,
            (id == 0 || id >= old(self).next_id()) ==> r == Err::<(), RegisterError>(RegisterError::InvalidId),
            (0 < id < old(self).next_id() && old(self)@.contains_key(id)) ==> r == Err::<(), RegisterError>(RegisterError::AlreadyBound),
            r is Ok <==> (0 < id < old(self).next_id() && !old(self)@.contains_key(id)),
            r is Ok ==> final(self)@ == old(self)@.insert(id, info),
            r is Err ==> final(self)@ == old(self)@,
    {
        if id == 0 || id >= self.next_client_id {
            return Err(RegisterError::InvalidId);
        }
        if self.objects.contains_key(&id) {
            return Err(RegisterError::AlreadyBound);
        }
        self.objects.insert(id, info);
        Ok(())
    }

    /// The live object bound to `id`, if any.
    pub fn resolve(&self, id: u32) -> (r: Option<ObjectInfo>)
        ensures
            r == (if self@.contains_key(id) { Some(self@[id]) } else { None::<ObjectInfo> }),
    {
        match self.objects.get(&id) {
            Some(info) => Some(*info),
            None => None,
        }
    }

    /// Replaces what is known of the live object `id`.
    pub fn rebind(&mut self, id: u32, info: ObjectInfo)
        requires
            old(self).wf(),
            old(self)@.contains_key(id),
        ensures
            final(self).wf(),
            final(self).next_id() == old(self).next_id(),
            final(self)@ == old(self)@.insert(id, info),
    {
        self.objects.insert(id, info);
    }

    /// Unbinds `id`; tells whether it was bound.
    pub fn destroy(&mut self, id: u32) -> (r: bool)
        requires
            old(self).wf(),
        ensures
            final(self).wf(),
            final(self).next_id() == old(self).next_id(),
            final(self)@ == old(self)@.remove(id),
            r == old(self)@.contains_key(id),
    {
        self.objects.remove(&id).is_some()
    }
}

/// No id that the table will hand out next is bound, in a well-formed table.
pub proof fn lemma_unallocated_ids_unbound(t: &ObjectTable, id: u32)
    requires
        t.wf(),
        id >= t.next_id(),
    ensures
        !t@.contains_key(id),
{
}

} // verus!
