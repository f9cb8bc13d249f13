//! A two-way table between guest-visible handles and host resources.
//!
//! A handle is the address of a guest allocation that serves as an identity
//! only. A resource is whatever number the host uses to name the thing behind
//! it. While an entry exists, its handle stands for its resource and for no
//! other, and its resource is found under its handle and under no other.

use crate::mem::VAddr;
use std::collections::HashMap;
use vstd::prelude::*;

verus! {

/// How the host names a resource.
pub type HostResource = usize;

/// Why an entry could not be added.
#[derive(Clone, Copy, Debug, PartialEq, Eq, Structural)]
pub enum RegisterError {
    /// The handle already stands for a resource.
    HandleInUse,
    /// The resource already has a handle.
    ResourceInUse,
}

/// The table, kept in both directions.
pub struct HandleMap {
    forward: HashMap<VAddr, HostResource>,
    reverse: HashMap<HostResource, VAddr>,
}

impl View for HandleMap {
    type V = Map<VAddr, HostResource>;

    /// The entries, handle to resource.
    closed spec fn view(&self) -> Map<VAddr, HostResource> {
        self.forward@
    }
}

/// No two handles of `entries` stand for the same resource.
pub open spec fn injective(entries: Map<VAddr, HostResource>) -> bool {
    forall|a: VAddr, b: VAddr|
        #![trigger entries.contains_key(a), entries.contains_key(b)]
        entries.contains_key(a) && entries.contains_key(b) && entries[a] == entries[b] ==> a == b
}

/// `resource` has a handle in `entries`.
pub open spec fn has_resource(entries: Map<VAddr, HostResource>, resource: HostResource) -> bool {
    exists|handle: VAddr| #[trigger] entries.contains_key(handle) && entries[handle] == resource
}

/// The handle of `resource` in `entries`.
pub open spec fn handle_of(entries: Map<VAddr, HostResource>, resource: HostResource) -> VAddr {
    choose|handle: VAddr| #[trigger] entries.contains_key(handle) && entries[handle] == resource
}

/// In a table without shared resources, the handle of a resource is the one
/// handle that stands for it.
pub proof fn lemma_handle_of(
    entries: Map<VAddr, HostResource>,
    handle: VAddr,
    resource: HostResource,
)
    requires
        injective(entries),
        entries.contains_key(handle),
        entries[handle] == resource,
    ensures
        has_resource(entries, resource),
        handle_of(entries, resource) == handle,
{
    let found = handle_of(entries, resource);
    assert(entries.contains_key(found) && entries.contains_key(handle));
}

impl HandleMap {
    /// The two directions say the same.
    pub closed spec fn wf(&self) -> bool {
        &&& forall|handle: VAddr| #[trigger]
            self.forward@.contains_key(handle) ==> {
                &&& self.reverse@.contains_key(self.forward@[handle])
                &&& self.reverse@[self.forward@[handle]] == handle
            }
        &&& forall|resource: HostResource| #[trigger]
            self.reverse@.contains_key(resource) ==> {
                &&& self.forward@.contains_key(self.reverse@[resource])
                &&& self.forward@[self.reverse@[resource]] == resource
            }
    }

    /// A well-formed table is one-to-one and has finitely many entries.
    pub proof fn lemma_bijective(&self)
        requires
            self.wf(),
        ensures
            injective(self@),
            self@.dom().finite(),
    {
        broadcast use vstd::std_specs::hash::group_hash_axioms;

        assert forall|a: VAddr, b: VAddr|
            #![trigger self@.contains_key(a), self@.contains_key(b)]
            self@.contains_key(a) && self@.contains_key(b) && self@[a] == self@[b] implies a
            == b by {
            assert(self.reverse@[self.forward@[a]] == a);
            assert(self.reverse@[self.forward@[b]] == b);
        }
    }

    pub fn new() -> (table: Self)
        ensures
            table.wf(),
            table@ == Map::<VAddr, HostResource>::empty(),
    {
        HandleMap { forward: HashMap::new(), reverse: HashMap::new() }
    }

    /// Number of entries.
    pub fn len(&self) -> (count: usize)
        requires
            self.wf(),
        ensures
            count == self@.len(),
    {
        broadcast use vstd::std_specs::hash::group_hash_axioms;

        self.forward.len()
    }

    /// Whether `handle` stands for a resource.
    pub fn contains_handle(&self, handle: VAddr) -> (found: bool)
        ensures
            found == self@.contains_key(handle),
    {
        broadcast use vstd::std_specs::hash::group_hash_axioms;

        self.forward.contains_key(&handle)
    }

    /// Whether `resource` has a handle.
    pub fn contains_resource(&self, resource: HostResource) -> (found: bool)
        requires
            self.wf(),
        ensures
            found == has_resource(self@, resource),
    {
        broadcast use vstd::std_specs::hash::group_hash_axioms;

        let found = self.reverse.contains_key(&resource);
        proof {
            if found {
                assert(self.forward@.contains_key(self.reverse@[resource]));
            } else {
                if has_resource(self@, resource) {
                    let handle = handle_of(self@, resource);
                    assert(self.forward@.contains_key(handle));
                }
            }
        }
        found
    }

    /// The resource that `handle` stands for, or `None` when the handle was
    /// never registered or has been removed.
    pub fn resource(&self, handle: VAddr) -> (found: Option<HostResource>)
        ensures
            found == if self@.contains_key(handle) {
                Some(self@[handle])
            } else {
                None
            },
    {
        broadcast use vstd::std_specs::hash::group_hash_axioms;

        match self.forward.get(&handle) {
            Some(resource) => Some(*resource),
            None => None,
        }
    }

    /// The handle that stands for `resource`, or `None` when the resource was
    /// never registered or its entry has been removed.
    pub fn handle(&self, resource: HostResource) -> (found: Option<VAddr>)
        requires
            self.wf(),
        ensures
            found == if has_resource(self@, resource) {
                Some(handle_of(self@, resource))
            } else {
                None
            },
    {
        broadcast use vstd::std_specs::hash::group_hash_axioms;

        match self.reverse.get(&resource) {
            Some(handle) => {
                proof {
                    self.lemma_bijective();
                    assert(self.forward@.contains_key(*handle));
                    lemma_handle_of(self@, *handle, resource);
                }
                Some(*handle)
            },
            None => {
                proof {
                    if has_resource(self@, resource) {
                        let handle = handle_of(self@, resource);
                        assert(self.forward@.contains_key(handle));
                    }
                }
                None
            },
        }
    }

    /// Adds the entry `handle` to `resource`. Nothing is added when either
    /// side is already in use.
    pub fn register(&mut self, handle: VAddr, resource: HostResource) -> (outcome: Result<
        (),
        RegisterError,
    >)
        requires
            old(self).wf(),
        ensures
            final(self).wf(),
            outcome == if old(self)@.contains_key(handle) {
                Err::<(), RegisterError>(RegisterError::HandleInUse)
            } else if has_resource(old(self)@, resource) {
                Err::<(), RegisterError>(RegisterError::ResourceInUse)
            } else {
                Ok::<(), RegisterError>(())
            },
            final(self)@ == if outcome.is_ok() {
                old(self)@.insert(handle, resource)
            } else {
                old(self)@
            },
    {
        broadcast use vstd::std_specs::hash::group_hash_axioms;

        if self.forward.contains_key(&handle) {
            return Err(RegisterError::HandleInUse);
        }
        if self.contains_resource(resource) {
            return Err(RegisterError::ResourceInUse);
        }
        self.forward.insert(handle, resource);
        self.reverse.insert(resource, handle);
        proof {
            assert forall|h: VAddr| #[trigger] self.forward@.contains_key(h) implies {
                &&& self.reverse@.contains_key(self.forward@[h])
                &&& self.reverse@[self.forward@[h]] == h
            } by {
                if h != handle {
                    assert(old(self).forward@.contains_key(h));
                    if old(self).forward@[h] == resource {
                        assert(old(self).reverse@.contains_key(resource));
                    }
                }
            }
            assert forall|r: HostResource| #[trigger] self.reverse@.contains_key(r) implies {
                &&& self.forward@.contains_key(self.reverse@[r])
                &&& self.forward@[self.reverse@[r]] == r
            } by {
                if r != resource {
                    assert(old(self).reverse@.contains_key(r));
                }
            }
        }
        Ok(())
    }

    /// Removes the entry of `handle` and gives back its resource, or `None`
    /// when there is no such entry.
    pub fn remove(&mut self, handle: VAddr) -> (removed: Option<HostResource>)
        requires
            old(self).wf(),
        ensures
            final(self).wf(),
            removed == if old(self)@.contains_key(handle) {
                Some(old(self)@[handle])
            } else {
                None
            },
            final(self)@ == old(self)@.remove(handle),
    {
        broadcast use vstd::std_specs::hash::group_hash_axioms;

        match self.forward.remove(&handle) {
            Some(resource) => {
                self.reverse.remove(&resource);
                proof {
                    assert forall|h: VAddr| #[trigger] self.forward@.contains_key(h) implies {
                        &&& self.reverse@.contains_key(self.forward@[h])
                        &&& self.reverse@[self.forward@[h]] == h
                    } by {
                        assert(old(self).forward@.contains_key(h));
                    }
                    assert forall|r: HostResource| #[trigger]
                        self.reverse@.contains_key(r) implies {
                        &&& self.forward@.contains_key(self.reverse@[r])
                        &&& self.forward@[self.reverse@[r]] == r
                    } by {
                        assert(old(self).reverse@.contains_key(r));
                    }
                }
                Some(resource)
            },
            None => {
                assert(self.forward@ =~= old(self).forward@);
                None
            },
        }
    }
}

/// While its entry exists, a handle resolves to its resource and the resource
/// resolves back to the handle; no other handle stands for that resource.
pub proof fn lemma_registered_handle_resolves(
    before: Map<VAddr, HostResource>,
    handle: VAddr,
    resource: HostResource,
)
    requires
        injective(before),
        !before.contains_key(handle),
        !has_resource(before, resource),
    ensures
        injective(before.insert(handle, resource)),
        before.insert(handle, resource)[handle] == resource,
        handle_of(before.insert(handle, resource), resource) == handle,
        forall|other: VAddr|
            other != handle && #[trigger] before.insert(handle, resource).contains_key(other)
                ==> before.insert(handle, resource)[other] != resource,
{
    let after = before.insert(handle, resource);
    assert forall|a: VAddr, b: VAddr|
        #![trigger after.contains_key(a), after.contains_key(b)]
        after.contains_key(a) && after.contains_key(b) && after[a] == after[b] implies a == b by {
        if a == handle && b != handle {
            assert(before.contains_key(b));
        }
        if b == handle && a != handle {
            assert(before.contains_key(a));
        }
        if a != handle && b != handle {
            assert(before.contains_key(a) && before.contains_key(b));
        }
    }
    lemma_handle_of(after, handle, resource);
    assert forall|other: VAddr| other != handle && #[trigger] after.contains_key(other) implies
        after[other] != resource by {
        assert(before.contains_key(other));
    }
}

/// Once an entry is removed, neither its handle nor its resource resolves,
/// and every other entry is as before.
pub proof fn lemma_removed_handle_is_gone(before: Map<VAddr, HostResource>, handle: VAddr)
    requires
        injective(before),
        before.contains_key(handle),
    ensures
        injective(before.remove(handle)),
        !before.remove(handle).contains_key(handle),
        !has_resource(before.remove(handle), before[handle]),
        forall|other: VAddr|
            other != handle && #[trigger] before.contains_key(other) ==> before.remove(
                handle,
            ).contains_key(other) && before.remove(handle)[other] == before[other],
{
    let after = before.remove(handle);
    assert forall|a: VAddr, b: VAddr|
        #![trigger after.contains_key(a), after.contains_key(b)]
        after.contains_key(a) && after.contains_key(b) && after[a] == after[b] implies a == b by {
        assert(before.contains_key(a) && before.contains_key(b));
    }
    if has_resource(after, before[handle]) {
        let other = handle_of(after, before[handle]);
        assert(before.contains_key(other) && before.contains_key(handle));
    }
}

} // verus!
