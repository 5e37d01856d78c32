//! The shared registry of virtual addresses and the peers that hold them.

use crate::network::{lemma_block_bounds, lemma_pool_size, ConfiguredNetwork};
use std::collections::HashMap;
use vstd::prelude::*;
use vstd::set_lib::{lemma_len_subset, lemma_set_subset_finite};

verus! {

broadcast use vstd::std_specs::hash::group_hash_axioms;

/// Stands for a peer connection: the identifier its transport gave it.
pub type PeerHandle = u32;

/// Why the registry refused an operation.
#[derive(Clone, Copy, Debug, PartialEq, Eq, Structural)]
pub enum RegistryError {
    /// No address of the pool is unassigned.
    PoolExhausted,
    /// The address is held by no peer.
    NotAssigned,
}

/// The registry as a mathematical value: each known address with the peer that
/// holds it, if any, and the block whose pool the registry serves.
pub struct RegistryModel {
    pub entries: Map<u32, Option<PeerHandle>>,
    pub network: Option<ConfiguredNetwork>,
}

impl RegistryModel {
    /// Whether the address belongs to the pool of the configured block.
    pub open spec fn in_pool(self, a: u32) -> bool {
        self.network matches Some(n) && n.assignable(a)
    }

    /// Whether the address is known and held by nobody.
    pub open spec fn unassigned(self, a: u32) -> bool {
        self.entries.contains_key(a) && self.entries[a] is None
    }

    /// The peer that holds the address, if any.
    pub open spec fn occupant(self, a: u32) -> Option<PeerHandle> {
        if self.entries.contains_key(a) {
            self.entries[a]
        } else {
            None
        }
    }

    /// The addresses that an allocation may hand out.
    pub open spec fn free(self) -> Set<u32> {
        Set::new(|a: u32| self.unassigned(a))
    }

    /// Every address of the pool is known, and only addresses of the pool are
    /// ever unassigned.
    pub open spec fn wf(self) -> bool {
        &&& self.network matches Some(n) ==> n.wf()
        &&& self.entries.dom().finite()
        &&& forall|a: u32| self.in_pool(a) ==> self.entries.contains_key(a)
        &&& forall|a: u32| self.unassigned(a) ==> self.in_pool(a)
    }

    /// The registry of a server before any peer has connected: the whole pool,
    /// unassigned.
    pub open spec fn initial(network: ConfiguredNetwork) -> RegistryModel {
        RegistryModel {
            entries: Map::new(|a: u32| network.assignable(a), |a: u32| None::<PeerHandle>),
            network: Some(network),
        }
    }

    /// The registry without a block, as a client starts with.
    pub open spec fn empty() -> RegistryModel {
        RegistryModel { entries: Map::empty(), network: None }
    }

    /// Whether `a` is the lowest unassigned address.
    pub open spec fn is_lowest_free(self, a: u32) -> bool {
        self.unassigned(a) && forall|b: u32| self.unassigned(b) ==> a <= b
    }

    /// The address the next allocation hands out.
    pub open spec fn lowest_free(self) -> Option<u32> {
        if exists|a: u32| self.is_lowest_free(a) {
            Some(choose|a: u32| self.is_lowest_free(a))
        } else {
            None
        }
    }

    /// The registry after `address` has been given to `handle`.
    pub open spec fn assign(self, address: u32, handle: PeerHandle) -> RegistryModel {
        RegistryModel { entries: self.entries.insert(address, Some(handle)), ..self }
    }

    /// The registry after an allocation for `handle`, and the address granted;
    /// unchanged and `None` when no address is free.
    pub open spec fn allocate(self, handle: PeerHandle) -> (RegistryModel, Option<u32>) {
        match self.lowest_free() {
            Some(a) => (self.assign(a, handle), Some(a)),
            None => (self, None),
        }
    }

    /// The registry after one allocation for each handle in turn, and what each
    /// allocation granted.
    pub open spec fn allocate_each(self, handles: Seq<PeerHandle>) -> (
        RegistryModel,
        Seq<Option<u32>>,
    )
        decreases handles.len(),
    {
        if handles.len() == 0 {
            (self, Seq::empty())
        } else {
            let (before, granted) = self.allocate_each(handles.drop_last());
            let (after, address) = before.allocate(handles.last());
            (after, granted.push(address))
        }
    }

    /// The registry after the peer at `address` has gone: an address of the
    /// pool is unassigned again, any other address is forgotten. `None` when
    /// nobody holds the address.
    pub open spec fn release(self, address: u32) -> Option<RegistryModel> {
        if self.occupant(address) is Some {
            if self.in_pool(address) {
                Some(RegistryModel { entries: self.entries.insert(address, None), ..self })
            } else {
                Some(RegistryModel { entries: self.entries.remove(address), ..self })
            }
        } else {
            None
        }
    }
}

/// Mapping from virtual address to the peer connection that holds it.
pub struct PeerRegistry {
    peers: HashMap<u32, Option<PeerHandle>>,
    network: Option<ConfiguredNetwork>,
    free: u32,
}

impl View for PeerRegistry {
    type V = RegistryModel;

    closed spec fn view(&self) -> RegistryModel {
        RegistryModel { entries: self.peers@, network: self.network }
    }
}

impl PeerRegistry {
    /// The registry is consistent with its block and knows how many addresses
    /// are free.
    pub closed spec fn wf(&self) -> bool {
        &&& self@.wf()
        &&& self.free == self@.free().len()
    }

    /// A valid registry has a valid view.
    pub proof fn lemma_valid_view(&self)
        requires
            self.wf(),
        ensures
            self@.wf(),
    {
    }

    /// A registry without a block and without entries, as a client holds it
    /// before its handshake.
    pub fn new() -> (r: PeerRegistry)
        ensures
            r.wf(),
            r@.wf(),
            r@ == RegistryModel::empty(),
    {
        let r = PeerRegistry { peers: HashMap::new(), network: None, free: 0 };
        proof {
            assert(r@.entries =~= Map::<u32, Option<PeerHandle>>::empty());
            assert(r@.free() =~= Set::<u32>::empty());
        }
        r
    }

    /// The registry of a server: every assignable address of the block,
    /// unassigned.
    pub fn initialize(network: ConfiguredNetwork) -> (r: PeerRegistry)
        ensures
            r.wf(),
            r@.wf(),
            r@ == RegistryModel::initial(network),
            r@.free() == network.pool(),
    {
        proof {
            use_type_invariant(&network);
        }
        let mut peers: HashMap<u32, Option<PeerHandle>> = HashMap::new();
        match network.pool_bounds() {
            Some((first, end)) => {
                let mut a: u32 = first;
                while a < end
                    invariant
                        first <= a <= end,
                        peers@ =~= Map::new(
                            |k: u32| first <= k < a,
                            |k: u32| None::<PeerHandle>,
                        ),
                    decreases end - a,
                {
                    peers.insert(a, None);
                    a = a + 1;
                }
            },
            None => {},
        }
        let free: u32 = network.pool_size();
        let r = PeerRegistry { peers, network: Some(network), free };
        proof {
            assert(r@.entries =~= RegistryModel::initial(network).entries);
            assert(r@.free() =~= network.pool());
        }
        r
    }

    /// The block whose pool the registry serves, if it has one.
    pub fn network(&self) -> (r: Option<ConfiguredNetwork>)
        ensures
            r == self@.network,
    {
        self.network
    }

    /// The peer that holds `address`, if any.
    pub fn lookup(&self, address: u32) -> (r: Option<PeerHandle>)
        ensures
            r == self@.occupant(address),
    {
        match self.peers.get(&address) {
            Some(slot) => *slot,
            None => None,
        }
    }

    /// Number of addresses that an allocation may still hand out.
    pub fn free_count(&self) -> (r: u32)
        requires
            self.wf(),
        ensures
            r == self@.free().len(),
    {
        self.free
    }

    fn is_unassigned(&self, address: u32) -> (r: bool)
        ensures
            r == self@.unassigned(address),
    {
        match self.peers.get(&address) {
            Some(slot) => slot.is_none(),
            None => false,
        }
    }

    /// Finds the lowest unassigned address, reserves it for `handle` and
    /// returns it. The scan and the reservation happen under the one exclusive
    /// borrow, so no two callers can be granted the same address.
    pub fn allocate_any(&mut self, handle: PeerHandle) -> (r: Result<u32, RegistryError>)
        requires
            old(self).wf(),
        ensures
            final(self).wf(),
            final(self)@.wf(),
            (final(self)@, r.ok()) == old(self)@.allocate(handle),
            r is Err <==> old(self)@.free().is_empty(),
            r is Err ==> r == Err::<u32, RegistryError>(RegistryError::PoolExhausted),
            r matches Ok(a) ==> old(self)@.is_lowest_free(a) && final(self)@.occupant(a) == Some(
                handle,
            ),
            r matches Ok(a) ==> final(self)@.free() == old(self)@.free().remove(a)
                && final(self)@.free().len() == old(self)@.free().len() - 1,
    {
        let bounds = match self.network {
            Some(network) => network.pool_bounds(),
            None => None,
        };
        if let Some((first, end)) = bounds {
            let mut a: u32 = first;
            while a < end
                invariant
                    first <= a <= end,
                    *self == *old(self),
                    self.wf(),
                    forall|b: u32| self@.in_pool(b) <==> first <= b < end,
                    forall|b: u32| first <= b < a ==> !self@.unassigned(b),
                decreases end - a,
            {
                if self.is_unassigned(a) {
                    proof {
                        assert(self@.is_lowest_free(a));
                        lemma_lowest_free_is(self@, a);
                        lemma_assign_free(self@, a, handle);
                    }
                    self.peers.insert(a, Some(handle));
                    self.free = self.free - 1;
                    return Ok(a);
                }
                a = a + 1;
            }
        }
        proof {
            assert(self@.free() =~= Set::<u32>::empty());
            assert forall|a: u32| !self@.is_lowest_free(a) by {}
        }
        Err(RegistryError::PoolExhausted)
    }

    /// Gives `address` to `handle`, whoever held it before.
    pub fn assign(&mut self, address: u32, handle: PeerHandle)
        requires
            old(self).wf(),
        ensures
            final(self).wf(),
            final(self)@.wf(),
            final(self)@ == old(self)@.assign(address, handle),
    {
        let was_free = self.is_unassigned(address);
        proof {
            lemma_assign_free(self@, address, handle);
        }
        self.peers.insert(address, Some(handle));
        if was_free {
            self.free = self.free - 1;
        }
    }

    /// Takes `address` from the peer that holds it. An address of the pool can
    /// be allocated again afterwards. Fails, and changes nothing, when nobody
    /// holds the address.
    pub fn release(&mut self, address: u32) -> (r: Result<(), RegistryError>)
        requires
            old(self).wf(),
        ensures
            final(self).wf(),
            final(self)@.wf(),
            match old(self)@.release(address) {
                Some(after) => r is Ok && final(self)@ == after,
                None => r == Err::<(), RegistryError>(RegistryError::NotAssigned) && *final(self)
                    == *old(self),
            },
            r is Ok <==> old(self)@.occupant(address) is Some,
            r is Ok && old(self)@.in_pool(address) ==> final(self)@.free() == old(
                self,
            )@.free().insert(address),
    {
        if self.lookup(address).is_none() {
            return Err(RegistryError::NotAssigned);
        }
        proof {
            lemma_release_free(self@, address);
        }
        let pooled = match self.network {
            Some(network) => network.is_assignable(address),
            None => false,
        };
        if pooled {
            proof {
                lemma_free_bounded(self@);
            }
            self.peers.insert(address, None);
            self.free = self.free + 1;
        } else {
            self.peers.remove(&address);
        }
        Ok(())
    }
}

/// Below any unassigned address there is a lowest one.
pub proof fn lemma_lowest_free_exists(s: RegistryModel, a: u32)
    requires
        s.unassigned(a),
    ensures
        exists|m: u32| s.is_lowest_free(m),
        s.lowest_free() is Some,
    decreases a,
{
    if exists|b: u32| s.unassigned(b) && b < a {
        let b = choose|b: u32| s.unassigned(b) && b < a;
        lemma_lowest_free_exists(s, b);
    } else {
        assert(s.is_lowest_free(a));
    }
}

/// The lowest unassigned address is the one an allocation picks.
pub proof fn lemma_lowest_free_is(s: RegistryModel, a: u32)
    requires
        s.is_lowest_free(a),
    ensures
        s.lowest_free() == Some(a),
{
    let m = choose|m: u32| s.is_lowest_free(m);
    assert(s.is_lowest_free(m));
    assert(m <= a && a <= m);
}

/// The free addresses of a consistent registry are finitely many, all in the
/// pool, and fewer than two to the power 32.
pub proof fn lemma_free_bounded(s: RegistryModel)
    requires
        s.wf(),
    ensures
        s.free().finite(),
        s.network matches Some(n) ==> s.free().subset_of(n.pool()),
        s.network is None ==> s.free().is_empty(),
        s.free().len() < u32::MAX,
{
    lemma_set_subset_finite(s.entries.dom(), s.free());
    match s.network {
        Some(n) => {
            lemma_pool_size(n);
            lemma_len_subset(s.free(), n.pool());
            lemma_block_bounds(n.spec_ip(), n.spec_prefix());
        },
        None => {
            assert(s.free() =~= Set::<u32>::empty());
        },
    }
}

/// Giving an address to a peer takes exactly that address out of the free
/// set.
pub proof fn lemma_assign_free(s: RegistryModel, a: u32, h: PeerHandle)
    requires
        s.wf(),
    ensures
        s.assign(a, h).wf(),
        s.assign(a, h).free() == s.free().remove(a),
        s.free().contains(a) ==> s.assign(a, h).free().len() == s.free().len() - 1,
        !s.free().contains(a) ==> s.assign(a, h).free().len() == s.free().len(),
        s.assign(a, h).occupant(a) == Some(h),
{
    lemma_free_bounded(s);
    let t = s.assign(a, h);
    assert(t.entries.dom() =~= s.entries.dom().insert(a));
    assert forall|b: u32| t.unassigned(b) implies t.in_pool(b) by {
        assert(s.unassigned(b));
    }
    assert forall|b: u32| t.in_pool(b) implies t.entries.contains_key(b) by {
        assert(s.in_pool(b));
    }
    assert(t.free() =~= s.free().remove(a));
}

/// Releasing an address of the pool puts exactly that address back into the
/// free set; releasing any other held address leaves the free set as it was.
pub proof fn lemma_release_free(s: RegistryModel, a: u32)
    requires
        s.wf(),
        s.occupant(a) is Some,
    ensures
        s.release(a) is Some,
        s.release(a)->Some_0.wf(),
        s.release(a)->Some_0.occupant(a) is None,
        s.in_pool(a) ==> s.release(a)->Some_0.free() == s.free().insert(a)
            && s.release(a)->Some_0.free().len() == s.free().len() + 1,
        !s.in_pool(a) ==> s.release(a)->Some_0.free() == s.free(),
{
    lemma_free_bounded(s);
    let t = s.release(a)->Some_0;
    if s.in_pool(a) {
        assert(t.entries.dom() =~= s.entries.dom().insert(a));
        assert forall|b: u32| t.unassigned(b) implies t.in_pool(b) by {
            if b != a {
                assert(s.unassigned(b));
            }
        }
        assert forall|b: u32| t.in_pool(b) implies t.entries.contains_key(b) by {
            assert(s.in_pool(b));
        }
        assert(t.free() =~= s.free().insert(a));
    } else {
        assert(t.entries.dom() =~= s.entries.dom().remove(a));
        assert forall|b: u32| t.unassigned(b) implies t.in_pool(b) by {
            assert(s.unassigned(b));
        }
        assert forall|b: u32| t.in_pool(b) implies t.entries.contains_key(b) by {
            assert(s.in_pool(b));
        }
        assert(t.free() =~= s.free());
    }
}

/// One allocation either grants a free address, which then is free no more and
/// belongs to the caller, or finds the free set empty and changes nothing.
pub proof fn lemma_allocate(s: RegistryModel, h: PeerHandle)
    requires
        s.wf(),
    ensures
        s.allocate(h).0.wf(),
        s.allocate(h).1 is None <==> s.free().is_empty(),
        match s.allocate(h).1 {
            Some(a) => {
                &&& s.free().contains(a)
                &&& s.allocate(h).0.free() == s.free().remove(a)
                &&& s.allocate(h).0.free().len() == s.free().len() - 1
                &&& s.allocate(h).0.occupant(a) == Some(h)
            },
            None => s.allocate(h).0 == s,
        },
{
    match s.lowest_free() {
        Some(a) => {
            assert(s.is_lowest_free(a));
            assert(s.free().contains(a));
            lemma_assign_free(s, a, h);
        },
        None => {
            assert forall|a: u32| !s.free().contains(a) by {
                if s.unassigned(a) {
                    lemma_lowest_free_exists(s, a);
                }
            }
            assert(s.free() =~= Set::<u32>::empty());
        },
    }
}

/// However many allocations follow one another, no address is granted twice,
/// every granted address was free before the first of them, and the free set
/// shrinks by one address for each grant. While the free set holds at least as
/// many addresses as there are callers, every caller is granted one.
pub proof fn lemma_allocations_distinct(s: RegistryModel, handles: Seq<PeerHandle>)
    requires
        s.wf(),
    ensures
        s.allocate_each(handles).0.wf(),
        s.allocate_each(handles).1.len() == handles.len(),
        s.allocate_each(handles).0.free().subset_of(s.free()),
        forall|i: int, j: int|
            #![trigger s.allocate_each(handles).1[i], s.allocate_each(handles).1[j]]
            0 <= i < j < handles.len() && s.allocate_each(handles).1[i] is Some ==> s.allocate_each(
                handles,
            ).1[i] != s.allocate_each(handles).1[j],
        forall|i: int|
            0 <= i < handles.len() ==> (#[trigger] s.allocate_each(handles).1[i] matches Some(a)
                ==> s.free().contains(a) && !s.allocate_each(handles).0.free().contains(a)),
        handles.len() <= s.free().len() ==> {
            &&& s.allocate_each(handles).0.free().len() == s.free().len() - handles.len()
            &&& forall|i: int|
                0 <= i < handles.len() ==> #[trigger] s.allocate_each(handles).1[i] is Some
        },
    decreases handles.len(),
{
    lemma_free_bounded(s);
    if handles.len() > 0 {
        let earlier = handles.drop_last();
        let (before, granted) = s.allocate_each(earlier);
        lemma_allocations_distinct(s, earlier);
        lemma_allocate(before, handles.last());
        lemma_free_bounded(before);
        let (after, address) = before.allocate(handles.last());
        let all = granted.push(address);
        assert(s.allocate_each(handles) == (after, all));
        assert forall|i: int, j: int| 0 <= i < j < handles.len() && all[i] is Some implies all[i]
            != all[j] by {
            if j == handles.len() - 1 {
                assert(all[i] == granted[i]);
                if address is Some {
                    assert(!before.free().contains(granted[i]->Some_0));
                }
            } else {
                assert(all[i] == granted[i] && all[j] == granted[j]);
            }
        }
        assert forall|i: int| 0 <= i < handles.len() implies (#[trigger] all[i] matches Some(a)
            ==> s.free().contains(a) && !after.free().contains(a)) by {
            if i < handles.len() - 1 {
                assert(all[i] == granted[i]);
            }
        }
        if handles.len() <= s.free().len() {
            assert(before.free().len() == s.free().len() - earlier.len());
            assert(!before.free().is_empty()) by {
                if before.free().is_empty() {
                    assert(before.free() =~= Set::<u32>::empty());
                }
            }
            assert forall|i: int| 0 <= i < handles.len() implies #[trigger] all[i] is Some by {
                if i < handles.len() - 1 {
                    assert(all[i] == granted[i]);
                }
            }
        }
    }
}

/// Once the peer at an address of the pool is released, the address is free
/// again, and an allocation that follows is granted that address or a lower
/// one. An address that nobody holds cannot be released.
pub proof fn lemma_release_then_allocate(s: RegistryModel, a: u32, h: PeerHandle)
    requires
        s.wf(),
    ensures
        s.occupant(a) is None <==> s.release(a) is None,
        s.occupant(a) is Some && s.in_pool(a) ==> {
            let released = s.release(a)->Some_0;
            &&& released.wf()
            &&& released.free().contains(a)
            &&& released.allocate(h).1 matches Some(b)
            &&& b <= a
            &&& (s.free().is_empty() ==> b == a)
        },
{
    if s.occupant(a) is Some && s.in_pool(a) {
        lemma_release_free(s, a);
        let released = s.release(a)->Some_0;
        assert(released.unassigned(a));
        lemma_lowest_free_exists(released, a);
        let b = released.lowest_free()->Some_0;
        assert(released.is_lowest_free(b));
        if s.free().is_empty() {
            assert(released.free().contains(b));
            assert(!s.free().contains(b));
        }
    }
}

} // verus!
