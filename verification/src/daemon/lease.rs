//! Which clients show a terminal, and the grid that fits them all.

use std::collections::BTreeMap;

use vstd::prelude::*;

use crate::domain::{ClientId, TerminalSize};
use crate::maps::keys_of;

verus! {

/// The grid that a terminal is to have, and which change of its clients led to
/// it.
#[derive(Clone, Copy, Debug, PartialEq, Eq, Structural)]
pub struct AttachmentGeometry {
    pub revision: u64,
    pub size: TerminalSize,
}

/// The clients that show a terminal, with the sizes they can show.
#[derive(Debug)]
pub struct AttachmentLease {
    pub sizes: BTreeMap<u128, TerminalSize>,
    pub revision: u64,
}

/// A client's place in a lease.
#[derive(Debug)]
pub struct LeaseGuard {
    pub client: ClientId,
}

/// What a client gets with its place: the place, and the grid that now fits.
#[derive(Debug)]
pub struct LeaseAcquisition {
    pub guard: LeaseGuard,
    pub geometry: AttachmentGeometry,
}

/// A grid fits all sizes and cannot be larger in either direction: its columns
/// are the fewest of any size, and its rows the fewest of any size.
pub open spec fn largest_fit(sizes: Map<u128, TerminalSize>, grid: TerminalSize) -> bool {
    &&& forall|k: u128| #[trigger]
        sizes.contains_key(k) ==> grid.columns <= sizes[k].columns && grid.rows <= sizes[k].rows
    &&& exists|k: u128| #[trigger] sizes.contains_key(k) && sizes[k].columns == grid.columns
    &&& exists|k: u128| #[trigger] sizes.contains_key(k) && sizes[k].rows == grid.rows
}

/// A list holds the size of each client once, in the order of some list of the
/// clients.
pub open spec fn lists_sizes(
    sizes: Map<u128, TerminalSize>,
    keys: Seq<u128>,
    list: Seq<TerminalSize>,
) -> bool {
    &&& keys.no_duplicates()
    &&& forall|k: u128| #[trigger] keys.contains(k) <==> sizes.contains_key(k)
    &&& list.len() == keys.len()
    &&& forall|i: int| 0 <= i < list.len() ==> #[trigger] list[i] == sizes[keys[i]]
}

impl Default for AttachmentLease {
    fn default() -> (r: Self)
        ensures
            r.sizes@ == Map::<u128, TerminalSize>::empty(),
            r.revision == 0,
    {
        AttachmentLease { sizes: BTreeMap::new(), revision: 0 }
    }
}

/// The grid that fits all clients of a lease, as its next revision; nothing
/// where there is no client.
pub fn geometry(state: &mut AttachmentLease) -> (r: Option<AttachmentGeometry>)
    requires
        old(state).revision < u64::MAX,
    ensures
        final(state).sizes@ == old(state).sizes@,
        r is None <==> old(state).sizes@.is_empty(),
        r is None ==> final(state).revision == old(state).revision,
        r matches Some(found) ==> largest_fit(old(state).sizes@, found.size) && found.revision
            == old(state).revision + 1 && final(state).revision == found.revision,
{
    let keys = keys_of(&state.sizes);
    let ghost sizes = state.sizes@;
    if keys.len() == 0 {
        assert(sizes.is_empty()) by {
            assert forall|k: u128| !(#[trigger] sizes.contains_key(k)) by {
                assert(!keys@.contains(k));
            }
            assert(sizes.dom() =~= Set::<u128>::empty());
        }
        return None;
    }
    assert(keys@.contains(keys@[0]));
    let mut best: TerminalSize = *state.sizes.get(&keys[0]).unwrap();
    let mut i: usize = 1;
    while i < keys.len()
        invariant
            1 <= i <= keys.len(),
            sizes == state.sizes@,
            *state == *old(state),
            forall|k: u128| #[trigger] keys@.contains(k) <==> sizes.contains_key(k),
            forall|j: int|
                0 <= j < i ==> best.columns <= sizes[#[trigger] keys@[j]].columns && best.rows
                    <= sizes[keys@[j]].rows,
            exists|j: int| 0 <= j < i && sizes[#[trigger] keys@[j]].columns == best.columns,
            exists|j: int| 0 <= j < i && sizes[#[trigger] keys@[j]].rows == best.rows,
        decreases keys.len() - i,
    {
        assert(keys@.contains(keys@[i as int]));
        let size: TerminalSize = *state.sizes.get(&keys[i]).unwrap();
        assert(size == sizes[keys@[i as int]]);
        if size.columns < best.columns {
            best.columns = size.columns;
        }
        if size.rows < best.rows {
            best.rows = size.rows;
        }
        i += 1;
    }
    proof {
        assert forall|k: u128| #[trigger] sizes.contains_key(k) implies best.columns
            <= sizes[k].columns && best.rows <= sizes[k].rows by {
            assert(keys@.contains(k));
        }
        let a = choose|j: int|
            0 <= j < keys@.len() && sizes[#[trigger] keys@[j]].columns == best.columns;
        let b = choose|j: int| 0 <= j < keys@.len() && sizes[#[trigger] keys@[j]].rows == best.rows;
        assert(keys@.contains(keys@[a]) && keys@.contains(keys@[b]));
        assert(sizes.contains_key(keys@[a]) && sizes.contains_key(keys@[b]));
        assert(!sizes.is_empty()) by {
            assert(sizes.dom().contains(keys@[a]));
        }
    }
    state.revision = state.revision + 1;
    Some(AttachmentGeometry { revision: state.revision, size: best })
}

impl AttachmentLease {
    /// Gives a client a place, unless it has one already.
    pub fn acquire(&mut self, client: ClientId, size: TerminalSize) -> (r: Option<LeaseAcquisition>)
        requires
            old(self).revision < u64::MAX,
        ensures
            r is Some <==> !old(self).sizes@.contains_key(client.0),
            r is None ==> final(self).sizes@ == old(self).sizes@ && final(self).revision == old(
                self,
            ).revision,
            r matches Some(got) ==> {
                &&& final(self).sizes@ == old(self).sizes@.insert(client.0, size)
                &&& got.guard.client == client
                &&& largest_fit(final(self).sizes@, got.geometry.size)
                &&& got.geometry.revision == old(self).revision + 1
                &&& final(self).revision == got.geometry.revision
            },
    {
        if self.sizes.contains_key(&client.0) {
            return None;
        }
        self.sizes.insert(client.0, size);
        assert(self.sizes@.dom().contains(client.0));
        match geometry(self) {
            Some(found) => Some(
                LeaseAcquisition { guard: LeaseGuard { client }, geometry: found },
            ),
            None => None,
        }
    }

    /// The sizes that the clients can show.
    pub fn sizes(&self) -> (r: Vec<TerminalSize>)
        ensures
            exists|keys: Seq<u128>| #[trigger] lists_sizes(self.sizes@, keys, r@),
    {
        let keys = keys_of(&self.sizes);
        let mut out: Vec<TerminalSize> = Vec::new();
        let mut i: usize = 0;
        while i < keys.len()
            invariant
                i <= keys.len(),
                out@.len() == i,
                forall|k: u128| #[trigger] keys@.contains(k) <==> self.sizes@.contains_key(k),
                forall|j: int| 0 <= j < i ==> #[trigger] out@[j] == self.sizes@[keys@[j]],
            decreases keys.len() - i,
        {
            assert(keys@.contains(keys@[i as int]));
            out.push(*self.sizes.get(&keys[i]).unwrap());
            i += 1;
        }
        assert(lists_sizes(self.sizes@, keys@, out@));
        out
    }
}

impl LeaseGuard {
    /// Changes the size that this client can show.
    pub fn resize(&self, lease: &mut AttachmentLease, size: TerminalSize) -> (r: Option<
        AttachmentGeometry,
    >)
        requires
            old(lease).revision < u64::MAX,
        ensures
            r is Some <==> old(lease).sizes@.contains_key(self.client.0),
            r is None ==> final(lease).sizes@ == old(lease).sizes@ && final(lease).revision == old(
                lease,
            ).revision,
            r matches Some(found) ==> {
                &&& final(lease).sizes@ == old(lease).sizes@.insert(self.client.0, size)
                &&& largest_fit(final(lease).sizes@, found.size)
                &&& found.revision == old(lease).revision + 1
                &&& final(lease).revision == found.revision
            },
    {
        if !lease.sizes.contains_key(&self.client.0) {
            return None;
        }
        lease.sizes.insert(self.client.0, size);
        assert(lease.sizes@.dom().contains(self.client.0));
        geometry(lease)
    }

    /// Gives this client's place up: what the terminal is to be resized to, if
    /// another client still shows it.
    pub fn release(self, lease: &mut AttachmentLease) -> (r: Option<AttachmentGeometry>)
        requires
            old(lease).revision < u64::MAX,
        ensures
            final(lease).sizes@ == old(lease).sizes@.remove(self.client.0),
            r is Some <==> old(lease).sizes@.contains_key(self.client.0) && !old(
                lease,
            ).sizes@.remove(self.client.0).is_empty(),
            r is None ==> final(lease).revision == old(lease).revision,
            r matches Some(found) ==> {
                &&& largest_fit(final(lease).sizes@, found.size)
                &&& found.revision == old(lease).revision + 1
                &&& final(lease).revision == found.revision
            },
    {
        let ghost before = lease.sizes@;
        match lease.sizes.remove(&self.client.0) {
            None => {
                assert(before.remove(self.client.0) =~= before);
                None
            },
            Some(_) => geometry(lease),
        }
    }
}

/// The grid of a terminal is the largest that fits every client that shows it: no grid
/// that fits them all is wider or taller. So there is only one, and where one client
/// alone shows the terminal it is the size of that client.
pub proof fn law_grid_is_the_largest_that_fits(
    sizes: Map<u128, TerminalSize>,
    grid: TerminalSize,
    other: TerminalSize,
    client: u128,
)
    requires
        largest_fit(sizes, grid),
        forall|k: u128| #[trigger]
            sizes.contains_key(k) ==> other.columns <= sizes[k].columns && other.rows
                <= sizes[k].rows,
    ensures
        other.columns <= grid.columns,
        other.rows <= grid.rows,
        largest_fit(sizes, other) ==> other == grid,
        sizes.contains_key(client) ==> grid.columns <= sizes[client].columns && grid.rows
            <= sizes[client].rows,
        sizes.contains_key(client) && (forall|k: u128| #[trigger]
            sizes.contains_key(k) ==> k == client) ==> grid == sizes[client],
{
    let a = choose|k: u128| #[trigger] sizes.contains_key(k) && sizes[k].columns == grid.columns;
    let b = choose|k: u128| #[trigger] sizes.contains_key(k) && sizes[k].rows == grid.rows;
    assert(sizes.contains_key(a) && sizes.contains_key(b));
}

/// The sizes that are listed are those of the clients: there are as many as clients, and each
/// client's is among them.
pub proof fn law_every_client_has_its_size_listed(
    sizes: Map<u128, TerminalSize>,
    keys: Seq<u128>,
    list: Seq<TerminalSize>,
    client: u128,
)
    requires
        lists_sizes(sizes, keys, list),
    ensures
        list.len() == sizes.dom().len(),
        sizes.contains_key(client) ==> list.contains(sizes[client]),
{
    keys.unique_seq_to_set();
    assert(keys.to_set() =~= sizes.dom());
    if sizes.contains_key(client) {
        assert(keys.contains(client));
        let i = choose|i: int| 0 <= i < keys.len() && keys[i] == client;
        assert(list[i] == sizes[client]);
    }
}

} // verus!
