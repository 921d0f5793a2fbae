//! The shared state of the world: the grid of tiles with their occupants,
//! the registry of connected peers and the queue of deferred jobs.
//!
//! Every handler runs to completion on this state and hands back the
//! deliveries it wants made; whoever owns the sockets makes them and turns
//! a failed write into a deferred drop with [`World::schedule_drop`].
use vstd::prelude::*;
use crate::codec::Identity;
use crate::job::{Job, JobQueue, Schedule, slot_for};
use crate::math::Vector3;

verus! {

broadcast use vstd::array::group_array_axioms;

/// Movement state of an entity; times are in milliseconds.
#[derive(Debug, Clone, Copy, PartialEq, Eq, Structural)]
pub enum HumanState {
    Idle { updated_at: Option<u64> },
    Move { direction: u8, updated_at: Option<u64> },
}

/// What can stand on a tile.
#[derive(Debug, Clone, Copy)]
pub enum Object {
    Human { id: Identity, state: HumanState },
}

impl Object {
    /// A settled entity that has never moved.
    pub fn new_human(id: Identity) -> (r: Object)
        ensures
            r == (Object::Human { id, state: HumanState::Idle { updated_at: None } }),
    {
        Object::Human { id, state: HumanState::Idle { updated_at: None } }
    }
}

/// One cell of the grid.
#[derive(Debug, Clone, Copy)]
pub struct Tile {
    pub position: Vector3,
    pub id: u16,
    pub rotation: u8,
    pub object: Option<Object>,
}

/// A registry entry: a connected peer and where its entity stands.
#[derive(Debug, Clone, Copy)]
pub struct Connection {
    pub id: Identity,
    pub position: Vector3,
}

/// A message body to be written, in a frame, to one peer.
#[derive(Debug)]
pub struct Delivery {
    pub to: Identity,
    pub body: Vec<u8>,
}

/// The deliveries as (recipient, body) pairs.
pub open spec fn deliveries(s: Seq<Delivery>) -> Seq<(Identity, Seq<u8>)> {
    s.map_values(|d: Delivery| (d.to, d.body@))
}

/// One delivery of `body` to every registered peer, in registry order.
pub open spec fn broadcast(conns: Seq<Connection>, body: Seq<u8>) -> Seq<(Identity, Seq<u8>)> {
    conns.map_values(|c: Connection| (c.id, body))
}

/// Some tile of the grid lies at `p`.
pub open spec fn on_grid(tiles: Seq<Tile>, p: Vector3) -> bool {
    exists|i: int| 0 <= i < tiles.len() && #[trigger] tiles[i].position == p
}

/// The tile at `p`, where [`on_grid`] holds.
pub open spec fn tile_index(tiles: Seq<Tile>, p: Vector3) -> int {
    choose|i: int| 0 <= i < tiles.len() && #[trigger] tiles[i].position == p
}

/// `id` has an entry in the registry.
pub open spec fn registered(conns: Seq<Connection>, id: Identity) -> bool {
    exists|j: int| 0 <= j < conns.len() && #[trigger] conns[j].id == id
}

/// The registry entry of `id`, where [`registered`] holds.
pub open spec fn conn_index(conns: Seq<Connection>, id: Identity) -> int {
    choose|j: int| 0 <= j < conns.len() && #[trigger] conns[j].id == id
}

/// The identity of the entity on a tile.
pub open spec fn occupant(t: Tile) -> Option<Identity> {
    match t.object {
        Some(Object::Human { id, .. }) => Some(id),
        None => None,
    }
}

/// The state of the entity on a tile.
pub open spec fn state_of(t: Tile) -> Option<HumanState> {
    match t.object {
        Some(Object::Human { state, .. }) => Some(state),
        None => None,
    }
}

/// The last-transition time of a state.
pub open spec fn updated_at_of(s: HumanState) -> Option<u64> {
    match s {
        HumanState::Idle { updated_at } => updated_at,
        HumanState::Move { updated_at, .. } => updated_at,
    }
}

/// The grid and registry hold no two tiles at one position, no two entries
/// for one identity, and agree: each entry names a tile that holds that
/// peer's entity, and each entity on the grid has an entry naming its tile.
pub open spec fn consistent(tiles: Seq<Tile>, conns: Seq<Connection>) -> bool {
    &&& forall|i: int, k: int|
        0 <= i < k < tiles.len() ==> #[trigger] tiles[i].position != #[trigger] tiles[k].position
    &&& forall|j: int, l: int|
        0 <= j < l < conns.len() ==> #[trigger] conns[j].id != #[trigger] conns[l].id
    &&& forall|j: int|
        0 <= j < conns.len() ==> {
            &&& on_grid(tiles, #[trigger] conns[j].position)
            &&& occupant(tiles[tile_index(tiles, conns[j].position)]) == Some(conns[j].id)
        }
    &&& forall|i: int|
        0 <= i < tiles.len() && #[trigger] occupant(tiles[i]) is Some ==> {
            &&& registered(conns, occupant(tiles[i])->0)
            &&& conns[conn_index(conns, occupant(tiles[i])->0)].position == tiles[i].position
        }
}

/// The world's state.
pub struct World {
    /// The grid, in the order in which free tiles are searched.
    pub tiles: Vec<Tile>,
    /// The registry, in the order in which broadcasts are made.
    pub connections: Vec<Connection>,
    /// Deferred jobs.
    pub queue: JobQueue,
}

/// What the event loop waits for next.
#[derive(Debug, Clone, Copy, PartialEq, Eq, Structural)]
pub enum Selection {
    /// Nobody is connected: wait for the next handoff only.
    Handoff,
    /// No job is pending: wait for a handoff or a readable peer.
    HandoffOrRead,
    /// The earliest job is due: run it without waiting.
    Due,
    /// Wait for a handoff, a readable peer, or the deadline of the earliest
    /// job, whichever comes first.
    HandoffReadOrTimer { deadline: u64 },
}

/// Compares two identities byte by byte.
pub fn same_identity(a: &Identity, b: &Identity) -> (r: bool)
    ensures
        r == (*a == *b),
{
    let mut i: usize = 0;
    while i < 16
        invariant
            i <= 16,
            forall|k: int| 0 <= k < i ==> a[k] == b[k],
        decreases 16 - i,
    {
        if a[i] != b[i] {
            return false;
        }
        i = i + 1;
    }
    assert(*a =~= *b);
    true
}

/// The index of the tile at `p`, if any.
pub fn find_tile(tiles: &Vec<Tile>, p: Vector3) -> (r: Option<usize>)
    ensures
        r matches Some(i) ==> i < tiles@.len() && tiles@[i as int].position == p,
        r is None ==> !on_grid(tiles@, p),
{
    let mut i: usize = 0;
    while i < tiles.len()
        invariant
            i <= tiles@.len(),
            forall|k: int| 0 <= k < i ==> tiles@[k].position != p,
        decreases tiles@.len() - i,
    {
        if tiles[i].position == p {
            return Some(i);
        }
        i = i + 1;
    }
    None
}

/// The index of the registry entry of `id`, if any.
pub fn find_connection(conns: &Vec<Connection>, id: &Identity) -> (r: Option<usize>)
    ensures
        r matches Some(j) ==> j < conns@.len() && conns@[j as int].id == *id,
        r is None ==> !registered(conns@, *id),
{
    let mut j: usize = 0;
    while j < conns.len()
        invariant
            j <= conns@.len(),
            forall|k: int| 0 <= k < j ==> conns@[k].id != *id,
        decreases conns@.len() - j,
    {
        if same_identity(&conns[j].id, id) {
            return Some(j);
        }
        j = j + 1;
    }
    None
}

/// The first tile, in grid order, that nobody occupies.
pub fn first_free(tiles: &Vec<Tile>) -> (r: Option<usize>)
    ensures
        r matches Some(k) ==> k < tiles@.len() && tiles@[k as int].object is None && forall|
            i: int,
        | 0 <= i < k ==> tiles@[i].object is Some,
        r is None ==> forall|i: int| 0 <= i < tiles@.len() ==> tiles@[i].object is Some,
{
    let mut k: usize = 0;
    while k < tiles.len()
        invariant
            k <= tiles@.len(),
            forall|i: int| 0 <= i < k ==> tiles@[i].object is Some,
        decreases tiles@.len() - k,
    {
        if tiles[k].object.is_none() {
            return Some(k);
        }
        k = k + 1;
    }
    None
}

/// One delivery of `body` to each peer of the registry, in order.
pub fn broadcast_all(conns: &Vec<Connection>, body: &Vec<u8>) -> (r: Vec<Delivery>)
    ensures
        deliveries(r@) == broadcast(conns@, body@),
{
    let mut out: Vec<Delivery> = Vec::new();
    let mut j: usize = 0;
    while j < conns.len()
        invariant
            j <= conns@.len(),
            out@.len() == j,
            forall|k: int| 0 <= k < j ==> (#[trigger] out@[k]).to == conns@[k].id && out@[k].body@ == body@,
        decreases conns@.len() - j,
    {
        let copy = body.clone();
        assert(copy@ =~= body@);
        out.push(Delivery { to: conns[j].id, body: copy });
        j = j + 1;
    }
    assert(deliveries(out@) =~= broadcast(conns@, body@));
    out
}

/// The tile `t` with `o` standing on it.
pub open spec fn with_object(t: Tile, o: Option<Object>) -> Tile {
    Tile { position: t.position, id: t.id, rotation: t.rotation, object: o }
}

/// Positions on a grid are distinct, so the tile at a tile's position is
/// that tile.
pub proof fn lemma_tile_index(tiles: Seq<Tile>, i: int)
    requires
        forall|a: int, b: int|
            0 <= a < b < tiles.len() ==> #[trigger] tiles[a].position != #[trigger] tiles[b].position,
        0 <= i < tiles.len(),
    ensures
        on_grid(tiles, tiles[i].position),
        tile_index(tiles, tiles[i].position) == i,
{
    assert(tiles[i].position == tiles[i].position);
    let k = tile_index(tiles, tiles[i].position);
    if k < i {
        assert(tiles[k].position != tiles[i].position);
    }
    if k > i {
        assert(tiles[i].position != tiles[k].position);
    }
}

/// Identities in the registry are distinct, so the entry of an entry's
/// identity is that entry.
pub proof fn lemma_conn_index(conns: Seq<Connection>, j: int)
    requires
        forall|a: int, b: int|
            0 <= a < b < conns.len() ==> #[trigger] conns[a].id != #[trigger] conns[b].id,
        0 <= j < conns.len(),
    ensures
        registered(conns, conns[j].id),
        conn_index(conns, conns[j].id) == j,
{
    assert(conns[j].id == conns[j].id);
    let k = conn_index(conns, conns[j].id);
    if k < j {
        assert(conns[k].id != conns[j].id);
    }
    if k > j {
        assert(conns[j].id != conns[k].id);
    }
}

/// Changing what the entities on the grid are doing, but not who stands
/// where, keeps grid and registry consistent.
pub proof fn lemma_same_places(old_tiles: Seq<Tile>, tiles: Seq<Tile>, conns: Seq<Connection>)
    requires
        consistent(old_tiles, conns),
        tiles.len() == old_tiles.len(),
        forall|i: int|
            0 <= i < tiles.len() ==> (#[trigger] tiles[i]).position == old_tiles[i].position
                && occupant(tiles[i]) == occupant(old_tiles[i]),
    ensures
        consistent(tiles, conns),
{
    assert forall|i: int, k: int| 0 <= i < k < tiles.len() implies #[trigger] tiles[i].position
        != #[trigger] tiles[k].position by {
        assert(old_tiles[i].position != old_tiles[k].position);
    }
    assert forall|j: int| 0 <= j < conns.len() implies {
        &&& on_grid(tiles, #[trigger] conns[j].position)
        &&& occupant(tiles[tile_index(tiles, conns[j].position)]) == Some(conns[j].id)
    } by {
        let i = tile_index(old_tiles, conns[j].position);
        lemma_tile_index(old_tiles, i);
        lemma_tile_index(tiles, i);
    }
    assert forall|i: int| 0 <= i < tiles.len() && #[trigger] occupant(tiles[i]) is Some implies {
        &&& registered(conns, occupant(tiles[i])->0)
        &&& conns[conn_index(conns, occupant(tiles[i])->0)].position == tiles[i].position
    } by {
        assert(occupant(old_tiles[i]) is Some);
    }
}

/// Taking an entry out of the registry, and its entity off the grid, keeps
/// grid and registry consistent.
pub proof fn lemma_remove_consistent(tiles: Seq<Tile>, conns: Seq<Connection>, j: int)
    requires
        consistent(tiles, conns),
        0 <= j < conns.len(),
    ensures
        ({
            let i = tile_index(tiles, conns[j].position);
            consistent(tiles.update(i, with_object(tiles[i], None)), conns.remove(j))
        }),
{
    let p = conns[j].position;
    let key = conns[j].id;
    let i = tile_index(tiles, p);
    let t2 = tiles.update(i, with_object(tiles[i], None));
    let c2 = conns.remove(j);
    assert(on_grid(tiles, conns[j].position));
    assert forall|a: int, b: int| 0 <= a < b < t2.len() implies #[trigger] t2[a].position
        != #[trigger] t2[b].position by {
        assert(tiles[a].position != tiles[b].position);
    }
    assert forall|a: int, b: int| 0 <= a < b < c2.len() implies #[trigger] c2[a].id
        != #[trigger] c2[b].id by {
        let a0 = if a < j { a } else { a + 1 };
        let b0 = if b < j { b } else { b + 1 };
        assert(c2[a] == conns[a0] && c2[b] == conns[b0]);
        assert(conns[a0].id != conns[b0].id);
    }
    assert forall|m: int| 0 <= m < c2.len() implies {
        &&& on_grid(t2, #[trigger] c2[m].position)
        &&& occupant(t2[tile_index(t2, c2[m].position)]) == Some(c2[m].id)
    } by {
        let m0 = if m < j { m } else { m + 1 };
        assert(c2[m] == conns[m0]);
        assert(on_grid(tiles, conns[m0].position));
        let k = tile_index(tiles, conns[m0].position);
        lemma_tile_index(tiles, k);
        if m < j {
            assert(conns[m0].id != conns[j].id);
        } else {
            assert(conns[j].id != conns[m0].id);
        }
        assert(k != i);
        lemma_tile_index(t2, k);
    }
    assert forall|a: int| 0 <= a < t2.len() && #[trigger] occupant(t2[a]) is Some implies {
        &&& registered(c2, occupant(t2[a])->0)
        &&& c2[conn_index(c2, occupant(t2[a])->0)].position == t2[a].position
    } by {
        assert(a != i);
        assert(t2[a] == tiles[a]);
        assert(occupant(tiles[a]) is Some);
        let o = occupant(tiles[a])->0;
        let n = conn_index(conns, o);
        assert(registered(conns, o));
        assert(conns[n].id == o);
        lemma_tile_index(tiles, a);
        if n == j {
            assert(tiles[a].position == p);
            assert(a == i);
        }
        let n2 = if n < j { n } else { n - 1 };
        assert(c2[n2] == conns[n]);
        lemma_conn_index(c2, n2);
    }
}

/// Placing a new peer on a free tile, and registering it there, keeps grid
/// and registry consistent.
pub proof fn lemma_place_consistent(tiles: Seq<Tile>, conns: Seq<Connection>, k: int, o: Object)
    requires
        consistent(tiles, conns),
        0 <= k < tiles.len(),
        tiles[k].object is None,
        o matches Object::Human { id, .. } && !registered(conns, id),
    ensures
        ({
            let id = o->Human_id;
            consistent(
                tiles.update(k, with_object(tiles[k], Some(o))),
                conns.push(Connection { id, position: tiles[k].position }),
            )
        }),
{
    let id = o->Human_id;
    let p = tiles[k].position;
    let t2 = tiles.update(k, with_object(tiles[k], Some(o)));
    let c2 = conns.push(Connection { id, position: p });
    assert forall|a: int, b: int| 0 <= a < b < t2.len() implies #[trigger] t2[a].position
        != #[trigger] t2[b].position by {
        assert(tiles[a].position != tiles[b].position);
    }
    assert forall|a: int, b: int| 0 <= a < b < c2.len() implies #[trigger] c2[a].id
        != #[trigger] c2[b].id by {
        if b == conns.len() {
            assert(c2[a] == conns[a]);
            if conns[a].id == id {
                assert(registered(conns, id));
            }
        } else {
            assert(conns[a].id != conns[b].id);
        }
    }
    assert forall|m: int| 0 <= m < c2.len() implies {
        &&& on_grid(t2, #[trigger] c2[m].position)
        &&& occupant(t2[tile_index(t2, c2[m].position)]) == Some(c2[m].id)
    } by {
        if m == conns.len() {
            lemma_tile_index(t2, k);
        } else {
            assert(c2[m] == conns[m]);
            assert(on_grid(tiles, conns[m].position));
            let q = tile_index(tiles, conns[m].position);
            lemma_tile_index(tiles, q);
            assert(q != k);
            lemma_tile_index(t2, q);
        }
    }
    assert forall|a: int| 0 <= a < t2.len() && #[trigger] occupant(t2[a]) is Some implies {
        &&& registered(c2, occupant(t2[a])->0)
        &&& c2[conn_index(c2, occupant(t2[a])->0)].position == t2[a].position
    } by {
        lemma_conn_index(c2, conns.len() as int);
        if a != k {
            assert(t2[a] == tiles[a]);
            assert(occupant(tiles[a]) is Some);
            let n = conn_index(conns, occupant(tiles[a])->0);
            assert(registered(conns, occupant(tiles[a])->0));
            assert(c2[n] == conns[n]);
            lemma_conn_index(c2, n);
        }
    }
}

/// Moving a registered peer's entity from its tile to a free one, and its
/// registry entry along with it, keeps grid and registry consistent.
pub proof fn lemma_relocate_consistent(
    tiles: Seq<Tile>,
    conns: Seq<Connection>,
    j: int,
    d: int,
    o: Object,
)
    requires
        consistent(tiles, conns),
        0 <= j < conns.len(),
        0 <= d < tiles.len(),
        tiles[d].object is None,
        o matches Object::Human { id, .. } && id == conns[j].id,
    ensures
        ({
            let i = tile_index(tiles, conns[j].position);
            consistent(
                tiles.update(i, with_object(tiles[i], None)).update(
                    d,
                    with_object(tiles[d], Some(o)),
                ),
                conns.update(j, Connection { id: conns[j].id, position: tiles[d].position }),
            )
        }),
{
    let id = conns[j].id;
    let i = tile_index(tiles, conns[j].position);
    assert(on_grid(tiles, conns[j].position));
    lemma_tile_index(tiles, i);
    assert(i != d);
    let q = tiles[d].position;
    let t2 = tiles.update(i, with_object(tiles[i], None)).update(d, with_object(tiles[d], Some(o)));
    let c2 = conns.update(j, Connection { id, position: q });
    assert forall|a: int, b: int| 0 <= a < b < t2.len() implies #[trigger] t2[a].position
        != #[trigger] t2[b].position by {
        assert(tiles[a].position != tiles[b].position);
    }
    assert forall|a: int, b: int| 0 <= a < b < c2.len() implies #[trigger] c2[a].id
        != #[trigger] c2[b].id by {
        assert(conns[a].id != conns[b].id);
    }
    assert forall|m: int| 0 <= m < c2.len() implies {
        &&& on_grid(t2, #[trigger] c2[m].position)
        &&& occupant(t2[tile_index(t2, c2[m].position)]) == Some(c2[m].id)
    } by {
        if m == j {
            lemma_tile_index(t2, d);
        } else {
            assert(c2[m] == conns[m]);
            assert(on_grid(tiles, conns[m].position));
            let k = tile_index(tiles, conns[m].position);
            lemma_tile_index(tiles, k);
            if m < j {
                assert(conns[m].id != conns[j].id);
            } else {
                assert(conns[j].id != conns[m].id);
            }
            assert(k != i);
            assert(k != d);
            lemma_tile_index(t2, k);
        }
    }
    assert forall|a: int| 0 <= a < t2.len() && #[trigger] occupant(t2[a]) is Some implies {
        &&& registered(c2, occupant(t2[a])->0)
        &&& c2[conn_index(c2, occupant(t2[a])->0)].position == t2[a].position
    } by {
        if a == d {
            lemma_conn_index(c2, j);
        } else {
            assert(a != i);
            assert(t2[a] == tiles[a]);
            assert(occupant(tiles[a]) is Some);
            let n = conn_index(conns, occupant(tiles[a])->0);
            assert(registered(conns, occupant(tiles[a])->0));
            lemma_tile_index(tiles, a);
            if n == j {
                assert(a == i);
            }
            assert(c2[n] == conns[n]);
            lemma_conn_index(c2, n);
        }
    }
}

impl World {
    pub open spec fn wf(&self) -> bool {
        &&& self.queue.wf()
        &&& consistent(self.tiles@, self.connections@)
    }

    /// A world on the given grid, with nobody connected and nothing
    /// pending. The grid holds one tile per position, all of them free.
    pub fn new(tiles: Vec<Tile>) -> (r: World)
        requires
            forall|i: int, k: int|
                0 <= i < k < tiles@.len() ==> #[trigger] tiles@[i].position
                    != #[trigger] tiles@[k].position,
            forall|i: int| 0 <= i < tiles@.len() ==> (#[trigger] tiles@[i]).object is None,
        ensures
            r.wf(),
            r.tiles@ == tiles@,
            r.connections@.len() == 0,
            r.queue@.len() == 0,
    {
        World { tiles, connections: Vec::new(), queue: JobQueue::new() }
    }

    /// `id` has an entry in the registry.
    pub fn is_connected(&self, id: &Identity) -> (r: bool)
        ensures
            r == registered(self.connections@, *id),
    {
        find_connection(&self.connections, id).is_some()
    }

    /// Schedules the removal of `id` at `now` instead of removing it in
    /// place, so that no iteration over the registry is disturbed.
    pub fn schedule_drop(&mut self, id: Identity, now: u64)
        requires
            old(self).wf(),
        ensures
            final(self).wf(),
            final(self).tiles@ == old(self).tiles@,
            final(self).connections@ == old(self).connections@,
            final(self).queue@ == old(self).queue@.insert(
                slot_for(old(self).queue@, now),
                Schedule { job: Job::Drop(id), deadline: now },
            ),
    {
        self.queue.push(Schedule::now(Job::Drop(id), now));
    }

    /// What the event loop waits for next, at time `now`.
    pub fn select(&self, now: u64) -> (r: Selection)
        ensures
            self.connections@.len() == 0 ==> r == Selection::Handoff,
            self.connections@.len() > 0 && self.queue@.len() == 0 ==> r == Selection::HandoffOrRead,
            self.connections@.len() > 0 && self.queue@.len() > 0 && self.queue@[0].deadline <= now
                ==> r == Selection::Due,
            self.connections@.len() > 0 && self.queue@.len() > 0 && self.queue@[0].deadline > now
                ==> r == (Selection::HandoffReadOrTimer { deadline: self.queue@[0].deadline }),
    {
        if self.connections.len() == 0 {
            Selection::Handoff
        } else {
            match self.queue.peek_deadline() {
                None => Selection::HandoffOrRead,
                Some(deadline) => {
                    if deadline <= now {
                        Selection::Due
                    } else {
                        Selection::HandoffReadOrTimer { deadline }
                    }
                },
            }
        }
    }

    /// Takes the earliest pending job out of the queue.
    pub fn take_due(&mut self) -> (r: Option<Job>)
        requires
            old(self).wf(),
        ensures
            final(self).wf(),
            final(self).tiles@ == old(self).tiles@,
            final(self).connections@ == old(self).connections@,
            old(self).queue@.len() == 0 ==> r is None && final(self).queue@ == old(self).queue@,
            old(self).queue@.len() > 0 ==> r == Some(old(self).queue@[0].job)
                && final(self).queue@ == old(self).queue@.drop_first(),
    {
        match self.queue.pop() {
            Some(s) => Some(s.job),
            None => None,
        }
    }
}

} // verus!
