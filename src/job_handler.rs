//! What the world does when a job runs.
use vstd::prelude::*;
use crate::codec::{
    Identity, Incoming, IncomingView, Outgoing, decode_spec, opcode, outgoing_bytes,
    roster_bytes,
};
use crate::incoming_handler::{handle_ping, requested};
use crate::job::{Job, Received, Schedule, slot_for};
use crate::math::Vector3;
use crate::world::{
    Connection, Delivery, HumanState, Object, Tile, World, broadcast, broadcast_all, conn_index,
    deliveries, find_connection, find_tile, first_free, lemma_conn_index, lemma_place_consistent,
    lemma_relocate_consistent, lemma_remove_consistent, lemma_same_places, lemma_tile_index,
    occupant, on_grid, registered, state_of, tile_index, updated_at_of, with_object,
};

verus! {

/// Why a peer could not be placed on the grid.
#[derive(Debug, Clone, Copy, PartialEq, Eq, Structural)]
pub enum WelcomeError {
    /// The identity already has an entry in the registry.
    AlreadyConnected,
    /// Every tile is occupied.
    NoFreeTile,
}

/// The registry as roster entries: identity and position.
pub open spec fn roster_of(conns: Seq<Connection>) -> Seq<(Identity, i32, i32, i32)> {
    conns.map_values(|c: Connection| (c.id, c.position.x, c.position.y, c.position.z))
}

/// `k` is the first free tile in grid order.
pub open spec fn is_first_free(tiles: Seq<Tile>, k: int) -> bool {
    &&& 0 <= k < tiles.len()
    &&& tiles[k].object is None
    &&& forall|i: int| 0 <= i < k ==> (#[trigger] tiles[i]).object is Some
}

/// Some tile is free.
pub open spec fn has_free(tiles: Seq<Tile>) -> bool {
    exists|k: int| 0 <= k < tiles.len() && (#[trigger] tiles[k]).object is None
}

/// The first free tile in grid order, where [`has_free`] holds.
pub open spec fn first_free_index(tiles: Seq<Tile>) -> int {
    choose|k: int| is_first_free(tiles, k)
}

/// Nothing changed.
pub open spec fn unchanged(pre: World, post: World) -> bool {
    &&& post.tiles@ == pre.tiles@
    &&& post.connections@ == pre.connections@
    &&& post.queue@ == pre.queue@
}

/// `post` is `pre` after welcoming `id`, with result `r` (the deliveries as
/// pairs). A registered identity, or a full grid, is refused and changes
/// nothing. Otherwise the peer's entity stands, settled, on the first free
/// tile and the peer is registered there; every peer registered before gets
/// a connect message for it, and the new peer then gets the roster: itself
/// first, then every peer registered before, in registry order.
pub open spec fn welcomed(
    pre: World,
    post: World,
    id: Identity,
    r: Result<Seq<(Identity, Seq<u8>)>, WelcomeError>,
) -> bool {
    if registered(pre.connections@, id) {
        r == Err::<Seq<(Identity, Seq<u8>)>, WelcomeError>(WelcomeError::AlreadyConnected)
            && unchanged(pre, post)
    } else if !has_free(pre.tiles@) {
        r == Err::<Seq<(Identity, Seq<u8>)>, WelcomeError>(WelcomeError::NoFreeTile) && unchanged(
            pre,
            post,
        )
    } else {
        let k = first_free_index(pre.tiles@);
        let p = pre.tiles@[k].position;
        let human = Object::Human { id, state: HumanState::Idle { updated_at: None } };
        let connect = outgoing_bytes(Outgoing::Connect { id, x: p.x, y: p.y, z: p.z });
        let introduce = opcode(5) + roster_bytes(
            seq![(id, p.x, p.y, p.z)] + roster_of(pre.connections@),
        );
        &&& post.tiles@ == pre.tiles@.update(k, with_object(pre.tiles@[k], Some(human)))
        &&& post.connections@ == pre.connections@.push(Connection { id, position: p })
        &&& post.queue@ == pre.queue@
        &&& r == Ok::<Seq<(Identity, Seq<u8>)>, WelcomeError>(
            broadcast(pre.connections@, connect) + seq![(id, introduce)],
        )
    }
}

/// `post` is `pre` after dropping `key`, with deliveries `r`. An identity
/// that is not registered changes nothing. Otherwise its registry entry and
/// its entity leave together, and every remaining peer gets a disconnect
/// message for it.
pub open spec fn dropped(pre: World, post: World, key: Identity, r: Seq<(Identity, Seq<u8>)>) -> bool {
    if !registered(pre.connections@, key) {
        unchanged(pre, post) && r.len() == 0
    } else {
        let j = conn_index(pre.connections@, key);
        let i = tile_index(pre.tiles@, pre.connections@[j].position);
        &&& post.connections@ == pre.connections@.remove(j)
        &&& post.tiles@ == pre.tiles@.update(i, with_object(pre.tiles@[i], None))
        &&& post.queue@ == pre.queue@
        &&& r == broadcast(post.connections@, outgoing_bytes(Outgoing::Disconnect { id: key }))
    }
}

/// The neighbour of `p` in direction `d` (1: +z, 2: -z, 3: -x, 4: +x);
/// `None` where the coordinate would leave the range of `i32`.
pub open spec fn step_spec(p: Vector3, d: u8) -> Option<Vector3> {
    if d == 1 {
        if p.z < i32::MAX {
            Some(Vector3 { x: p.x, y: p.y, z: (p.z + 1) as i32 })
        } else {
            None
        }
    } else if d == 2 {
        if p.z > i32::MIN {
            Some(Vector3 { x: p.x, y: p.y, z: (p.z - 1) as i32 })
        } else {
            None
        }
    } else if d == 3 {
        if p.x > i32::MIN {
            Some(Vector3 { x: (p.x - 1) as i32, y: p.y, z: p.z })
        } else {
            None
        }
    } else {
        if p.x < i32::MAX {
            Some(Vector3 { x: (p.x + 1) as i32, y: p.y, z: p.z })
        } else {
            None
        }
    }
}

/// Where an entity in state `s` standing on `from` would go: nowhere for a
/// settled one (its own tile), the neighbour in its direction otherwise.
pub open spec fn destination(s: HumanState, from: Vector3) -> Option<Vector3> {
    match s {
        HumanState::Idle { .. } => Some(from),
        HumanState::Move { direction, .. } => step_spec(from, direction),
    }
}

/// The entity cannot enter `dest`: it is off the grid or occupied.
pub open spec fn blocked(tiles: Seq<Tile>, dest: Option<Vector3>) -> bool {
    dest is None || !on_grid(tiles, dest->0) || tiles[tile_index(tiles, dest->0)].object is Some
}

/// A state that a step can act on: settled, or moving in one of the four
/// directions.
pub open spec fn steppable(s: HumanState) -> bool {
    match s {
        HumanState::Idle { .. } => true,
        HumanState::Move { direction, .. } => 1 <= direction <= 4,
    }
}

/// The deadline `tick` milliseconds after `now`, or the largest time.
pub open spec fn later(now: u64, tick: u32) -> u64 {
    if now as int + tick as int <= u64::MAX as int {
        (now + tick) as u64
    } else {
        u64::MAX
    }
}

/// `post` is `pre` after a step of the entity on `from` at `now`, with
/// deliveries `r`.
///
/// With no entity there, or one moving in no known direction, nothing
/// changes. An entity whose destination is blocked settles, keeping its
/// last-transition time, and every peer gets an arrive message for it at
/// `from`; no further step is scheduled. Otherwise the entity moves to the
/// destination with `now` as its last-transition time, its registry entry
/// moves with it, every peer gets a move message, and the next step is
/// scheduled `tick` later.
pub open spec fn stepped(
    pre: World,
    post: World,
    from: Vector3,
    tick: u32,
    now: u64,
    r: Seq<(Identity, Seq<u8>)>,
) -> bool {
    let i = tile_index(pre.tiles@, from);
    let t = pre.tiles@[i];
    if !on_grid(pre.tiles@, from) || t.object is None || !steppable(state_of(t)->0) {
        unchanged(pre, post) && r.len() == 0
    } else {
        let id = occupant(t)->0;
        let s = state_of(t)->0;
        let dest = destination(s, from);
        if blocked(pre.tiles@, dest) {
            let settled = HumanState::Idle { updated_at: updated_at_of(s) };
            &&& post.tiles@ == pre.tiles@.update(
                i,
                with_object(t, Some(Object::Human { id, state: settled })),
            )
            &&& post.connections@ == pre.connections@
            &&& post.queue@ == pre.queue@
            &&& r == broadcast(
                pre.connections@,
                outgoing_bytes(Outgoing::Arrive { id, x: from.x, y: from.y, z: from.z }),
            )
        } else {
            let q = dest->0;
            let d = tile_index(pre.tiles@, q);
            let j = conn_index(pre.connections@, id);
            let moving = HumanState::Move { direction: s->Move_direction, updated_at: Some(now) };
            let next = Schedule { job: Job::Move { from: q, tick }, deadline: later(now, tick) };
            &&& post.tiles@ == pre.tiles@.update(i, with_object(t, None)).update(
                d,
                with_object(pre.tiles@[d], Some(Object::Human { id, state: moving })),
            )
            &&& post.connections@ == pre.connections@.update(j, Connection { id, position: q })
            &&& post.queue@ == pre.queue@.insert(slot_for(pre.queue@, later(now, tick)), next)
            &&& r == broadcast(
                post.connections@,
                outgoing_bytes(Outgoing::Move { id, x: q.x, y: q.y, z: q.z, tick: tick as i64 }),
            )
        }
    }
}

/// Places a newly authenticated peer; see [`welcomed`].
pub fn handle_welcome(id: Identity, context: &mut World) -> (r: Result<Vec<Delivery>, WelcomeError>)
    requires
        old(context).wf(),
    ensures
        final(context).wf(),
        welcomed(
            *old(context),
            *final(context),
            id,
            match r {
                Ok(v) => Ok(deliveries(v@)),
                Err(e) => Err(e),
            },
        ),
{
    if context.is_connected(&id) {
        return Err(WelcomeError::AlreadyConnected);
    }
    let k = match first_free(&context.tiles) {
        Some(k) => k,
        None => {
            assert(!has_free(context.tiles@));
            return Err(WelcomeError::NoFreeTile);
        },
    };
    proof {
        assert(is_first_free(context.tiles@, k as int));
        let c = first_free_index(context.tiles@);
        assert(is_first_free(context.tiles@, c));
        if c < k {
            assert(context.tiles@[c].object is Some);
        }
        if c > k {
            assert(context.tiles@[k as int].object is Some);
        }
    }
    let ghost pre = *context;
    let t = context.tiles[k];
    let p = t.position;
    let connect = Outgoing::Connect { id, x: p.x, y: p.y, z: p.z }.serialize();
    let mut out = broadcast_all(&context.connections, &connect);
    let mut users: Vec<(Identity, i32, i32, i32)> = Vec::new();
    users.push((id, p.x, p.y, p.z));
    let mut j: usize = 0;
    while j < context.connections.len()
        invariant
            *context == pre,
            j <= context.connections@.len(),
            users@ == seq![(id, p.x, p.y, p.z)] + roster_of(
                context.connections@.subrange(0, j as int),
            ),
        decreases context.connections@.len() - j,
    {
        let c = context.connections[j];
        users.push((c.id, c.position.x, c.position.y, c.position.z));
        j = j + 1;
        assert(users@ =~= seq![(id, p.x, p.y, p.z)] + roster_of(
            context.connections@.subrange(0, j as int),
        ));
    }
    assert(context.connections@.subrange(0, context.connections@.len() as int)
        =~= context.connections@);
    let human = Object::new_human(id);
    proof {
        lemma_place_consistent(context.tiles@, context.connections@, k as int, human);
    }
    context.tiles[k] = Tile { position: p, id: t.id, rotation: t.rotation, object: Some(human) };
    context.connections.push(Connection { id, position: p });
    let introduce = Outgoing::Introduce { users }.serialize();
    let ghost before = out@;
    out.push(Delivery { to: id, body: introduce });
    assert(deliveries(out@) =~= deliveries(before) + seq![(id, introduce@)]);
    assert(context.tiles@ =~= pre.tiles@.update(
        k as int,
        with_object(pre.tiles@[k as int], Some(human)),
    ));
    Ok(out)
}

/// Removes a peer; see [`dropped`]. Running it for an identity that is
/// already gone does nothing.
pub fn handle_drop(key: Identity, context: &mut World) -> (r: Vec<Delivery>)
    requires
        old(context).wf(),
    ensures
        final(context).wf(),
        dropped(*old(context), *final(context), key, deliveries(r@)),
{
    let j = match find_connection(&context.connections, &key) {
        Some(j) => j,
        None => return Vec::new(),
    };
    proof {
        lemma_conn_index(context.connections@, j as int);
        lemma_remove_consistent(context.tiles@, context.connections@, j as int);
    }
    let ghost pre = *context;
    let p = context.connections[j].position;
    let i = match find_tile(&context.tiles, p) {
        Some(i) => i,
        None => {
            assert(on_grid(context.tiles@, p));
            return Vec::new();
        },
    };
    proof {
        lemma_tile_index(context.tiles@, i as int);
    }
    let t = context.tiles[i];
    context.tiles[i] = Tile { position: t.position, id: t.id, rotation: t.rotation, object: None };
    context.connections.remove(j);
    let body = Outgoing::Disconnect { id: key }.serialize();
    let out = broadcast_all(&context.connections, &body);
    assert(context.tiles@ =~= pre.tiles@.update(i as int, with_object(pre.tiles@[i as int], None)));
    out
}

/// The neighbour of `p` in direction `d`; see [`step_spec`].
pub fn step(p: Vector3, d: u8) -> (r: Option<Vector3>)
    requires
        1 <= d <= 4,
    ensures
        r == step_spec(p, d),
{
    if d == 1 {
        if p.z < i32::MAX {
            Some(Vector3 { x: p.x, y: p.y, z: p.z + 1 })
        } else {
            None
        }
    } else if d == 2 {
        if p.z > i32::MIN {
            Some(Vector3 { x: p.x, y: p.y, z: p.z - 1 })
        } else {
            None
        }
    } else if d == 3 {
        if p.x > i32::MIN {
            Some(Vector3 { x: p.x - 1, y: p.y, z: p.z })
        } else {
            None
        }
    } else {
        if p.x < i32::MAX {
            Some(Vector3 { x: p.x + 1, y: p.y, z: p.z })
        } else {
            None
        }
    }
}

/// Runs one step of the entity on `from`; see [`stepped`].
pub fn handle_move(from: Vector3, tick: u32, context: &mut World, now: u64) -> (r: Vec<Delivery>)
    requires
        old(context).wf(),
    ensures
        final(context).wf(),
        stepped(*old(context), *final(context), from, tick, now, deliveries(r@)),
{
    let ghost pre = *context;
    let i = match find_tile(&context.tiles, from) {
        Some(i) => i,
        None => return Vec::new(),
    };
    proof {
        lemma_tile_index(context.tiles@, i as int);
    }
    let t = context.tiles[i];
    let (id, state) = match t.object {
        Some(Object::Human { id, state }) => (id, state),
        None => return Vec::new(),
    };
    let dest = match state {
        HumanState::Idle { .. } => Some(from),
        HumanState::Move { direction, .. } => {
            if direction < 1 || direction > 4 {
                return Vec::new();
            }
            step(from, direction)
        },
    };
    let free = match dest {
        Some(q) => match find_tile(&context.tiles, q) {
            Some(d) => {
                proof {
                    lemma_tile_index(context.tiles@, d as int);
                }
                if context.tiles[d].object.is_none() {
                    Some((q, d))
                } else {
                    None
                }
            },
            None => None,
        },
        None => None,
    };
    match free {
        None => {
            let updated_at = match state {
                HumanState::Idle { updated_at } => updated_at,
                HumanState::Move { updated_at, .. } => updated_at,
            };
            let settled = Object::Human { id, state: HumanState::Idle { updated_at } };
            context.tiles[i] = Tile {
                position: t.position,
                id: t.id,
                rotation: t.rotation,
                object: Some(settled),
            };
            proof {
                assert forall|k: int| 0 <= k < context.tiles@.len() implies (
                #[trigger] context.tiles@[k]).position == pre.tiles@[k].position && occupant(
                    context.tiles@[k],
                ) == occupant(pre.tiles@[k]) by {}
                lemma_same_places(pre.tiles@, context.tiles@, context.connections@);
            }
            let body = Outgoing::Arrive { id, x: from.x, y: from.y, z: from.z }.serialize();
            let out = broadcast_all(&context.connections, &body);
            assert(context.tiles@ =~= pre.tiles@.update(
                i as int,
                with_object(t, Some(settled)),
            ));
            out
        },
        Some((q, d)) => {
            let direction = match state {
                HumanState::Move { direction, .. } => direction,
                HumanState::Idle { .. } => {
                    // A settled entity's destination is its own tile, which
                    // it occupies.
                    assert(false);
                    0
                },
            };
            let j = match find_connection(&context.connections, &id) {
                Some(j) => j,
                None => {
                    assert(occupant(context.tiles@[i as int]) is Some);
                    return Vec::new();
                },
            };
            proof {
                lemma_conn_index(context.connections@, j as int);
                assert(pre.connections@[j as int].position == from);
                lemma_tile_index(context.tiles@, i as int);
            }
            let moving = Object::Human {
                id,
                state: HumanState::Move { direction, updated_at: Some(now) },
            };
            proof {
                lemma_relocate_consistent(
                    context.tiles@,
                    context.connections@,
                    j as int,
                    d as int,
                    moving,
                );
            }
            let td = context.tiles[d];
            context.tiles[i] = Tile {
                position: t.position,
                id: t.id,
                rotation: t.rotation,
                object: None,
            };
            context.tiles[d] = Tile {
                position: td.position,
                id: td.id,
                rotation: td.rotation,
                object: Some(moving),
            };
            context.connections[j] = Connection { id, position: q };
            let body = Outgoing::Move { id, x: q.x, y: q.y, z: q.z, tick: tick as i64 }.serialize();
            let out = broadcast_all(&context.connections, &body);
            let deadline = if (tick as u64) <= u64::MAX - now {
                now + tick as u64
            } else {
                u64::MAX
            };
            context.queue.push(Schedule::new(Job::Move { from: q, tick }, deadline));
            assert(context.tiles@ =~= pre.tiles@.update(i as int, with_object(t, None)).update(
                d as int,
                with_object(pre.tiles@[d as int], Some(moving)),
            ));
            out
        },
    }
}

/// `post` is `pre` with a drop of `key` scheduled at `now`.
pub open spec fn drop_scheduled(pre: World, post: World, key: Identity, now: u64) -> bool {
    &&& post.tiles@ == pre.tiles@
    &&& post.connections@ == pre.connections@
    &&& post.queue@ == pre.queue@.insert(
        slot_for(pre.queue@, now),
        Schedule { job: Job::Drop(key), deadline: now },
    )
}

/// `post` is `pre` after handling what was read from `key` at `now`, with
/// deliveries `r`.
///
/// A peer that is not registered, or a read that would block, changes
/// nothing. A failed read, or a body that is no valid message, schedules a
/// drop of the peer at `now`. A ping is answered with a pong that carries
/// the same timestamp; a move request follows [`requested`]; a greeting is
/// ignored.
pub open spec fn read_done(
    pre: World,
    post: World,
    key: Identity,
    received: Received,
    now: u64,
    r: Seq<(Identity, Seq<u8>)>,
) -> bool {
    if !registered(pre.connections@, key) {
        unchanged(pre, post) && r.len() == 0
    } else {
        match received {
            Received::Failed => drop_scheduled(pre, post, key, now) && r.len() == 0,
            Received::WouldBlock => unchanged(pre, post) && r.len() == 0,
            Received::Frame(b) => match decode_spec(b@) {
                Err(_) => drop_scheduled(pre, post, key, now) && r.len() == 0,
                Ok(IncomingView::Ping { timestamp }) => unchanged(pre, post) && r == seq![
                    (key, outgoing_bytes(Outgoing::Pong { timestamp })),
                ],
                Ok(IncomingView::Move { direction }) => requested(pre, post, key, direction, now)
                    && r.len() == 0,
                Ok(IncomingView::Hello { .. }) => unchanged(pre, post) && r.len() == 0,
            },
        }
    }
}

/// Handles what was read from a peer; see [`read_done`].
pub fn handle_read(key: Identity, received: Received, context: &mut World, now: u64) -> (r: Vec<
    Delivery,
>)
    requires
        old(context).wf(),
    ensures
        final(context).wf(),
        read_done(*old(context), *final(context), key, received, now, deliveries(r@)),
{
    if !context.is_connected(&key) {
        return Vec::new();
    }
    match received {
        Received::Failed => {
            context.schedule_drop(key, now);
            Vec::new()
        },
        Received::WouldBlock => Vec::new(),
        Received::Frame(body) => match Incoming::deserialize(body.as_slice()) {
            Err(_) => {
                context.schedule_drop(key, now);
                Vec::new()
            },
            Ok(Incoming::Ping { timestamp }) => handle_ping(timestamp, key, context),
            Ok(Incoming::Move { direction }) => {
                crate::incoming_handler::handle_move(direction, key, context, now);
                Vec::new()
            },
            Ok(Incoming::Hello { .. }) => Vec::new(),
        },
    }
}

/// Runs a job. A welcome can be refused (see [`welcomed`]); every other job
/// succeeds, as [`dropped`], [`read_done`] and [`stepped`] describe.
pub fn handle(context: &mut World, job: Job, now: u64) -> (r: Result<Vec<Delivery>, WelcomeError>)
    requires
        old(context).wf(),
    ensures
        final(context).wf(),
        match job {
            Job::Welcome(id) => welcomed(
                *old(context),
                *final(context),
                id,
                match r {
                    Ok(v) => Ok(deliveries(v@)),
                    Err(e) => Err(e),
                },
            ),
            Job::Drop(key) => r matches Ok(v) && dropped(
                *old(context),
                *final(context),
                key,
                deliveries(v@),
            ),
            Job::Read(key, received) => r matches Ok(v) && read_done(
                *old(context),
                *final(context),
                key,
                received,
                now,
                deliveries(v@),
            ),
            Job::Move { from, tick } => r matches Ok(v) && stepped(
                *old(context),
                *final(context),
                from,
                tick,
                now,
                deliveries(v@),
            ),
        },
{
    match job {
        Job::Welcome(id) => handle_welcome(id, context),
        Job::Drop(key) => Ok(handle_drop(key, context)),
        Job::Read(key, received) => Ok(handle_read(key, received, context, now)),
        Job::Move { from, tick } => Ok(handle_move(from, tick, context, now)),
    }
}

/// Collision: when the destination of a step is off the grid or occupied,
/// the entity settles, each registered peer gets exactly one arrive message,
/// and no step is scheduled, so none follows until a new move request.
pub proof fn lemma_collision(
    pre: World,
    post: World,
    from: Vector3,
    tick: u32,
    now: u64,
    r: Seq<(Identity, Seq<u8>)>,
)
    requires
        on_grid(pre.tiles@, from),
        pre.tiles@[tile_index(pre.tiles@, from)].object is Some,
        steppable(state_of(pre.tiles@[tile_index(pre.tiles@, from)])->0),
        blocked(
            pre.tiles@,
            destination(state_of(pre.tiles@[tile_index(pre.tiles@, from)])->0, from),
        ),
        stepped(pre, post, from, tick, now, r),
    ensures
        ({
            let i = tile_index(pre.tiles@, from);
            let id = occupant(pre.tiles@[i])->0;
            let arrive = outgoing_bytes(Outgoing::Arrive { id, x: from.x, y: from.y, z: from.z });
            &&& state_of(post.tiles@[i]) matches Some(HumanState::Idle { .. })
            &&& occupant(post.tiles@[i]) == Some(id)
            &&& post.queue@ == pre.queue@
            &&& r.len() == pre.connections@.len()
            &&& forall|k: int| 0 <= k < r.len() ==> #[trigger] r[k] == (pre.connections@[k].id, arrive)
        }),
{
    let i = tile_index(pre.tiles@, from);
    assert(pre.tiles@[i].position == from);
}

/// Dropping is idempotent: dropping an identity that is not registered
/// changes nothing and sends nothing, and a second drop of the same identity
/// right after a first one is such a drop.
pub proof fn lemma_drop_idempotent(
    pre: World,
    mid: World,
    post: World,
    key: Identity,
    r1: Seq<(Identity, Seq<u8>)>,
    r2: Seq<(Identity, Seq<u8>)>,
)
    requires
        pre.wf(),
        dropped(pre, mid, key, r1),
        dropped(mid, post, key, r2),
    ensures
        !registered(mid.connections@, key),
        unchanged(mid, post),
        r2.len() == 0,
        !registered(pre.connections@, key) ==> unchanged(pre, mid) && r1.len() == 0,
{
    if registered(pre.connections@, key) {
        let c = pre.connections@;
        let j = conn_index(c, key);
        assert(c[j].id == key);
        if registered(mid.connections@, key) {
            let m = conn_index(mid.connections@, key);
            let m0 = if m < j { m } else { m + 1 };
            assert(mid.connections@[m] == c[m0]);
            if m0 < j {
                assert(c[m0].id != c[j].id);
            } else {
                assert(c[j].id != c[m0].id);
            }
        }
    }
}

/// Dropping a registered identity removes its registry entry and frees its
/// tile, and every remaining peer gets exactly one disconnect message.
pub proof fn lemma_drop_present(
    pre: World,
    post: World,
    key: Identity,
    r: Seq<(Identity, Seq<u8>)>,
)
    requires
        pre.wf(),
        registered(pre.connections@, key),
        dropped(pre, post, key, r),
    ensures
        !registered(post.connections@, key),
        post.connections@.len() == pre.connections@.len() - 1,
        ({
            let p = pre.connections@[conn_index(pre.connections@, key)].position;
            post.tiles@[tile_index(pre.tiles@, p)].object is None
        }),
        r.len() == post.connections@.len(),
        forall|k: int|
            0 <= k < r.len() ==> #[trigger] r[k] == (
                post.connections@[k].id,
                outgoing_bytes(Outgoing::Disconnect { id: key }),
            ),
{
    let c = pre.connections@;
    let j = conn_index(c, key);
    assert(c[j].id == key);
    let p = c[j].position;
    assert(on_grid(pre.tiles@, p));
    if registered(post.connections@, key) {
        let m = conn_index(post.connections@, key);
        let m0 = if m < j { m } else { m + 1 };
        assert(post.connections@[m] == c[m0]);
        if m0 < j {
            assert(c[m0].id != c[j].id);
        } else {
            assert(c[j].id != c[m0].id);
        }
    }
}

} // verus!
