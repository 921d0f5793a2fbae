//! What the world does with a message that a peer sent.
use vstd::prelude::*;
use crate::codec::{Identity, Incoming, Outgoing, outgoing_bytes};
use crate::job::{Job, Schedule, slot_for};
use crate::world::{
    Delivery, HumanState, Object, Tile, World, conn_index, deliveries, lemma_same_places,
    lemma_tile_index, on_grid, registered, state_of, tile_index, updated_at_of, with_object, find_connection,
    find_tile,
};

verus! {

/// Minimum time, in milliseconds, between a settled entity's last
/// transition and its next start.
pub const DEBOUNCE_MS: u64 = 300;

/// Duration, in milliseconds, of one step of movement.
pub const TICK_MS: u32 = 300;

/// A start requested at `now` falls within the debounce window of `s`.
pub open spec fn debounced(s: HumanState, now: u64) -> bool {
    match updated_at_of(s) {
        Some(t) => (now as int) < t as int + DEBOUNCE_MS as int,
        None => false,
    }
}

/// The state after a move request for direction `d` at `now`, and whether
/// a step must be scheduled.
///
/// Direction 0 stops, keeping the last-transition time. A moving entity
/// takes the new direction and keeps its time, with no new step: the step
/// in flight reads the direction when it runs. A settled entity starts,
/// unless the request falls within the debounce window, which leaves it
/// as it was.
pub open spec fn request_spec(s: HumanState, d: u8, now: u64) -> (HumanState, bool) {
    if d == 0 {
        (HumanState::Idle { updated_at: updated_at_of(s) }, false)
    } else {
        match s {
            HumanState::Move { updated_at, .. } => (
                HumanState::Move { direction: d, updated_at },
                false,
            ),
            HumanState::Idle { .. } => {
                if debounced(s, now) {
                    (s, false)
                } else {
                    (HumanState::Move { direction: d, updated_at: Some(now) }, true)
                }
            },
        }
    }
}

/// Applies the movement rules to one state; see [`request_spec`].
pub fn next_state(state: HumanState, direction: u8, now: u64) -> (r: (HumanState, bool))
    ensures
        r == request_spec(state, direction, now),
{
    if direction == 0 {
        let updated_at = match state {
            HumanState::Idle { updated_at } => updated_at,
            HumanState::Move { updated_at, .. } => updated_at,
        };
        return (HumanState::Idle { updated_at }, false);
    }
    match state {
        HumanState::Move { updated_at, .. } => (HumanState::Move { direction, updated_at }, false),
        HumanState::Idle { updated_at } => {
            let within = match updated_at {
                Some(t) => now < t || now - t < DEBOUNCE_MS,
                None => false,
            };
            if within {
                (state, false)
            } else {
                (HumanState::Move { direction, updated_at: Some(now) }, true)
            }
        },
    }
}

/// `post` is `pre` after a move request for direction `d` from `key` at
/// `now`: the entity's state follows [`request_spec`], and a step starting
/// from its tile is scheduled at `now` when the entity starts. A peer that
/// is not registered changes nothing.
pub open spec fn requested(pre: World, post: World, key: Identity, d: u8, now: u64) -> bool {
    &&& post.connections@ == pre.connections@
    &&& !registered(pre.connections@, key) ==> post.tiles@ == pre.tiles@ && post.queue@
        == pre.queue@
    &&& registered(pre.connections@, key) ==> {
        let p = pre.connections@[conn_index(pre.connections@, key)].position;
        let i = tile_index(pre.tiles@, p);
        let t = pre.tiles@[i];
        let r = request_spec(state_of(t)->0, d, now);
        &&& post.tiles@ == pre.tiles@.update(
            i,
            with_object(t, Some(Object::Human { id: key, state: r.0 })),
        )
        &&& post.queue@ == if r.1 {
            pre.queue@.insert(
                slot_for(pre.queue@, now),
                Schedule { job: Job::Move { from: p, tick: TICK_MS }, deadline: now },
            )
        } else {
            pre.queue@
        }
    }
}

/// Handles a move request; see [`requested`].
pub fn handle_move(direction: u8, key: Identity, context: &mut World, now: u64)
    requires
        old(context).wf(),
    ensures
        final(context).wf(),
        final(context).connections@ == old(context).connections@,
        requested(*old(context), *final(context), key, direction, now),
{
    let j = match find_connection(&context.connections, &key) {
        Some(j) => j,
        None => return ,
    };
    let p = context.connections[j].position;
    proof {
        crate::world::lemma_conn_index(context.connections@, j as int);
    }
    let i = match find_tile(&context.tiles, p) {
        Some(i) => i,
        None => return ,
    };
    proof {
        lemma_tile_index(context.tiles@, i as int);
    }
    let t = context.tiles[i];
    let state = match t.object {
        Some(Object::Human { state, .. }) => state,
        None => return ,
    };
    let (next, start) = next_state(state, direction, now);
    let ghost old_tiles = context.tiles@;
    context.tiles[i] = Tile {
        position: t.position,
        id: t.id,
        rotation: t.rotation,
        object: Some(Object::Human { id: key, state: next }),
    };
    proof {
        assert forall|k: int| 0 <= k < context.tiles@.len() implies (
        #[trigger] context.tiles@[k]).position == old_tiles[k].position && crate::world::occupant(
            context.tiles@[k],
        ) == crate::world::occupant(old_tiles[k]) by {}
        lemma_same_places(old_tiles, context.tiles@, context.connections@);
    }
    if start {
        context.queue.push(Schedule::now(Job::Move { from: p, tick: TICK_MS }, now));
    }
}

/// A ping from `key`: the same timestamp goes back to it in a pong.
pub fn handle_ping(timestamp: i64, key: Identity, context: &World) -> (r: Vec<Delivery>)
    ensures
        !registered(context.connections@, key) ==> r@.len() == 0,
        registered(context.connections@, key) ==> deliveries(r@) == seq![
            (key, outgoing_bytes(Outgoing::Pong { timestamp })),
        ],
{
    let mut out: Vec<Delivery> = Vec::new();
    if context.is_connected(&key) {
        let body = Outgoing::Pong { timestamp }.serialize();
        out.push(Delivery { to: key, body });
        assert(deliveries(out@) =~= seq![(key, outgoing_bytes(Outgoing::Pong { timestamp }))]);
    }
    out
}

/// Debounce: a settled entity whose last transition was at `t` ignores a
/// start requested before `t + DEBOUNCE_MS`, and from then on starts in the
/// requested direction with the request's time as its last transition.
pub proof fn lemma_debounce(t: u64, d: u8, now: u64)
    requires
        d != 0,
    ensures
        (now as int) < t as int + DEBOUNCE_MS as int ==> request_spec(
            HumanState::Idle { updated_at: Some(t) },
            d,
            now,
        ) == (HumanState::Idle { updated_at: Some(t) }, false),
        (now as int) >= t as int + DEBOUNCE_MS as int ==> request_spec(
            HumanState::Idle { updated_at: Some(t) },
            d,
            now,
        ) == (HumanState::Move { direction: d, updated_at: Some(now) }, true),
{
}

/// A turn while moving: an entity moving in any direction that is asked to
/// move in direction `d` takes `d` at once, keeps its last-transition time,
/// and no step is added to the queue, so the step in flight stays the only
/// one.
pub proof fn lemma_turn(pre: World, post: World, key: Identity, d: u8, now: u64)
    requires
        pre.wf(),
        d != 0,
        registered(pre.connections@, key),
        state_of(
            pre.tiles@[tile_index(
                pre.tiles@,
                pre.connections@[conn_index(pre.connections@, key)].position,
            )],
        ) matches Some(HumanState::Move { .. }),
        requested(pre, post, key, d, now),
    ensures
        post.queue@ == pre.queue@,
        post.connections@ == pre.connections@,
        ({
            let i = tile_index(
                pre.tiles@,
                pre.connections@[conn_index(pre.connections@, key)].position,
            );
            state_of(post.tiles@[i]) == Some(
                HumanState::Move {
                    direction: d,
                    updated_at: updated_at_of(state_of(pre.tiles@[i])->0),
                },
            )
        }),
{
    let j = conn_index(pre.connections@, key);
    let i = tile_index(pre.tiles@, pre.connections@[j].position);
    assert(pre.connections@[j].id == key);
    assert(on_grid(pre.tiles@, pre.connections@[j].position));
}

} // verus!
