use mmorpg::codec::{Identity, Incoming, Outgoing};
use mmorpg::incoming_handler::{next_state, DEBOUNCE_MS, TICK_MS};
use mmorpg::job::{Job, JobQueue, Received, Schedule};
use mmorpg::job_handler::{handle, handle_drop, handle_move, handle_read, handle_welcome, WelcomeError};
use mmorpg::math::Vector3;
use mmorpg::world::{Delivery, HumanState, Object, Selection, Tile, World};

const A: Identity = [0xA; 16];
const B: Identity = [0xB; 16];
const C: Identity = [0xC; 16];
const D: Identity = [0xD; 16];

/// A flat grid of `w` by `h` tiles at y = 0, row by row along z.
fn grid(w: i32, h: i32) -> World {
    let mut tiles = Vec::new();
    for z in 0..h {
        for x in 0..w {
            tiles.push(Tile { position: Vector3::new(x, 0, z), id: 1, rotation: 0, object: None });
        }
    }
    World::new(tiles)
}

fn tile_at(w: &World, p: Vector3) -> &Tile {
    w.tiles.iter().find(|t| t.position == p).unwrap()
}

fn state_at(w: &World, p: Vector3) -> HumanState {
    match tile_at(w, p).object {
        Some(Object::Human { state, .. }) => state,
        None => panic!("no entity at {:?}", p),
    }
}

fn position_of(w: &World, id: Identity) -> Vector3 {
    w.connections.iter().find(|c| c.id == id).unwrap().position
}

fn to(ds: &[Delivery]) -> Vec<Identity> {
    ds.iter().map(|d| d.to).collect()
}

fn frame_of(m: Incoming) -> Received {
    Received::Frame(m.serialize())
}

#[test]
fn first_peer_gets_roster_of_itself() {
    let mut w = grid(3, 3);
    let out = handle_welcome(A, &mut w).unwrap();
    assert_eq!(out.len(), 1);
    assert_eq!(out[0].to, A);
    assert_eq!(out[0].body, Outgoing::Introduce { users: vec![(A, 0, 0, 0)] }.serialize());
    assert_eq!(w.connections.len(), 1);
    assert_eq!(position_of(&w, A), Vector3::new(0, 0, 0));
    assert_eq!(state_at(&w, Vector3::zero()), HumanState::Idle { updated_at: None });
}

#[test]
fn hello_flow_places_on_first_free_tile() {
    let mut w = grid(3, 3);
    handle_welcome(A, &mut w).unwrap();
    handle_welcome(B, &mut w).unwrap();
    let out = handle_welcome(C, &mut w).unwrap();
    assert_eq!(position_of(&w, C), Vector3::new(2, 0, 0));
    assert_eq!(to(&out), vec![A, B, C]);
    let connect = Outgoing::Connect { id: C, x: 2, y: 0, z: 0 }.serialize();
    assert_eq!(out[0].body, connect);
    assert_eq!(out[1].body, connect);
    let roster = Outgoing::Introduce { users: vec![(C, 2, 0, 0), (A, 0, 0, 0), (B, 1, 0, 0)] }.serialize();
    assert_eq!(out[2].body, roster);
}

#[test]
fn welcome_refuses_registered_identity() {
    let mut w = grid(2, 1);
    handle_welcome(A, &mut w).unwrap();
    assert!(matches!(handle_welcome(A, &mut w), Err(WelcomeError::AlreadyConnected)));
    assert_eq!(w.connections.len(), 1);
    assert!(tile_at(&w, Vector3::new(1, 0, 0)).object.is_none());
}

#[test]
fn welcome_refuses_when_full() {
    let mut w = grid(1, 1);
    handle_welcome(A, &mut w).unwrap();
    assert!(matches!(handle_welcome(B, &mut w), Err(WelcomeError::NoFreeTile)));
    assert_eq!(w.connections.len(), 1);
    assert!(!w.is_connected(&B));
}

#[test]
fn ping_is_answered_unchanged() {
    let mut w = grid(2, 2);
    handle_welcome(A, &mut w).unwrap();
    handle_welcome(B, &mut w).unwrap();
    let out = handle_read(A, frame_of(Incoming::Ping { timestamp: 123456 }), &mut w, 10);
    assert_eq!(out.len(), 1);
    assert_eq!(out[0].to, A);
    assert_eq!(out[0].body, Outgoing::Pong { timestamp: 123456 }.serialize());
    assert_eq!(out[0].body, vec![1, 0, 0x40, 0xE2, 0x01, 0, 0, 0, 0, 0]);
    assert!(w.queue.is_empty());
}

#[test]
fn read_from_unknown_peer_does_nothing() {
    let mut w = grid(2, 2);
    handle_welcome(A, &mut w).unwrap();
    let out = handle_read(B, Received::Failed, &mut w, 5);
    assert!(out.is_empty());
    assert!(w.queue.is_empty());
}

#[test]
fn failed_read_schedules_drop() {
    let mut w = grid(2, 2);
    handle_welcome(A, &mut w).unwrap();
    let out = handle_read(A, Received::Failed, &mut w, 5);
    assert!(out.is_empty());
    assert!(w.is_connected(&A));
    assert_eq!(w.queue.peek_deadline(), Some(5));
    assert!(matches!(w.take_due(), Some(Job::Drop(id)) if id == A));
}

#[test]
fn would_block_changes_nothing() {
    let mut w = grid(2, 2);
    handle_welcome(A, &mut w).unwrap();
    let out = handle_read(A, Received::WouldBlock, &mut w, 5);
    assert!(out.is_empty());
    assert!(w.queue.is_empty());
}

#[test]
fn malformed_frame_schedules_drop() {
    let mut w = grid(2, 2);
    handle_welcome(A, &mut w).unwrap();
    let out = handle_read(A, Received::Frame(vec![3, 0, 9]), &mut w, 7);
    assert!(out.is_empty());
    assert!(matches!(w.take_due(), Some(Job::Drop(id)) if id == A));
}

#[test]
fn greeting_after_welcome_is_ignored() {
    let mut w = grid(2, 2);
    handle_welcome(A, &mut w).unwrap();
    let out = handle_read(A, frame_of(Incoming::Hello { token: "x".to_string() }), &mut w, 7);
    assert!(out.is_empty());
    assert!(w.queue.is_empty());
}

#[test]
fn debounce_rule() {
    let idle = HumanState::Idle { updated_at: Some(1000) };
    assert_eq!(next_state(idle, 1, 1000), (idle, false));
    assert_eq!(next_state(idle, 1, 1000 + DEBOUNCE_MS - 1), (idle, false));
    assert_eq!(
        next_state(idle, 1, 1000 + DEBOUNCE_MS),
        (HumanState::Move { direction: 1, updated_at: Some(1300) }, true)
    );
    let fresh = HumanState::Idle { updated_at: None };
    assert_eq!(next_state(fresh, 4, 0), (HumanState::Move { direction: 4, updated_at: Some(0) }, true));
}

#[test]
fn stop_keeps_transition_time() {
    let moving = HumanState::Move { direction: 3, updated_at: Some(42) };
    assert_eq!(next_state(moving, 0, 500), (HumanState::Idle { updated_at: Some(42) }, false));
}

#[test]
fn debounce_in_world() {
    let mut w = grid(3, 3);
    handle_welcome(A, &mut w).unwrap();
    let origin = Vector3::zero();
    handle_read(A, frame_of(Incoming::Move { direction: 1 }), &mut w, 1000);
    assert_eq!(w.queue.len(), 1);
    handle_read(A, frame_of(Incoming::Move { direction: 0 }), &mut w, 1100);
    assert_eq!(state_at(&w, origin), HumanState::Idle { updated_at: Some(1000) });
    handle_read(A, frame_of(Incoming::Move { direction: 4 }), &mut w, 1299);
    assert_eq!(state_at(&w, origin), HumanState::Idle { updated_at: Some(1000) });
    assert_eq!(w.queue.len(), 1);
    handle_read(A, frame_of(Incoming::Move { direction: 4 }), &mut w, 1300);
    assert_eq!(state_at(&w, origin), HumanState::Move { direction: 4, updated_at: Some(1300) });
    assert_eq!(w.queue.len(), 2);
}

#[test]
fn direction_change_while_moving() {
    let mut w = grid(3, 3);
    handle_welcome(A, &mut w).unwrap();
    handle_read(A, frame_of(Incoming::Move { direction: 1 }), &mut w, 50);
    assert_eq!(w.queue.len(), 1);
    handle_read(A, frame_of(Incoming::Move { direction: 2 }), &mut w, 60);
    assert_eq!(state_at(&w, Vector3::zero()), HumanState::Move { direction: 2, updated_at: Some(50) });
    assert_eq!(w.queue.len(), 1);
    handle_read(A, frame_of(Incoming::Move { direction: 2 }), &mut w, 70);
    assert_eq!(state_at(&w, Vector3::zero()), HumanState::Move { direction: 2, updated_at: Some(50) });
    assert_eq!(w.queue.len(), 1);
}

#[test]
fn step_moves_entity_and_reschedules() {
    let mut w = grid(3, 3);
    handle_welcome(A, &mut w).unwrap();
    handle_welcome(B, &mut w).unwrap();
    handle_read(A, frame_of(Incoming::Move { direction: 1 }), &mut w, 100);
    let job = w.take_due().unwrap();
    assert!(matches!(job, Job::Move { from, tick } if from == Vector3::zero() && tick == TICK_MS));
    let out = handle(&mut w, job, 100).unwrap();
    let dest = Vector3::new(0, 0, 1);
    assert_eq!(position_of(&w, A), dest);
    assert!(tile_at(&w, Vector3::zero()).object.is_none());
    assert_eq!(state_at(&w, dest), HumanState::Move { direction: 1, updated_at: Some(100) });
    assert_eq!(to(&out), vec![A, B]);
    let body = Outgoing::Move { id: A, x: 0, y: 0, z: 1, tick: 300 }.serialize();
    assert!(out.iter().all(|d| d.body == body));
    assert_eq!(w.queue.peek_deadline(), Some(400));
    assert!(matches!(w.take_due(), Some(Job::Move { from, .. }) if from == dest));
}

#[test]
fn collision_with_occupied_tile_settles() {
    let mut w = grid(2, 1);
    handle_welcome(A, &mut w).unwrap();
    handle_welcome(B, &mut w).unwrap();
    handle_read(A, frame_of(Incoming::Move { direction: 4 }), &mut w, 100);
    let job = w.take_due().unwrap();
    let out = handle(&mut w, job, 100).unwrap();
    assert_eq!(state_at(&w, Vector3::zero()), HumanState::Idle { updated_at: Some(100) });
    assert_eq!(position_of(&w, A), Vector3::zero());
    assert_eq!(to(&out), vec![A, B]);
    let arrive = Outgoing::Arrive { id: A, x: 0, y: 0, z: 0 }.serialize();
    assert!(out.iter().all(|d| d.body == arrive));
    assert!(w.queue.is_empty());
}

#[test]
fn collision_with_edge_settles() {
    let mut w = grid(2, 2);
    handle_welcome(A, &mut w).unwrap();
    handle_read(A, frame_of(Incoming::Move { direction: 3 }), &mut w, 10);
    let job = w.take_due().unwrap();
    let out = handle(&mut w, job, 10).unwrap();
    assert_eq!(out.len(), 1);
    assert_eq!(out[0].body, Outgoing::Arrive { id: A, x: 0, y: 0, z: 0 }.serialize());
    assert_eq!(state_at(&w, Vector3::zero()), HumanState::Idle { updated_at: Some(10) });
    assert!(w.queue.is_empty());
}

#[test]
fn stopped_entity_step_sends_arrive() {
    let mut w = grid(3, 3);
    handle_welcome(A, &mut w).unwrap();
    handle_read(A, frame_of(Incoming::Move { direction: 1 }), &mut w, 10);
    handle_read(A, frame_of(Incoming::Move { direction: 0 }), &mut w, 11);
    let job = w.take_due().unwrap();
    let out = handle(&mut w, job, 12).unwrap();
    assert_eq!(out.len(), 1);
    assert_eq!(out[0].body, Outgoing::Arrive { id: A, x: 0, y: 0, z: 0 }.serialize());
    assert!(w.queue.is_empty());
}

#[test]
fn step_on_empty_tile_does_nothing() {
    let mut w = grid(2, 2);
    handle_welcome(A, &mut w).unwrap();
    let out = handle_move(Vector3::new(1, 0, 1), 300, &mut w, 5);
    assert!(out.is_empty());
    let out = handle_move(Vector3::new(7, 0, 7), 300, &mut w, 5);
    assert!(out.is_empty());
    assert!(w.queue.is_empty());
}

#[test]
fn drop_absent_is_noop() {
    let mut w = grid(2, 2);
    handle_welcome(A, &mut w).unwrap();
    let out = handle_drop(B, &mut w);
    assert!(out.is_empty());
    assert_eq!(w.connections.len(), 1);
    assert!(tile_at(&w, Vector3::zero()).object.is_some());
}

#[test]
fn drop_present_removes_and_broadcasts() {
    let mut w = grid(2, 2);
    handle_welcome(A, &mut w).unwrap();
    handle_welcome(B, &mut w).unwrap();
    handle_welcome(C, &mut w).unwrap();
    let out = handle_drop(B, &mut w);
    assert!(!w.is_connected(&B));
    assert!(tile_at(&w, Vector3::new(1, 0, 0)).object.is_none());
    assert_eq!(to(&out), vec![A, C]);
    let body = Outgoing::Disconnect { id: B }.serialize();
    assert!(out.iter().all(|d| d.body == body));
    let again = handle_drop(B, &mut w);
    assert!(again.is_empty());
    assert_eq!(w.connections.len(), 2);
}

#[test]
fn freed_tile_is_reused() {
    let mut w = grid(2, 1);
    handle_welcome(A, &mut w).unwrap();
    handle_welcome(B, &mut w).unwrap();
    handle_drop(A, &mut w);
    handle_welcome(C, &mut w).unwrap();
    assert_eq!(position_of(&w, C), Vector3::zero());
}

#[test]
fn failed_write_defers_drop() {
    let mut w = grid(3, 3);
    handle_welcome(A, &mut w).unwrap();
    handle_welcome(B, &mut w).unwrap();
    handle_welcome(C, &mut w).unwrap();
    let out = handle_welcome(D, &mut w).unwrap();
    assert_eq!(to(&out), vec![A, B, C, D]);
    let connect = Outgoing::Connect { id: D, x: 0, y: 0, z: 1 }.serialize();
    for d in &out[..3] {
        assert_eq!(d.body, connect);
    }
    // The write to B fails: it is scheduled for a drop, not removed.
    w.schedule_drop(B, 20);
    assert!(w.is_connected(&B));
    assert_eq!(w.connections.len(), 4);
    assert_eq!(w.select(20), Selection::Due);
    let job = w.take_due().unwrap();
    assert!(matches!(job, Job::Drop(id) if id == B));
    let out = handle(&mut w, job, 20).unwrap();
    assert_eq!(to(&out), vec![A, C, D]);
    assert!(!w.is_connected(&B));
}

#[test]
fn select_follows_state() {
    let mut w = grid(2, 2);
    assert_eq!(w.select(0), Selection::Handoff);
    handle_welcome(A, &mut w).unwrap();
    assert_eq!(w.select(0), Selection::HandoffOrRead);
    handle_read(A, frame_of(Incoming::Move { direction: 1 }), &mut w, 10);
    assert_eq!(w.select(9), Selection::HandoffReadOrTimer { deadline: 10 });
    assert_eq!(w.select(10), Selection::Due);
}

#[test]
fn queue_orders_by_deadline_then_push_order() {
    let mut q = JobQueue::new();
    q.push(Schedule::new(Job::Drop(A), 30));
    q.push(Schedule::now(Job::Drop(B), 10));
    q.push(Schedule::new(Job::Drop(C), 30));
    q.push(Schedule::new(Job::Drop(D), 20));
    assert_eq!(q.len(), 4);
    assert_eq!(q.peek_deadline(), Some(10));
    let order: Vec<(Identity, u64)> = std::iter::from_fn(|| q.pop())
        .map(|s| match s.job {
            Job::Drop(id) => (id, s.deadline),
            _ => panic!("unexpected job"),
        })
        .collect();
    assert_eq!(order, vec![(B, 10), (D, 20), (A, 30), (C, 30)]);
    assert!(q.is_empty());
    assert!(q.pop().is_none());
}

#[test]
fn welcome_job_through_dispatch() {
    let mut w = grid(2, 2);
    let out = handle(&mut w, Job::Welcome(A), 0).unwrap();
    assert_eq!(to(&out), vec![A]);
    assert!(matches!(handle(&mut w, Job::Welcome(A), 0), Err(WelcomeError::AlreadyConnected)));
}
