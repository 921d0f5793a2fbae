//! Units of work and the deadline-ordered queue that holds deferred ones.
//!
//! Times are milliseconds on a monotonic clock. Entries leave the queue by
//! ascending deadline; entries with equal deadlines leave in the order in
//! which they were pushed.
use vstd::prelude::*;
use crate::codec::Identity;
use crate::math::Vector3;

verus! {

/// What one attempt to read a frame from a peer gave.
#[derive(Debug)]
pub enum Received {
    /// The body of a complete frame.
    Frame(Vec<u8>),
    /// Nothing was available yet; try again when the peer is readable.
    WouldBlock,
    /// The peer failed: an I/O error, a bad header or end of stream.
    Failed,
}

/// A unit of work.
#[derive(Debug)]
pub enum Job {
    /// Place a newly authenticated peer on the grid.
    Welcome(Identity),
    /// Remove a peer from the registry and the grid.
    Drop(Identity),
    /// Handle what was read from a peer.
    Read(Identity, Received),
    /// Take the next step of the entity standing on `from`; `tick` is the
    /// step's duration in milliseconds.
    Move { from: Vector3, tick: u32 },
}

/// A job with the time at which it is due.
#[derive(Debug)]
pub struct Schedule {
    pub job: Job,
    pub deadline: u64,
}

impl Schedule {
    pub fn new(job: Job, deadline: u64) -> (r: Schedule)
        ensures
            r == (Schedule { job, deadline }),
    {
        Schedule { job, deadline }
    }

    /// A job due at once.
    pub fn now(job: Job, now: u64) -> (r: Schedule)
        ensures
            r == (Schedule { job, deadline: now }),
    {
        Schedule { job, deadline: now }
    }
}

/// The deadlines never decrease along the sequence.
pub open spec fn sorted_by_deadline(s: Seq<Schedule>) -> bool {
    forall|i: int, j: int| 0 <= i < j < s.len() ==> s[i].deadline <= s[j].deadline
}

/// Where an entry due at `d` joins a sorted sequence: after every entry due
/// no later than `d`.
pub open spec fn slot_for(s: Seq<Schedule>, d: u64) -> int
    decreases s.len(),
{
    if s.len() == 0 {
        0
    } else if s.last().deadline <= d {
        s.len() as int
    } else {
        slot_for(s.drop_last(), d)
    }
}

/// Pending jobs, earliest deadline first.
pub struct JobQueue {
    entries: Vec<Schedule>,
}

impl View for JobQueue {
    type V = Seq<Schedule>;

    closed spec fn view(&self) -> Seq<Schedule> {
        self.entries@
    }
}

proof fn lemma_slot_for(s: Seq<Schedule>, d: u64)
    requires
        sorted_by_deadline(s),
    ensures
        0 <= slot_for(s, d) <= s.len(),
        forall|i: int| 0 <= i < slot_for(s, d) ==> s[i].deadline <= d,
        forall|i: int| slot_for(s, d) <= i < s.len() ==> s[i].deadline > d,
    decreases s.len(),
{
    if s.len() > 0 {
        if s.last().deadline > d {
            let t = s.drop_last();
            assert(sorted_by_deadline(t));
            lemma_slot_for(t, d);
            assert forall|i: int| slot_for(s, d) <= i < s.len() implies s[i].deadline > d by {
                if i < s.len() - 1 {
                    assert(s[i] == t[i]);
                }
            }
            assert forall|i: int| 0 <= i < slot_for(s, d) implies s[i].deadline <= d by {
                assert(s[i] == t[i]);
            }
        } else {
            assert forall|i: int| 0 <= i < slot_for(s, d) implies s[i].deadline <= d by {
                if i < s.len() - 1 {
                    assert(s[i].deadline <= s[s.len() - 1].deadline);
                }
            }
        }
    }
}

/// The front of a sorted queue is due no later than any other entry, so
/// jobs with earlier deadlines leave first.
pub proof fn lemma_front_is_earliest(s: Seq<Schedule>)
    requires
        sorted_by_deadline(s),
        s.len() > 0,
    ensures
        forall|i: int| 0 <= i < s.len() ==> s[0].deadline <= #[trigger] s[i].deadline,
{
    assert forall|i: int| 0 <= i < s.len() implies s[0].deadline <= #[trigger] s[i].deadline by {
        if i > 0 {
            assert(s[0].deadline <= s[i].deadline);
        }
    }
}

/// Equal deadlines leave in the order of pushing: a new entry joins behind
/// every entry already due at the same time.
pub proof fn lemma_fifo(s: Seq<Schedule>, i: int, d: u64)
    requires
        sorted_by_deadline(s),
        0 <= i < s.len(),
        s[i].deadline == d,
    ensures
        i < slot_for(s, d),
{
    lemma_slot_for(s, d);
}

impl JobQueue {
    pub open spec fn wf(&self) -> bool {
        sorted_by_deadline(self@)
    }

    pub fn new() -> (r: JobQueue)
        ensures
            r.wf(),
            r@ == Seq::<Schedule>::empty(),
    {
        JobQueue { entries: Vec::new() }
    }

    pub fn len(&self) -> (r: usize)
        ensures
            r == self@.len(),
    {
        self.entries.len()
    }

    pub fn is_empty(&self) -> (r: bool)
        ensures
            r == (self@.len() == 0),
    {
        self.entries.len() == 0
    }

    /// Adds an entry behind every entry due no later than it.
    pub fn push(&mut self, s: Schedule)
        requires
            old(self).wf(),
        ensures
            final(self).wf(),
            final(self)@ == old(self)@.insert(slot_for(old(self)@, s.deadline), s),
    {
        proof {
            lemma_slot_for(self@, s.deadline);
        }
        let mut k: usize = self.entries.len();
        while k > 0 && self.entries[k - 1].deadline > s.deadline
            invariant
                0 <= k <= self.entries@.len(),
                self.entries@ == old(self)@,
                sorted_by_deadline(self.entries@),
                0 <= slot_for(self@, s.deadline) <= self@.len(),
                forall|i: int| 0 <= i < slot_for(self@, s.deadline) ==> self@[i].deadline <= s.deadline,
                forall|i: int|
                    slot_for(self@, s.deadline) <= i < self@.len() ==> self@[i].deadline
                        > s.deadline,
                forall|i: int| k <= i < self@.len() ==> self@[i].deadline > s.deadline,
            decreases k,
        {
            k = k - 1;
        }
        proof {
            let slot = slot_for(self@, s.deadline);
            if slot > k {
                assert(self@[k as int].deadline > s.deadline);
            }
            if slot < k {
                assert(self@[k - 1].deadline > s.deadline);
            }
        }
        assert(k == slot_for(self@, s.deadline));
        let ghost d = s.deadline;
        self.entries.insert(k, s);
        assert forall|i: int, j: int| 0 <= i < j < self@.len() implies self@[i].deadline
            <= self@[j].deadline by {
            if i < k && j > k {
                assert(self@[i] == old(self)@[i]);
                assert(self@[j] == old(self)@[j - 1]);
            }
        }
    }

    /// The deadline of the earliest entry.
    pub fn peek_deadline(&self) -> (r: Option<u64>)
        ensures
            self@.len() == 0 ==> r is None,
            self@.len() > 0 ==> r == Some(self@[0].deadline),
    {
        if self.entries.len() == 0 {
            None
        } else {
            Some(self.entries[0].deadline)
        }
    }

    /// Takes out the earliest entry.
    pub fn pop(&mut self) -> (r: Option<Schedule>)
        requires
            old(self).wf(),
        ensures
            final(self).wf(),
            old(self)@.len() == 0 ==> r is None && final(self)@ == old(self)@,
            old(self)@.len() > 0 ==> r == Some(old(self)@[0]) && final(self)@ == old(
                self,
            )@.drop_first(),
    {
        if self.entries.len() == 0 {
            None
        } else {
            let s = self.entries.remove(0);
            assert(self@ =~= old(self)@.drop_first());
            Some(s)
        }
    }
}

} // verus!
