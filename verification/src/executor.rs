//! Cooperative task executor and result tracker: runs submitted units of
//! work to completion by repeated polling, allocates event ids, owns the
//! shared output buffer, and records where each completed event's result
//! lives.

use std::collections::hash_map::RandomState;
use vstd::prelude::*;

verus! {

/// Capacity of the executor's ready queue; submitting past it is a
/// recoverable "runtime busy" condition, never an abort.
pub const TASK_QUEUE_CAPACITY: usize = 10000;

/// Largest event id ever issued. Ids must stay within the non-negative range
/// of `i32` so that `-1` remains an unambiguous failure sentinel at the
/// dispatch boundary.
pub const MAX_EVENT_ID: u32 = 0x7fff_ffff;

/// Byte-range descriptor of one completed event's result in the shared
/// output buffer: created exactly once, when the event's unit of work
/// completes.
#[derive(Clone, Copy, Debug, PartialEq, Eq, Structural)]
pub struct Document {
    pub start: usize,
    pub length: usize,
}

#[verifier::external_type_specification]
#[verifier::external_body]
#[verifier::reject_recursive_types(K)]
#[verifier::reject_recursive_types(V)]
#[verifier::reject_recursive_types(S)]
pub struct ExIndexMap<K, V, S>(indexmap::IndexMap<K, V, S>);

/// The insertion-ordered map type the tracker records Documents in.
pub type DocumentMap = indexmap::IndexMap<u32, Document, RandomState>;

/// What the document map holds: each recorded event id with its document's
/// `(start, length)` byte range.
pub uninterp spec fn document_map_entries(m: DocumentMap) -> Map<u32, (usize, usize)>;

/// Holds exactly when a document map's entries are the empty map.
pub open spec fn document_map_is_empty(entries: Map<u32, (usize, usize)>) -> bool {
    entries == Map::<u32, (usize, usize)>::empty()
}

/// Relies on indexmap::IndexMap::new: the new map holds nothing.
#[verifier::external_body]
fn document_map_new() -> (m: DocumentMap)
    ensures
        document_map_is_empty(document_map_entries(m)),
{
    indexmap::IndexMap::new()
}

/// Relies on indexmap::IndexMap::insert: the pair is stored under the key
/// (replacing any pair with an equal key) and every other pair is untouched.
#[verifier::external_body]
fn document_map_insert(m: &mut DocumentMap, event_id: u32, d: Document)
    ensures
        document_map_entries(*final(m)) == document_map_entries(*old(m)).insert(
            event_id,
            (d.start, d.length),
        ),
{
    m.insert(event_id, d);
}

/// Relies on indexmap::IndexMap::get: returns the value stored under the
/// key, if one is present.
#[verifier::external_body]
fn document_map_get(m: &DocumentMap, event_id: u32) -> (r: Option<Document>)
    ensures
        match r {
            Some(d) => document_map_entries(*m).contains_key(event_id)
                && document_map_entries(*m)[event_id] == (d.start, d.length),
            None => !document_map_entries(*m).contains_key(event_id),
        },
{
    m.get(&event_id).copied()
}

/// Two byte ranges that share no position.
pub open spec fn ranges_disjoint(a: (usize, usize), b: (usize, usize)) -> bool {
    a.0 + a.1 <= b.0 || b.0 + b.1 <= a.0
}

/// Well-formedness of the tracker depends only on its documents, promises,
/// output bytes, and id bound, so it survives any step that keeps those
/// views (the counter may grow).
proof fn lemma_wf_preserved_by_same_views(a: ExecutorMemory, b: ExecutorMemory)
    requires
        a.wf(),
        b.documents() == a.documents(),
        b.promised() == a.promised(),
        b.output() == a.output(),
        a._next_id <= b._next_id,
    ensures
        b.wf(),
{
    assert forall|id: u32| #[trigger] b.documents().contains_key(id) implies {
        &&& b.promised().contains_key(id)
        &&& b.documents()[id].0 + b.documents()[id].1 <= b.output().len()
        &&& b.documents()[id].1 == b.promised()[id].len()
        &&& b.output().subrange(
            b.documents()[id].0 as int,
            b.documents()[id].0 + b.documents()[id].1,
        ) == b.promised()[id]
    } by {
        assert(a.documents().contains_key(id));
    }
    assert forall|id: u32| #[trigger] b.promised().contains_key(id) implies id < b._next_id by {
        assert(a.promised().contains_key(id));
    }
}

/// Result tracker: owns the monotonically increasing event-id counter, the
/// shared output buffer, and the mapping from completed event ids to their
/// Documents. The interval allocator appends each new result after every
/// byte already allocated, so live documents never overlap.
pub struct ExecutorMemory {
    _next_id: u32,
    document_map: DocumentMap,
    buffer: Vec<u8>,
    outcomes: Ghost<Map<u32, Seq<u8>>>,
}

impl ExecutorMemory {
    /// Each recorded event id with its document's byte range.
    pub closed spec fn documents(self) -> Map<u32, (usize, usize)> {
        document_map_entries(self.document_map)
    }

    /// The shared output buffer's bytes.
    pub closed spec fn output(self) -> Seq<u8> {
        self.buffer@
    }

    /// The next event id to be issued.
    pub closed spec fn next_id_spec(self) -> u32 {
        self._next_id
    }

    /// The bytes promised for each event id whose unit of work was spawned.
    pub closed spec fn promised(self) -> Map<u32, Seq<u8>> {
        self.outcomes@
    }

    /// Every document lies inside the output buffer, reads back exactly the
    /// bytes promised for its event, and overlaps no other document; ids are
    /// promised only after having been issued.
    pub closed spec fn wf(self) -> bool {
        &&& forall|id: u32| #![trigger self.documents().contains_key(id)]
            self.documents().contains_key(id) ==> {
                &&& self.promised().contains_key(id)
                &&& self.documents()[id].0 + self.documents()[id].1 <= self.output().len()
                &&& self.documents()[id].1 == self.promised()[id].len()
                &&& self.output().subrange(
                    self.documents()[id].0 as int,
                    self.documents()[id].0 + self.documents()[id].1,
                ) == self.promised()[id]
            }
        &&& forall|id1: u32, id2: u32|
            #![trigger self.documents().contains_key(id1), self.documents().contains_key(id2)]
            id1 != id2 && self.documents().contains_key(id1) && self.documents().contains_key(id2)
                ==> ranges_disjoint(self.documents()[id1], self.documents()[id2])
        &&& forall|id: u32| #![trigger self.promised().contains_key(id)]
            self.promised().contains_key(id) ==> id < self._next_id
    }

    pub fn new() -> (r: Self)
        ensures
            r.wf(),
            r.documents() == Map::<u32, (usize, usize)>::empty(),
            r.promised() == Map::<u32, Seq<u8>>::empty(),
            r.output() == Seq::<u8>::empty(),
            r.next_id_spec() == 0,
    {
        let r = ExecutorMemory {
            _next_id: 0,
            document_map: document_map_new(),
            buffer: Vec::new(),
            outcomes: Ghost(Map::<u32, Seq<u8>>::empty()),
        };
        proof {
            assert(r.buffer@ =~= Seq::<u8>::empty());
        }
        r
    }

    /// Issues the next unused event id; once the id space is exhausted this
    /// reports the condition instead of wrapping.
    pub fn next_id(&mut self) -> (r: Option<u32>)
        requires
            old(self).wf(),
        ensures
            final(self).wf(),
            final(self).documents() == old(self).documents(),
            final(self).promised() == old(self).promised(),
            final(self).output() == old(self).output(),
            old(self).next_id_spec() <= MAX_EVENT_ID ==> r == Some(old(self).next_id_spec())
                && final(self).next_id_spec() == old(self).next_id_spec() + 1,
            old(self).next_id_spec() > MAX_EVENT_ID ==> r == Option::<u32>::None
                && final(self).next_id_spec() == old(self).next_id_spec(),
    {
        if self._next_id <= MAX_EVENT_ID {
            let id = self._next_id;
            self._next_id = self._next_id + 1;
            proof {
                lemma_wf_preserved_by_same_views(*old(self), *self);
            }
            Some(id)
        } else {
            None
        }
    }

    /// Allocates a fresh byte range after everything already in the output
    /// buffer, writes the completed event's bytes there, and records the
    /// Document under its event id.
    pub fn write_vec_at(&mut self, vec: Vec<u8>, event_id: u32)
        requires
            old(self).wf(),
            !old(self).documents().contains_key(event_id),
            old(self).promised().contains_key(event_id),
            old(self).promised()[event_id] == vec@,
        ensures
            final(self).wf(),
            final(self).documents() == old(self).documents().insert(
                event_id,
                (old(self).output().len() as usize, vec@.len() as usize),
            ),
            final(self).output() == old(self).output() + vec@,
            final(self).promised() == old(self).promised(),
            final(self).next_id_spec() == old(self).next_id_spec(),
    {
        let start = self.buffer.len();
        let length = vec.len();
        let d = Document { start, length };
        let mut v = vec;
        self.buffer.append(&mut v);
        document_map_insert(&mut self.document_map, event_id, d);
        proof {
            let pre = *old(self);
            assert(self.output() =~= pre.output() + pre.promised()[event_id]);
            let promised_bytes = pre.promised()[event_id];
            assert(self.output().subrange(start as int, start + length) =~= promised_bytes);
            assert forall|id: u32| #[trigger]
                pre.documents().contains_key(id) implies self.output().subrange(
                pre.documents()[id].0 as int,
                pre.documents()[id].0 + pre.documents()[id].1,
            ) == pre.output().subrange(
                pre.documents()[id].0 as int,
                pre.documents()[id].0 + pre.documents()[id].1,
            ) by {
                assert(self.output().subrange(
                    pre.documents()[id].0 as int,
                    pre.documents()[id].0 + pre.documents()[id].1,
                ) =~= pre.output().subrange(
                    pre.documents()[id].0 as int,
                    pre.documents()[id].0 + pre.documents()[id].1,
                ));
            }
        }
    }

    /// True iff a Document exists for the event id.
    pub fn is_ready(&self, event_id: u32) -> (r: bool)
        ensures
            r == self.documents().contains_key(event_id),
    {
        document_map_get(&self.document_map, event_id).is_some()
    }

    /// The Document recorded for the event id, if its unit of work has
    /// completed.
    pub fn get_document(&self, event_id: u32) -> (r: Option<Document>)
        ensures
            match r {
                Some(d) => self.documents().contains_key(event_id) && self.documents()[event_id]
                    == (d.start, d.length),
                None => !self.documents().contains_key(event_id),
            },
    {
        document_map_get(&self.document_map, event_id)
    }

    /// Total size of the shared output buffer.
    pub fn output_len(&self) -> (r: usize)
        ensures
            r == self.output().len(),
    {
        self.buffer.len()
    }

    /// Copies a byte range out of the shared output buffer; this is the read
    /// the guest performs with a document's start and length.
    pub fn read_output(&self, start: usize, length: usize) -> (r: Vec<u8>)
        requires
            start + length <= self.output().len(),
        ensures
            r@ == self.output().subrange(start as int, start + length),
    {
        let total = self.buffer.len();
        let mut r: Vec<u8> = Vec::new();
        let mut j: usize = 0;
        while j < length
            invariant
                start + length <= total,
                total == self.output().len(),
                j <= length,
                r@.len() == j,
                forall|k: int| 0 <= k < j ==> r@[k] == self.output()[start + k],
            decreases length - j,
        {
            let b = self.buffer[start + j];
            r.push(b);
            j = j + 1;
        }
        proof {
            assert(r@ =~= self.output().subrange(start as int, start + length));
        }
        r
    }
}

/// One step's outcome of polling a unit of work.
pub enum TaskPoll {
    Ready(Vec<u8>),
    Pending(UnitOfWork),
}

/// A suspended computation producing a byte sequence: it reports Pending a
/// known number of times before resolving. It stands for the future-like
/// object a capability handler submits; suspension happens only where the
/// unit of work itself chooses to report Pending.
pub struct UnitOfWork {
    pub remaining_polls: u32,
    pub output: Vec<u8>,
}

impl UnitOfWork {
    /// Polls the computation once: it either resolves to its output bytes or
    /// parks itself with one fewer suspension left.
    pub fn poll_once(self) -> (r: TaskPoll)
        ensures
            match r {
                TaskPoll::Ready(out) => self.remaining_polls == 0 && out@ == self.output@,
                TaskPoll::Pending(w) => self.remaining_polls > 0 && w.remaining_polls
                    == self.remaining_polls - 1 && w.output@ == self.output@,
            },
    {
        if self.remaining_polls == 0 {
            TaskPoll::Ready(self.output)
        } else {
            TaskPoll::Pending(
                UnitOfWork { remaining_polls: self.remaining_polls - 1, output: self.output },
            )
        }
    }
}

/// A queued unit of work together with the event id its result will be
/// recorded under; dropped as soon as it resolves to Ready.
pub struct Task {
    pub event_id: u32,
    pub work: UnitOfWork,
}

/// Cooperative, single-consumer scheduler: runs submitted units of work to
/// completion via repeated polling and re-queuing, and hands completed
/// results to the tracker it owns.
pub struct Executor {
    ready_queue: Vec<Task>,
    memory: ExecutorMemory,
}

impl Executor {
    /// The tasks waiting to be polled, in order.
    pub closed spec fn queue(self) -> Seq<Task> {
        self.ready_queue@
    }

    /// Each recorded event id with its document's byte range.
    pub closed spec fn documents(self) -> Map<u32, (usize, usize)> {
        self.memory.documents()
    }

    /// The bytes promised for each event id whose unit of work was spawned.
    pub closed spec fn promised(self) -> Map<u32, Seq<u8>> {
        self.memory.promised()
    }

    /// The shared output buffer's bytes.
    pub closed spec fn output(self) -> Seq<u8> {
        self.memory.output()
    }

    /// The next event id to be issued.
    pub closed spec fn next_id_spec(self) -> u32 {
        self.memory.next_id_spec()
    }

    /// Whether some task in `q` carries the event id.
    pub open spec fn queue_has(q: Seq<Task>, id: u32) -> bool {
        exists|i: int| #![trigger q[i]] 0 <= i < q.len() && q[i].event_id == id
    }

    /// Total number of polls the queued tasks still need before the queue
    /// drains: each task is polled once more than it reports Pending.
    pub open spec fn queue_fuel(q: Seq<Task>) -> int
        decreases q.len(),
    {
        if q.len() == 0 {
            0
        } else {
            Self::queue_fuel(q.skip(1)) + q[0].work.remaining_polls + 1
        }
    }

    proof fn lemma_queue_fuel_nonneg(q: Seq<Task>)
        ensures
            Self::queue_fuel(q) >= 0,
        decreases q.len(),
    {
        if q.len() > 0 {
            Self::lemma_queue_fuel_nonneg(q.skip(1));
        }
    }

    proof fn lemma_queue_fuel_push(q: Seq<Task>, t: Task)
        ensures
            Self::queue_fuel(q.push(t)) == Self::queue_fuel(q) + t.work.remaining_polls + 1,
        decreases q.len(),
    {
        if q.len() == 0 {
            assert(q.push(t).skip(1) =~= Seq::<Task>::empty());
            assert(q.push(t)[0] == t);
            assert(Self::queue_fuel(q.push(t)) == Self::queue_fuel(q.push(t).skip(1))
                + t.work.remaining_polls + 1);
            assert(Self::queue_fuel(Seq::<Task>::empty()) == 0);
        } else {
            assert(q.push(t).skip(1) =~= q.skip(1).push(t));
            Self::lemma_queue_fuel_push(q.skip(1), t);
            assert(q.push(t)[0] == q[0]);
            assert(Self::queue_fuel(q.push(t)) == Self::queue_fuel(q.push(t).skip(1))
                + q[0].work.remaining_polls + 1);
            assert(Self::queue_fuel(q) == Self::queue_fuel(q.skip(1)) + q[0].work.remaining_polls
                + 1);
        }
    }

    /// The tracker is well formed, queued event ids are pairwise distinct,
    /// and every queued task is still incomplete, with its output bytes
    /// promised under its event id.
    pub closed spec fn wf(self) -> bool {
        &&& self.memory.wf()
        &&& forall|i: int, j: int| #![trigger self.queue()[i], self.queue()[j]]
            0 <= i < j < self.queue().len() ==> self.queue()[i].event_id
                != self.queue()[j].event_id
        &&& forall|i: int| #![trigger self.queue()[i]]
            0 <= i < self.queue().len() ==> {
                &&& !self.documents().contains_key(self.queue()[i].event_id)
                &&& self.promised().contains_key(self.queue()[i].event_id)
                &&& self.promised()[self.queue()[i].event_id] == self.queue()[i].work.output@
            }
    }

    /// The executor's well-formedness depends only on its task queue and its
    /// tracker's views, so it survives any step that keeps them.
    proof fn lemma_wf_same_views(a: Executor, b: Executor)
        requires
            a.wf(),
            b.memory.wf(),
            b.queue() == a.queue(),
            b.documents() == a.documents(),
            b.promised() == a.promised(),
        ensures
            b.wf(),
    {
        assert forall|i: int| 0 <= i < b.queue().len() implies {
            &&& !b.documents().contains_key((#[trigger] b.queue()[i]).event_id)
            &&& b.promised().contains_key(b.queue()[i].event_id)
            &&& b.promised()[b.queue()[i].event_id] == b.queue()[i].work.output@
        } by {
            assert(a.queue()[i] == b.queue()[i]);
        }
        assert forall|i: int, j: int|
            0 <= i < j < b.queue().len() implies (#[trigger] b.queue()[i]).event_id != (
        #[trigger] b.queue()[j]).event_id by {
            assert(a.queue()[i] == b.queue()[i]);
            assert(a.queue()[j] == b.queue()[j]);
        }
    }

    pub fn new() -> (r: Self)
        ensures
            r.wf(),
            r.queue().len() == 0,
            r.documents() == Map::<u32, (usize, usize)>::empty(),
            r.promised() == Map::<u32, Seq<u8>>::empty(),
            r.output() == Seq::<u8>::empty(),
            r.next_id_spec() == 0,
    {
        Executor { ready_queue: Vec::new(), memory: ExecutorMemory::new() }
    }

    /// Whether the ready queue can take one more task.
    pub fn has_capacity(&self) -> (r: bool)
        ensures
            r == (self.queue().len() < TASK_QUEUE_CAPACITY),
    {
        self.ready_queue.len() < TASK_QUEUE_CAPACITY
    }

    /// Issues the next unused event id, or reports that the id space is
    /// exhausted.
    pub fn next_event_id(&mut self) -> (r: Option<u32>)
        requires
            old(self).wf(),
        ensures
            final(self).wf(),
            final(self).queue() == old(self).queue(),
            final(self).documents() == old(self).documents(),
            final(self).promised() == old(self).promised(),
            final(self).output() == old(self).output(),
            old(self).next_id_spec() <= MAX_EVENT_ID ==> r == Some(old(self).next_id_spec())
                && final(self).next_id_spec() == old(self).next_id_spec() + 1
                && !final(self).promised().contains_key(old(self).next_id_spec()),
            old(self).next_id_spec() > MAX_EVENT_ID ==> r == Option::<u32>::None
                && final(self).next_id_spec() == old(self).next_id_spec(),
    {
        let r = self.memory.next_id();
        proof {
            Self::lemma_wf_same_views(*old(self), *self);
        }
        r
    }

    /// Enqueues a unit of work under a freshly issued event id. A full queue
    /// is a recoverable busy condition reported to the caller, never an
    /// abort.
    pub fn spawn_with_event_id(&mut self, work: UnitOfWork, event_id: u32) -> (r: Result<
        (),
        SpawnError,
    >)
        requires
            old(self).wf(),
            !old(self).promised().contains_key(event_id),
            event_id < old(self).next_id_spec(),
        ensures
            final(self).wf(),
            final(self).documents() == old(self).documents(),
            final(self).output() == old(self).output(),
            final(self).next_id_spec() == old(self).next_id_spec(),
            old(self).queue().len() < TASK_QUEUE_CAPACITY ==> {
                &&& r == Result::<(), SpawnError>::Ok(())
                &&& final(self).queue() == old(self).queue().push((Task { event_id, work }))
                &&& final(self).promised() == old(self).promised().insert(event_id, work.output@)
            },
            old(self).queue().len() >= TASK_QUEUE_CAPACITY ==> {
                &&& r == Result::<(), SpawnError>::Err(SpawnError::QueueOverflow)
                &&& final(self).queue() == old(self).queue()
                &&& final(self).promised() == old(self).promised()
            },
    {
        if self.ready_queue.len() < TASK_QUEUE_CAPACITY {
            proof {
                if self.documents().contains_key(event_id) {
                    assert(self.promised().contains_key(event_id));
                }
            }
            self.memory.outcomes = Ghost(self.memory.outcomes@.insert(event_id, work.output@));
            self.ready_queue.push(Task { event_id, work });
            Ok(())
        } else {
            Err(SpawnError::QueueOverflow)
        }
    }

    /// Drains the ready queue: each task is polled; a Pending task is parked
    /// back at the end of the queue, a Ready task is dropped after its bytes
    /// are written to the output buffer and its Document recorded. Returns
    /// only once every submitted unit of work has completed exactly once.
    pub fn run(&mut self)
        requires
            old(self).wf(),
        ensures
            final(self).wf(),
            final(self).queue().len() == 0,
            final(self).promised() == old(self).promised(),
            final(self).next_id_spec() == old(self).next_id_spec(),
            forall|id: u32| #![trigger old(self).documents().contains_key(id)]
                old(self).documents().contains_key(id) ==> final(self).documents().contains_key(id)
                    && final(self).documents()[id] == old(self).documents()[id],
            forall|id: u32| #![trigger Self::queue_has(old(self).queue(), id)]
                Self::queue_has(old(self).queue(), id) ==> final(self).documents().contains_key(
                    id,
                ),
            forall|id: u32| #![trigger final(self).documents().contains_key(id)]
                final(self).documents().contains_key(id) ==> old(self).documents().contains_key(id)
                    || Self::queue_has(old(self).queue(), id),
    {
        while self.ready_queue.len() > 0
            invariant
                self.wf(),
                self.promised() == old(self).promised(),
                self.next_id_spec() == old(self).next_id_spec(),
                forall|id: u32| #![trigger old(self).documents().contains_key(id)]
                    old(self).documents().contains_key(id) ==> self.documents().contains_key(id)
                        && self.documents()[id] == old(self).documents()[id],
                forall|id: u32| #![trigger Self::queue_has(old(self).queue(), id)]
                    Self::queue_has(old(self).queue(), id) ==> self.documents().contains_key(id)
                        || Self::queue_has(self.queue(), id),
                forall|id: u32| #![trigger self.documents().contains_key(id)]
                    self.documents().contains_key(id) ==> old(self).documents().contains_key(id)
                        || Self::queue_has(old(self).queue(), id),
                forall|id: u32| #![trigger Self::queue_has(self.queue(), id)]
                    Self::queue_has(self.queue(), id) ==> Self::queue_has(old(self).queue(), id),
            decreases Self::queue_fuel(self.queue()),
        {
            let ghost qk = self.queue();
            let ghost dk = self.documents();
            let task = self.ready_queue.remove(0);
            proof {
                assert(qk[0] == task);
                assert(self.queue() =~= qk.skip(1));
                Self::lemma_queue_fuel_nonneg(self.queue());
            }
            let tid = task.event_id;
            match task.work.poll_once() {
                TaskPoll::Ready(bytes) => {
                    self.memory.write_vec_at(bytes, tid);
                },
                TaskPoll::Pending(w) => {
                    proof {
                        Self::lemma_queue_fuel_push(
                            qk.skip(1),
                            (Task { event_id: tid, work: w }),
                        );
                    }
                    self.ready_queue.push(Task { event_id: tid, work: w });
                },
            }
            proof {
                assert(qk[0].event_id == tid);
                assert(Self::queue_has(qk, tid));
                assert(Self::queue_has(old(self).queue(), tid));
                assert forall|id: u32| #[trigger]
                    self.documents().contains_key(id) implies old(self).documents().contains_key(id)
                    || Self::queue_has(old(self).queue(), id) by {
                    if id != tid {
                        assert(dk.contains_key(id));
                    }
                }
                assert forall|id: u32| Self::queue_has(qk, id) implies self.documents().contains_key(
                    id,
                ) || Self::queue_has(self.queue(), id) by {
                    let i = choose|i: int| 0 <= i < qk.len() && qk[i].event_id == id;
                    if !self.documents().contains_key(id) {
                        if i == 0 {
                            assert(self.queue()[self.queue().len() - 1].event_id == id);
                        } else {
                            assert(self.queue()[i - 1].event_id == id);
                        }
                    }
                }
                assert forall|id: u32| #[trigger]
                    Self::queue_has(self.queue(), id) implies Self::queue_has(qk, id) by {
                    let i = choose|i: int|
                        0 <= i < self.queue().len() && self.queue()[i].event_id == id;
                    if i < qk.len() - 1 {
                        assert(qk[i + 1].event_id == id);
                    } else {
                        assert(qk[0].event_id == id);
                    }
                }
            }
        }
    }

    /// True iff a Document exists for the event id; never blocks, and an
    /// unknown id simply reads as not ready.
    pub fn is_event_ready(&self, event_id: u32) -> (r: bool)
        ensures
            r == self.documents().contains_key(event_id),
    {
        self.memory.is_ready(event_id)
    }

    /// The Document recorded for the event id, if its unit of work has
    /// completed.
    pub fn get_event_memory_document(&self, event_id: u32) -> (r: Option<Document>)
        ensures
            match r {
                Some(d) => self.documents().contains_key(event_id) && self.documents()[event_id]
                    == (d.start, d.length),
                None => !self.documents().contains_key(event_id),
            },
    {
        self.memory.get_document(event_id)
    }

    /// Copies a byte range out of the shared output buffer; this is the read
    /// the guest performs with a document's start and length.
    pub fn read_output(&self, start: usize, length: usize) -> (r: Vec<u8>)
        requires
            start + length <= self.output().len(),
        ensures
            r@ == self.output().subrange(start as int, start + length),
    {
        self.memory.read_output(start, length)
    }

    /// Total size of the shared output buffer.
    pub fn output_len(&self) -> (r: usize)
        ensures
            r == self.output().len(),
    {
        self.memory.output_len()
    }
}

/// The recoverable condition reported when the ready queue is at capacity.
#[derive(Clone, Copy, Debug, PartialEq, Eq, Structural)]
pub enum SpawnError {
    QueueOverflow,
}

/// An event id that was never issued to a spawned unit of work can never
/// read as ready: no document exists for it.
pub proof fn lemma_unspawned_never_ready(e: Executor, id: u32)
    requires
        e.wf(),
        !e.promised().contains_key(id),
    ensures
        !e.documents().contains_key(id),
{
    if e.documents().contains_key(id) {
        assert(e.promised().contains_key(id));
    }
}

/// The documents of two distinct events never overlap, regardless of the
/// order in which their units of work completed.
pub proof fn lemma_documents_disjoint(e: Executor, id1: u32, id2: u32)
    requires
        e.wf(),
        id1 != id2,
        e.documents().contains_key(id1),
        e.documents().contains_key(id2),
    ensures
        ranges_disjoint(e.documents()[id1], e.documents()[id2]),
{
}

/// A recorded document lies inside the output buffer and reads back exactly
/// the bytes its unit of work produced.
pub proof fn lemma_document_content(e: Executor, id: u32)
    requires
        e.wf(),
        e.documents().contains_key(id),
    ensures
        e.documents()[id].0 + e.documents()[id].1 <= e.output().len(),
        e.promised().contains_key(id),
        e.documents()[id].1 == e.promised()[id].len(),
        e.output().subrange(
            e.documents()[id].0 as int,
            e.documents()[id].0 + e.documents()[id].1,
        ) == e.promised()[id],
{
}

} // verus!
