//! Capability registry and guest-facing dispatch layer: boot-time
//! registration of capability coordinates, exact three-part coordinate
//! resolution, and the boundary operations a guest drives synchronously
//! (invoke, poll, result pointer and length, guest-memory reads).

use crate::executor::{
    lemma_unspawned_never_ready, Executor, UnitOfWork, MAX_EVENT_ID, TASK_QUEUE_CAPACITY,
};
use vstd::prelude::*;

verus! {

/// The byte separating coordinate components: `.`
pub const COORDINATE_SEPARATOR: u8 = 46;

/// A capability handler, modelled by what it does once invoked: its unit of
/// work reports Pending `latency` times and then produces `response`.
/// Concrete IO modules are plugins outside this runtime core.
pub struct Handler {
    pub latency: u32,
    pub response: Vec<u8>,
}

/// One registered capability coordinate with its handler.
pub struct RegistryEntry {
    pub org: Vec<u8>,
    pub namespace: Vec<u8>,
    pub name: Vec<u8>,
    pub handler: Handler,
}

/// Why a boot-time registration was rejected.
#[derive(Clone, Copy, Debug, PartialEq, Eq, Structural)]
pub enum RegisterError {
    InvalidCoordinate,
    AlreadyRegistered,
}

/// An ASCII identifier usable as one coordinate component: nonempty, ASCII,
/// and free of the separator.
pub open spec fn valid_component(s: Seq<u8>) -> bool {
    s.len() > 0 && forall|i: int| 0 <= i < s.len() ==> (#[trigger] s[i]) < 128 && s[i] != 46
}

/// Whether an entry carries exactly this coordinate.
pub open spec fn entry_matches(
    e: RegistryEntry,
    org: Seq<u8>,
    namespace: Seq<u8>,
    name: Seq<u8>,
) -> bool {
    e.org@ == org && e.namespace@ == namespace && e.name@ == name
}

/// Implemented by IO-module plugins: called once at boot so the module can
/// register its capability coordinates into the registry.
pub trait IoModule {
    fn register(registry: &mut ModuleRegistry);
}

/// Boot-time, read-mostly table mapping a three-part capability coordinate
/// to its handler. Each coordinate is registered exactly once; lookups are
/// exact string matches. Nothing mutates it after boot but `register`, which
/// the owning context does not expose.
pub struct ModuleRegistry {
    entries: Vec<RegistryEntry>,
}

impl ModuleRegistry {
    /// All registered entries, in registration order.
    pub closed spec fn entries_spec(self) -> Seq<RegistryEntry> {
        self.entries@
    }

    /// Whether this exact coordinate has been registered.
    pub open spec fn registered(self, org: Seq<u8>, namespace: Seq<u8>, name: Seq<u8>) -> bool {
        exists|i: int| #![trigger self.entries_spec()[i]]
            0 <= i < self.entries_spec().len() && entry_matches(
                self.entries_spec()[i],
                org,
                namespace,
                name,
            )
    }

    /// The handler registered under this coordinate; well defined because
    /// coordinates are registered at most once.
    pub open spec fn handler_of(self, org: Seq<u8>, namespace: Seq<u8>, name: Seq<u8>) -> Handler {
        let i = choose|i: int|
            0 <= i < self.entries_spec().len() && entry_matches(
                self.entries_spec()[i],
                org,
                namespace,
                name,
            );
        self.entries_spec()[i].handler
    }

    /// Coordinates are pairwise distinct and every component is a valid
    /// ASCII identifier.
    pub open spec fn wf(self) -> bool {
        &&& forall|i: int, j: int| #![trigger self.entries_spec()[i], self.entries_spec()[j]]
            0 <= i < j < self.entries_spec().len() ==> !(self.entries_spec()[i].org@
                == self.entries_spec()[j].org@ && self.entries_spec()[i].namespace@
                == self.entries_spec()[j].namespace@ && self.entries_spec()[i].name@
                == self.entries_spec()[j].name@)
        &&& forall|i: int| #![trigger self.entries_spec()[i]]
            0 <= i < self.entries_spec().len() ==> valid_component(self.entries_spec()[i].org@)
                && valid_component(self.entries_spec()[i].namespace@) && valid_component(
                self.entries_spec()[i].name@,
            )
    }

    pub fn new() -> (r: Self)
        ensures
            r.wf(),
            r.entries_spec().len() == 0,
    {
        ModuleRegistry { entries: Vec::new() }
    }

    /// Index of the entry carrying this exact coordinate, if any.
    fn find_index(&self, org: &Vec<u8>, namespace: &Vec<u8>, name: &Vec<u8>) -> (r: Option<usize>)
        ensures
            match r {
                Some(i) => i < self.entries_spec().len() && entry_matches(
                    self.entries_spec()[i as int],
                    org@,
                    namespace@,
                    name@,
                ),
                None => !self.registered(org@, namespace@, name@),
            },
    {
        let n = self.entries.len();
        let mut i: usize = 0;
        while i < n
            invariant
                n == self.entries_spec().len(),
                i <= n,
                forall|k: int| #![trigger self.entries_spec()[k]]
                    0 <= k < i ==> !entry_matches(self.entries_spec()[k], org@, namespace@, name@),
            decreases n - i,
        {
            let e = &self.entries[i];
            if bytes_eq(&e.org, org) && bytes_eq(&e.namespace, namespace) && bytes_eq(
                &e.name,
                name,
            ) {
                return Some(i);
            }
            i = i + 1;
        }
        None
    }

    /// Registers a capability coordinate at boot. A coordinate whose
    /// components are not valid ASCII identifiers, or that was already
    /// registered, is rejected.
    pub fn register(
        &mut self,
        org: Vec<u8>,
        namespace: Vec<u8>,
        name: Vec<u8>,
        handler: Handler,
    ) -> (r: Result<(), RegisterError>)
        requires
            old(self).wf(),
        ensures
            final(self).wf(),
            !(valid_component(org@) && valid_component(namespace@) && valid_component(name@))
                ==> r == Result::<(), RegisterError>::Err(RegisterError::InvalidCoordinate)
                && final(self).entries_spec() == old(self).entries_spec(),
            valid_component(org@) && valid_component(namespace@) && valid_component(name@) && old(self).registered(org@, namespace@, name@) ==> r == Result::<(), RegisterError>::Err(
                RegisterError::AlreadyRegistered,
            ) && final(self).entries_spec() == old(self).entries_spec(),
            valid_component(org@) && valid_component(namespace@) && valid_component(name@) && !old(self).registered(org@, namespace@, name@) ==> r == Result::<(), RegisterError>::Ok(())
                && final(self).entries_spec() == old(self).entries_spec().push(
                (RegistryEntry { org, namespace, name, handler }),
            ) && final(self).registered(org@, namespace@, name@),
    {
        if !(is_valid_component(&org) && is_valid_component(&namespace) && is_valid_component(
            &name,
        )) {
            return Err(RegisterError::InvalidCoordinate);
        }
        if self.find_index(&org, &namespace, &name).is_some() {
            return Err(RegisterError::AlreadyRegistered);
        }
        let ghost pre = self.entries@;
        let ghost orgv = org@;
        let ghost nsv = namespace@;
        let ghost namev = name@;
        self.entries.push(RegistryEntry { org, namespace, name, handler });
        proof {
            let post = self.entries_spec();
            let last = post.len() - 1;
            assert(post[last].org@ == orgv && post[last].namespace@ == nsv && post[last].name@
                == namev);
            assert forall|i: int, j: int| #![trigger post[i], post[j]]
                0 <= i < j < post.len() implies !(post[i].org@ == post[j].org@ && post[i].namespace@
                == post[j].namespace@ && post[i].name@ == post[j].name@) by {
                if j < last {
                    assert(pre[i] == post[i] && pre[j] == post[j]);
                } else {
                    assert(pre[i] == post[i]);
                    if post[i].org@ == orgv && post[i].namespace@ == nsv && post[i].name@ == namev {
                        assert(entry_matches(old(self).entries_spec()[i], orgv, nsv, namev));
                        assert(old(self).registered(orgv, nsv, namev));
                        assert(false);
                    }
                }
            }
            assert forall|i: int| #![trigger post[i]]
                0 <= i < post.len() implies valid_component(post[i].org@) && valid_component(
                post[i].namespace@,
            ) && valid_component(post[i].name@) by {
                if i < last {
                    assert(pre[i] == post[i]);
                }
            }
            assert(entry_matches(post[last], orgv, nsv, namev));
            assert(self.registered(orgv, nsv, namev));
        }
        Ok(())
    }

    /// Exact lookup across the three coordinate components; absence at any
    /// level is a miss.
    pub fn resolve(&self, org: &Vec<u8>, namespace: &Vec<u8>, name: &Vec<u8>) -> (r: Option<
        &Handler,
    >)
        requires
            self.wf(),
        ensures
            (r is Some) <==> self.registered(org@, namespace@, name@),
            r matches Some(h) ==> *h == self.handler_of(org@, namespace@, name@),
    {
        match self.find_index(org, namespace, name) {
            Some(i) => {
                proof {
                    let j = choose|j: int|
                        0 <= j < self.entries_spec().len() && entry_matches(
                            self.entries_spec()[j],
                            org@,
                            namespace@,
                            name@,
                        );
                    assert(entry_matches(self.entries_spec()[i as int], org@, namespace@, name@));
                    if i as int != j {
                        if (i as int) < j {
                            assert(self.entries_spec()[i as int].org@ == self.entries_spec()[
                                j].org@);
                            assert(false);
                        } else {
                            assert(self.entries_spec()[j].org@ == self.entries_spec()[
                                i as int].org@);
                            assert(false);
                        }
                    }
                }
                Some(&self.entries[i].handler)
            },
            None => None,
        }
    }
}

/// True iff the two byte strings hold the same bytes.
fn bytes_eq(a: &Vec<u8>, b: &Vec<u8>) -> (r: bool)
    ensures
        r == (a@ == b@),
{
    if a.len() != b.len() {
        return false;
    }
    let n = a.len();
    let mut i: usize = 0;
    while i < n
        invariant
            n == a@.len(),
            a@.len() == b@.len(),
            i <= n,
            forall|k: int| 0 <= k < i ==> a@[k] == b@[k],
        decreases n - i,
    {
        if a[i] != b[i] {
            return false;
        }
        i = i + 1;
    }
    proof {
        assert(a@ =~= b@);
    }
    true
}

/// An owned copy of a byte string.
fn copy_bytes(v: &Vec<u8>) -> (r: Vec<u8>)
    ensures
        r@ == v@,
{
    copy_range(v, 0, v.len())
}

/// An owned copy of `v[from..to]`.
fn copy_range(v: &Vec<u8>, from: usize, to: usize) -> (r: Vec<u8>)
    requires
        from <= to <= v@.len(),
    ensures
        r@ == v@.subrange(from as int, to as int),
{
    let mut r: Vec<u8> = Vec::new();
    let mut i: usize = from;
    while i < to
        invariant
            from <= i <= to <= v@.len(),
            r@.len() == i - from,
            forall|k: int| 0 <= k < r@.len() ==> r@[k] == v@[from + k],
        decreases to - i,
    {
        let b = v[i];
        r.push(b);
        i = i + 1;
    }
    proof {
        assert(r@ =~= v@.subrange(from as int, to as int));
    }
    r
}

/// True iff the byte string is a valid coordinate component.
fn is_valid_component(v: &Vec<u8>) -> (r: bool)
    ensures
        r == valid_component(v@),
{
    if v.len() == 0 {
        return false;
    }
    let n = v.len();
    let mut i: usize = 0;
    while i < n
        invariant
            n == v@.len(),
            i <= n,
            forall|k: int| 0 <= k < i ==> (#[trigger] v@[k]) < 128 && v@[k] != 46,
        decreases n - i,
    {
        let b = v[i];
        if b >= 128 || b == COORDINATE_SEPARATOR {
            return false;
        }
        i = i + 1;
    }
    true
}

/// Position of the first separator at or after `from`, or the string's
/// length if none remains.
pub open spec fn first_dot_from(s: Seq<u8>, from: int) -> int
    decreases s.len() - from,
{
    if from < 0 || from >= s.len() {
        s.len() as int
    } else if s[from] == 46 {
        from
    } else {
        first_dot_from(s, from + 1)
    }
}

/// The three components of a coordinate string holding exactly two
/// separators; any other separator count fails to parse.
pub open spec fn coordinate_parts(s: Seq<u8>) -> Option<(Seq<u8>, Seq<u8>, Seq<u8>)> {
    let i = first_dot_from(s, 0);
    let j = first_dot_from(s, i + 1);
    let k = first_dot_from(s, j + 1);
    if i < s.len() && j < s.len() && k == s.len() {
        Some((s.take(i), s.subrange(i + 1, j), s.subrange(j + 1, s.len() as int)))
    } else {
        None
    }
}

proof fn lemma_first_dot_at(s: Seq<u8>, from: int, m: int)
    requires
        0 <= from <= m <= s.len(),
        forall|t: int| from <= t < m ==> (#[trigger] s[t]) != 46,
        m == s.len() || s[m] == 46,
    ensures
        first_dot_from(s, from) == m,
    decreases m - from,
{
    if from < m {
        lemma_first_dot_at(s, from + 1, m);
    }
}

proof fn lemma_first_dot_finds(s: Seq<u8>, from: int, p: int)
    requires
        0 <= from <= p < s.len(),
        s[p] == 46,
    ensures
        from <= first_dot_from(s, from) <= p,
    decreases p - from,
{
    if s[from] != 46 {
        lemma_first_dot_finds(s, from + 1, p);
    }
}

/// Parses a coordinate byte string into its exactly three dot-separated
/// components; any other component count is a parse failure.
pub fn parse_coordinate(bytes: &Vec<u8>) -> (r: Option<(Vec<u8>, Vec<u8>, Vec<u8>)>)
    ensures
        match r {
            Some(p) => coordinate_parts(bytes@) == Some((p.0@, p.1@, p.2@)),
            None => coordinate_parts(bytes@) is None,
        },
{
    let n = bytes.len();
    let mut ndots: usize = 0;
    let mut dot1: usize = 0;
    let mut dot2: usize = 0;
    let mut dot3: usize = 0;
    let mut i: usize = 0;
    while i < n
        invariant
            n == bytes@.len(),
            i <= n,
            ndots <= i,
            ndots == 0 ==> forall|t: int| 0 <= t < i ==> (#[trigger] bytes@[t]) != 46,
            ndots >= 1 ==> dot1 < i && bytes@[dot1 as int] == 46 && forall|t: int|
                0 <= t < dot1 ==> (#[trigger] bytes@[t]) != 46,
            ndots == 1 ==> forall|t: int| dot1 < t < i ==> (#[trigger] bytes@[t]) != 46,
            ndots >= 2 ==> dot1 < dot2 < i && bytes@[dot2 as int] == 46 && forall|t: int|
                dot1 < t < dot2 ==> (#[trigger] bytes@[t]) != 46,
            ndots == 2 ==> forall|t: int| dot2 < t < i ==> (#[trigger] bytes@[t]) != 46,
            ndots >= 3 ==> dot2 < dot3 < i && bytes@[dot3 as int] == 46,
        decreases n - i,
    {
        let b = bytes[i];
        if b == COORDINATE_SEPARATOR {
            if ndots == 0 {
                dot1 = i;
            } else if ndots == 1 {
                dot2 = i;
            } else if ndots == 2 {
                dot3 = i;
            }
            ndots = ndots + 1;
        }
        i = i + 1;
    }
    let ghost s = bytes@;
    if ndots == 2 {
        proof {
            lemma_first_dot_at(s, 0, dot1 as int);
            lemma_first_dot_at(s, dot1 as int + 1, dot2 as int);
            lemma_first_dot_at(s, dot2 as int + 1, n as int);
        }
        let p0 = copy_range(bytes, 0, dot1);
        let p1 = copy_range(bytes, dot1 + 1, dot2);
        let p2 = copy_range(bytes, dot2 + 1, n);
        proof {
            assert(s.take(dot1 as int) =~= s.subrange(0, dot1 as int));
        }
        Some((p0, p1, p2))
    } else {
        proof {
            if ndots == 0 {
                lemma_first_dot_at(s, 0, n as int);
            } else if ndots == 1 {
                lemma_first_dot_at(s, 0, dot1 as int);
                lemma_first_dot_at(s, dot1 as int + 1, n as int);
            } else {
                lemma_first_dot_at(s, 0, dot1 as int);
                lemma_first_dot_at(s, dot1 as int + 1, dot2 as int);
                lemma_first_dot_finds(s, dot2 as int + 1, dot3 as int);
            }
        }
        None
    }
}

/// How a boundary operation can fault. A fault is reported to the hosting
/// process, which terminates the guest instance: a memory-bounds violation
/// or a premature result read is a contract violation, never a value.
#[derive(Clone, Copy, Debug, PartialEq, Eq, Structural)]
pub enum AbiFault {
    /// A guest-supplied pointer/length pair runs outside guest memory.
    MemoryBounds,
    /// The event-id space is exhausted: a fatal configuration condition.
    EventIdsExhausted,
    /// A result pointer or length was asked for before the event was ready.
    NotReady,
    /// A document offset no longer fits the guest's 32-bit address space.
    OffsetUnrepresentable,
}

/// Why `spawn_event` could not submit a unit of work.
#[derive(Clone, Copy, Debug, PartialEq, Eq, Structural)]
pub enum SpawnEventError {
    /// The ready queue is at capacity; the caller may retry.
    Busy,
    /// The event-id space is exhausted.
    EventIdsExhausted,
}

/// Whether `[ptr, ptr + len)` lies inside guest memory.
pub open spec fn guest_range_ok(mem: Seq<u8>, ptr: u32, len: u32) -> bool {
    ptr + len <= mem.len()
}

/// The guest-memory bytes at `[ptr, ptr + len)`.
pub open spec fn guest_bytes(mem: Seq<u8>, ptr: u32, len: u32) -> Seq<u8> {
    mem.subrange(ptr as int, ptr + len)
}

/// Whether a coordinate byte string parses into three components that are
/// registered.
pub open spec fn invoke_resolves(reg: ModuleRegistry, coord: Seq<u8>) -> bool {
    match coordinate_parts(coord) {
        Some(p) => reg.registered(p.0, p.1, p.2),
        None => false,
    }
}

/// The handler a resolvable coordinate byte string names.
pub open spec fn invoke_handler(reg: ModuleRegistry, coord: Seq<u8>) -> Handler
    recommends
        invoke_resolves(reg, coord),
{
    match coordinate_parts(coord) {
        Some(p) => reg.handler_of(p.0, p.1, p.2),
        None => arbitrary(),
    }
}

/// Whether two executors agree on every observable view.
pub open spec fn executor_unchanged(a: Executor, b: Executor) -> bool {
    &&& b.queue() == a.queue()
    &&& b.documents() == a.documents()
    &&& b.promised() == a.promised()
    &&& b.output() == a.output()
    &&& b.next_id_spec() == a.next_id_spec()
}

/// Per-instance runtime state handed explicitly through every boundary
/// operation: the immutable capability registry shared at boot and this
/// instance's executor with its result tracker. The registry cannot be
/// mutated once the context owns it.
pub struct RuntimeContext {
    registry: ModuleRegistry,
    executor: Executor,
}

impl RuntimeContext {
    /// The capability registry fixed at boot.
    pub closed spec fn registry_spec(self) -> ModuleRegistry {
        self.registry
    }

    /// This instance's executor and result tracker.
    pub closed spec fn executor_spec(self) -> Executor {
        self.executor
    }

    pub open spec fn wf(self) -> bool {
        self.registry_spec().wf() && self.executor_spec().wf()
    }

    /// Creates the per-instance state around a registry built at boot.
    pub fn new(registry: ModuleRegistry) -> (r: Self)
        requires
            registry.wf(),
        ensures
            r.wf(),
            r.registry_spec() == registry,
            r.executor_spec().queue().len() == 0,
            r.executor_spec().documents() == Map::<u32, (usize, usize)>::empty(),
            r.executor_spec().promised() == Map::<u32, Seq<u8>>::empty(),
            r.executor_spec().next_id_spec() == 0,
    {
        RuntimeContext { registry, executor: Executor::new() }
    }

    /// Drives this instance's executor until every submitted unit of work
    /// has completed; the hosting process owns calling this.
    pub fn run(&mut self)
        requires
            old(self).wf(),
        ensures
            final(self).wf(),
            final(self).registry_spec() == old(self).registry_spec(),
            final(self).executor_spec().queue().len() == 0,
            final(self).executor_spec().promised() == old(self).executor_spec().promised(),
            final(self).executor_spec().next_id_spec() == old(self).executor_spec().next_id_spec(),
            forall|id: u32| #![trigger old(self).executor_spec().documents().contains_key(id)]
                old(self).executor_spec().documents().contains_key(id) ==> final(self).executor_spec().documents().contains_key(id) && final(self).executor_spec().documents()[id] == old(self).executor_spec().documents()[id],
            forall|id: u32|
                #![trigger Executor::queue_has(old(self).executor_spec().queue(), id)]
                Executor::queue_has(old(self).executor_spec().queue(), id) ==> final(self).executor_spec().documents().contains_key(id),
            forall|id: u32| #![trigger final(self).executor_spec().documents().contains_key(id)]
                final(self).executor_spec().documents().contains_key(id) ==> old(self).executor_spec().documents().contains_key(id) || Executor::queue_has(
                    old(self).executor_spec().queue(),
                    id,
                ),
    {
        self.executor.run()
    }

    /// Copies a byte range out of the shared output buffer; this is the read
    /// the guest performs with a document's start and length.
    pub fn read_output(&self, start: usize, length: usize) -> (r: Vec<u8>)
        requires
            start + length <= self.executor_spec().output().len(),
        ensures
            r@ == self.executor_spec().output().subrange(start as int, start + length),
    {
        self.executor.read_output(start, length)
    }

    /// Total size of the shared output buffer.
    pub fn output_len(&self) -> (r: usize)
        ensures
            r == self.executor_spec().output().len(),
    {
        self.executor.output_len()
    }
}

/// Reads `[ptr, ptr + len)` out of guest memory, faulting on any range that
/// leaves it: an out-of-bounds guest pointer is an ABI contract violation.
pub fn read_guest_bytes(memory: &Vec<u8>, ptr: u32, len: u32) -> (r: Result<Vec<u8>, AbiFault>)
    ensures
        match r {
            Ok(v) => guest_range_ok(memory@, ptr, len) && v@ == guest_bytes(memory@, ptr, len),
            Err(e) => e == AbiFault::MemoryBounds && !guest_range_ok(memory@, ptr, len),
        },
{
    let p = ptr as usize;
    let l = len as usize;
    if p > memory.len() || l > memory.len() - p {
        return Err(AbiFault::MemoryBounds);
    }
    Ok(copy_range(memory, p, p + l))
}

/// Allocates a fresh event id and submits the unit of work under it,
/// reporting a full queue or an exhausted id space as recoverable and fatal
/// conditions respectively. The returned id is non-negative, so `-1` stays
/// unambiguous at the boundary.
pub fn spawn_event(ctx: &mut RuntimeContext, work: UnitOfWork) -> (r: Result<i32, SpawnEventError>)
    requires
        old(ctx).wf(),
    ensures
        final(ctx).wf(),
        final(ctx).registry_spec() == old(ctx).registry_spec(),
        final(ctx).executor_spec().documents() == old(ctx).executor_spec().documents(),
        final(ctx).executor_spec().output() == old(ctx).executor_spec().output(),
        old(ctx).executor_spec().queue().len() >= TASK_QUEUE_CAPACITY ==> r == Result::<
            i32,
            SpawnEventError,
        >::Err(SpawnEventError::Busy) && executor_unchanged(
            old(ctx).executor_spec(),
            final(ctx).executor_spec(),
        ),
        old(ctx).executor_spec().queue().len() < TASK_QUEUE_CAPACITY && old(ctx).executor_spec().next_id_spec() > MAX_EVENT_ID ==> r == Result::<
            i32,
            SpawnEventError,
        >::Err(SpawnEventError::EventIdsExhausted) && executor_unchanged(
            old(ctx).executor_spec(),
            final(ctx).executor_spec(),
        ),
        old(ctx).executor_spec().queue().len() < TASK_QUEUE_CAPACITY && old(ctx).executor_spec().next_id_spec() <= MAX_EVENT_ID ==> {
            let id = old(ctx).executor_spec().next_id_spec();
            &&& r == Result::<i32, SpawnEventError>::Ok(id as i32)
            &&& id as i32 >= 0
            &&& final(ctx).executor_spec().next_id_spec() == id + 1
            &&& final(ctx).executor_spec().queue() == old(ctx).executor_spec().queue().push(
                (crate::executor::Task { event_id: id, work }),
            )
            &&& final(ctx).executor_spec().promised() == old(ctx).executor_spec().promised().insert(id, work.output@)
        },
{
    if !ctx.executor.has_capacity() {
        return Err(SpawnEventError::Busy);
    }
    match ctx.executor.next_event_id() {
        None => Err(SpawnEventError::EventIdsExhausted),
        Some(event_id) => {
            match ctx.executor.spawn_with_event_id(work, event_id) {
                Ok(()) => Ok(event_id as i32),
                Err(_) => {
                    proof {
                        assert(false);
                    }
                    Err(SpawnEventError::Busy)
                },
            }
        },
    }
}

/// The guest's asynchronous capability call. The coordinate string is read
/// from guest memory and parsed into exactly three dot-separated components;
/// an unparsable or unregistered coordinate returns `-1` and creates no
/// event. On a hit, the matched handler's unit of work is submitted under a
/// fresh event id, which is returned (always non-negative); a full ready
/// queue returns the recoverable busy sentinel `-2`. A guest pointer outside
/// guest memory, or an exhausted id space, faults the instance instead.
pub fn asml_abi_invoke(
    ctx: &mut RuntimeContext,
    memory: &Vec<u8>,
    name_ptr: u32,
    name_len: u32,
    input_ptr: u32,
    input_len: u32,
) -> (r: Result<i32, AbiFault>)
    requires
        old(ctx).wf(),
    ensures
        final(ctx).wf(),
        final(ctx).registry_spec() == old(ctx).registry_spec(),
        r == Result::<i32, AbiFault>::Err(AbiFault::MemoryBounds) <==> !guest_range_ok(
            memory@,
            name_ptr,
            name_len,
        ) || !guest_range_ok(memory@, input_ptr, input_len),
        r == Result::<i32, AbiFault>::Err(AbiFault::MemoryBounds) ==> executor_unchanged(
            old(ctx).executor_spec(),
            final(ctx).executor_spec(),
        ),
        guest_range_ok(memory@, name_ptr, name_len) && guest_range_ok(
            memory@,
            input_ptr,
            input_len,
        ) ==> {
            let coord = guest_bytes(memory@, name_ptr, name_len);
            let reg = old(ctx).registry_spec();
            let ex = old(ctx).executor_spec();
            &&& (r == Result::<i32, AbiFault>::Ok(-1i32) <==> !invoke_resolves(reg, coord))
            &&& r == Result::<i32, AbiFault>::Ok(-1i32) ==> executor_unchanged(
                ex,
                final(ctx).executor_spec(),
            )
            &&& invoke_resolves(reg, coord) && ex.queue().len() >= TASK_QUEUE_CAPACITY ==> r
                == Result::<i32, AbiFault>::Ok(-2i32) && executor_unchanged(
                ex,
                final(ctx).executor_spec(),
            )
            &&& invoke_resolves(reg, coord) && ex.queue().len() < TASK_QUEUE_CAPACITY
                && ex.next_id_spec() > MAX_EVENT_ID ==> r == Result::<i32, AbiFault>::Err(
                AbiFault::EventIdsExhausted,
            ) && executor_unchanged(ex, final(ctx).executor_spec())
            &&& invoke_resolves(reg, coord) && ex.queue().len() < TASK_QUEUE_CAPACITY
                && ex.next_id_spec() <= MAX_EVENT_ID ==> {
                let id = ex.next_id_spec();
                let h = invoke_handler(reg, coord);
                &&& r == Result::<i32, AbiFault>::Ok(id as i32)
                &&& id as i32 >= 0
                &&& final(ctx).executor_spec().next_id_spec() == id + 1
                &&& final(ctx).executor_spec().documents() == ex.documents()
                &&& final(ctx).executor_spec().promised() == ex.promised().insert(
                    id,
                    h.response@,
                )
                &&& final(ctx).executor_spec().queue().len() == ex.queue().len() + 1
                &&& Executor::queue_has(final(ctx).executor_spec().queue(), id)
            }
        },
{
    let name = match read_guest_bytes(memory, name_ptr, name_len) {
        Ok(v) => v,
        Err(e) => {
            return Err(e);
        },
    };
    // The input payload stays in guest memory for the handler; its range
    // must still be valid under the memory-transfer convention.
    let ip = input_ptr as usize;
    let il = input_len as usize;
    if ip > memory.len() || il > memory.len() - ip {
        return Err(AbiFault::MemoryBounds);
    }
    match parse_coordinate(&name) {
        None => Ok(-1),
        Some((org, namespace, nm)) => {
            let found = ctx.registry.resolve(&org, &namespace, &nm);
            match found {
                None => Ok(-1),
                Some(h) => {
                    let latency = h.latency;
                    let response = copy_bytes(&h.response);
                    let work = UnitOfWork { remaining_polls: latency, output: response };
                    match spawn_event(ctx, work) {
                        Ok(id) => {
                            proof {
                                let nid = old(ctx).executor_spec().next_id_spec();
                                let q = ctx.executor_spec().queue();
                                assert(q[q.len() - 1].event_id == nid);
                                assert(Executor::queue_has(q, nid));
                            }
                            Ok(id)
                        },
                        Err(SpawnEventError::Busy) => Ok(-2),
                        Err(SpawnEventError::EventIdsExhausted) => Err(AbiFault::EventIdsExhausted),
                    }
                },
            }
        },
    }
}

/// The guest's completion probe: `1` if a Document exists for the id, else
/// `0`. It never blocks, and an id this runtime never issued simply reads as
/// not ready.
pub fn asml_abi_poll(ctx: &RuntimeContext, id: u32) -> (r: i32)
    ensures
        r == 1 <==> ctx.executor_spec().documents().contains_key(id),
        r == 1 || r == 0,
{
    if ctx.executor.is_event_ready(id) {
        1
    } else {
        0
    }
}

/// Start offset of a completed event's result in the shared output buffer.
/// Asking before the event is ready is a contract violation and faults
/// instead of returning stale or foreign bytes.
pub fn asml_abi_event_ptr(ctx: &RuntimeContext, id: u32) -> (r: Result<u32, AbiFault>)
    ensures
        !ctx.executor_spec().documents().contains_key(id) ==> r == Result::<u32, AbiFault>::Err(
            AbiFault::NotReady,
        ),
        ctx.executor_spec().documents().contains_key(id) ==> {
            let d = ctx.executor_spec().documents()[id];
            if d.0 <= u32::MAX {
                r == Result::<u32, AbiFault>::Ok(d.0 as u32)
            } else {
                r == Result::<u32, AbiFault>::Err(AbiFault::OffsetUnrepresentable)
            }
        },
{
    match ctx.executor.get_event_memory_document(id) {
        None => Err(AbiFault::NotReady),
        Some(d) => {
            if d.start <= u32::MAX as usize {
                Ok(d.start as u32)
            } else {
                Err(AbiFault::OffsetUnrepresentable)
            }
        },
    }
}

/// Byte length of a completed event's result in the shared output buffer;
/// the same readiness contract as the result pointer.
pub fn asml_abi_event_len(ctx: &RuntimeContext, id: u32) -> (r: Result<u32, AbiFault>)
    ensures
        !ctx.executor_spec().documents().contains_key(id) ==> r == Result::<u32, AbiFault>::Err(
            AbiFault::NotReady,
        ),
        ctx.executor_spec().documents().contains_key(id) ==> {
            let d = ctx.executor_spec().documents()[id];
            if d.1 <= u32::MAX {
                r == Result::<u32, AbiFault>::Ok(d.1 as u32)
            } else {
                r == Result::<u32, AbiFault>::Err(AbiFault::OffsetUnrepresentable)
            }
        },
{
    match ctx.executor.get_event_memory_document(id) {
        None => Err(AbiFault::NotReady),
        Some(d) => {
            if d.length <= u32::MAX as usize {
                Ok(d.length as u32)
            } else {
                Err(AbiFault::OffsetUnrepresentable)
            }
        },
    }
}

/// An id that no successful `invoke` ever returned has no promised outcome,
/// so `poll` reports it not ready, never ready.
pub proof fn lemma_unknown_id_not_ready(ctx: RuntimeContext, id: u32)
    requires
        ctx.wf(),
        !ctx.executor_spec().promised().contains_key(id),
    ensures
        !ctx.executor_spec().documents().contains_key(id),
{
    lemma_unspawned_never_ready(ctx.executor_spec(), id);
}

} // verus!
