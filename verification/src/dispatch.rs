//! The dispatcher: scheduler, message transport and lifecycle machinery.
//!
//! Processes are cooperative state machines implementing [`Coroutine`]. The
//! dispatcher owns them all in a slot table keyed by generation-tagged
//! [`Cid`]s, routes envelopes through a strict FIFO ready queue, and drives
//! the run loop. A reserved sleeper process, created with the dispatcher,
//! turns kernel readiness events into wake messages; it is the only place
//! the runtime blocks in the kernel.
//!
//! Two ghost histories accompany the queue: `enq` records every entry ever
//! appended, `del` records every entry ever handed to its target process,
//! each with its position in `enq`. The well-formedness invariant keeps the
//! delivery positions strictly increasing, which is the runtime's ordering
//! guarantee: entries are delivered in the order they were enqueued.

use crate::cid::Cid;
use crate::message::Envelope;
use crate::message::Message;
use crate::poll::Event;
use crate::poll::PollWait;
use crate::poll::Poller;
use crate::poll::WakeUp;
use std::collections::VecDeque;
use vstd::prelude::*;

verus! {

/// Why the run loop is asked to end.
#[derive(Debug, Clone, Copy)]
pub struct ExitReason {
    pub code: i32,
    pub msg: &'static str,
}

/// The tick message the run loop addresses to the sleeper when the ready
/// queue has drained: time to block in the kernel.
#[derive(Debug, Clone, Copy, PartialEq, Eq, Structural)]
pub struct Sleep;

impl View for Sleep {
    type V = ();

    open spec fn view(&self) -> () {
        ()
    }
}

impl Message for Sleep {
    open spec fn tag_spec() -> u64 {
        0x1
    }

    open spec fn enc_spec(v: ()) -> Seq<u8> {
        Seq::empty()
    }

    open spec fn dec_spec(b: Seq<u8>) -> Option<()> {
        if b.len() == 0 {
            Some(())
        } else {
            None
        }
    }

    proof fn lemma_round_trip(v: ()) {
    }

    fn tag() -> u64 {
        0x1
    }

    fn encode(self) -> (r: Vec<u8>) {
        let r: Vec<u8> = Vec::new();
        r
    }

    fn decode(data: &[u8]) -> Option<Sleep> {
        if data.len() == 0 {
            Some(Sleep)
        } else {
            None
        }
    }
}

/// What a process offers when it suspends.
pub enum ProcessYield<C> {
    /// Nothing to do right now: re-enter me after the others have had a turn.
    Empty,
    /// Deliver this envelope to that address, then let me continue.
    Send(Cid, Envelope),
    /// Create this process, then hand me its identifier.
    Spawn(C),
    /// Waiting for a message or a wakeup: park me.
    Io,
}

/// What a process is handed when it is resumed.
pub enum ResumeArg {
    /// No news; the process had yielded `Empty` or was just created.
    Empty,
    /// An envelope addressed to the process.
    Message(Envelope),
    /// The identifier of the process it just asked to spawn.
    Spawned(Cid),
}

/// What a process returns when it finishes.
pub enum ProcessExit {
    /// Control flow reached the end; only this process ends.
    Done,
    /// The whole program is asked to terminate.
    Terminate(ExitReason),
}

/// One resumption's outcome: a suspension or a completion.
pub enum Step<C> {
    Yielded(ProcessYield<C>),
    Complete(ProcessExit),
}

/// A cooperative process: a resumable computation.
///
/// `resume` is handed the process's own identifier and the argument the
/// dispatcher delivers, and runs to the next suspension point. Nothing is
/// promised of it: the dispatcher is verified against every step an
/// implementation can take.
pub trait Coroutine: Sized {
    /// Run to the next suspension point or to completion.
    fn resume(&mut self, self_id: Cid, arg: ResumeArg) -> Step<Self>;
}

enum SlotState<C> {
    /// No process; the generation remembers past occupants.
    Vacant,
    /// The occupant is on the call stack right now.
    Running,
    /// A suspended user process.
    User(C),
    /// The reserved sleeper.
    Sleeper,
}

struct Slot<C> {
    gen: u32,
    st: SlotState<C>,
}

struct QEntry {
    to: Cid,
    arg: ResumeArg,
    seq: Ghost<nat>,
}

/// A prefix of a sequence is still a prefix after the sequence grows at the
/// tail.
proof fn lemma_prefix_push<T>(p: Seq<T>, s: Seq<T>, x: T)
    requires
        p.is_prefix_of(s),
    ensures
        p.is_prefix_of(s.push(x)),
{
    assert(s.push(x).subrange(0, p.len() as int) =~= s.subrange(0, p.len() as int));
}

/// A sequence is a prefix of itself.
proof fn lemma_prefix_refl<T>(s: Seq<T>)
    ensures
        s.is_prefix_of(s),
{
    assert(s =~= s.subrange(0, s.len() as int));
}

/// A prefix agrees with the whole sequence on every index it covers.
proof fn lemma_prefix_index<T>(p: Seq<T>, s: Seq<T>, i: int)
    requires
        p.is_prefix_of(s),
        0 <= i < p.len(),
    ensures
        p[i] == s[i],
{
    assert(p[i] == s.subrange(0, p.len() as int)[i]);
}

/// Being-a-prefix is transitive.
proof fn lemma_prefix_extend<T>(p: Seq<T>, s1: Seq<T>, s2: Seq<T>)
    requires
        p.is_prefix_of(s1),
        s1.is_prefix_of(s2),
    ensures
        p.is_prefix_of(s2),
{
    assert(s2.subrange(0, p.len() as int) =~= s1.subrange(0, p.len() as int));
}

/// How many times one turn may resume its process in place before the
/// continuation is re-enqueued instead. The bound exists so that every turn
/// provably ends; no real coroutine turn comes anywhere near it.
pub const TURN_BUDGET: u64 = 0xFFFF_FFFF_FFFF_FFFF;

/// One kernel wait of the sleeper: whether the ready queue was empty with no
/// exit reason pending when it began, and whether the sleeper was resumed
/// directly (the run loop's quiescent tick) rather than through a
/// queue-delivered message.
#[derive(Debug, Clone, Copy, PartialEq, Eq, Structural)]
pub struct TickNote {
    pub quiescent: bool,
    pub direct: bool,
}

/// The dispatcher: owns all processes, the ready queue and the exit state.
pub struct Dispatcher<C: Coroutine> {
    slots: Vec<Slot<C>>,
    queue: VecDeque<QEntry>,
    exit: Option<ExitReason>,
    sleeper: Cid,
    used: Ghost<Set<Cid>>,
    enq: Ghost<Seq<(Cid, ResumeArg)>>,
    del: Ghost<Seq<(nat, Cid, ResumeArg)>>,
    exits: Ghost<Seq<ExitReason>>,
    ticks: Ghost<Seq<TickNote>>,
}

impl<C: Coroutine> Dispatcher<C> {
    /// Whether `id` names a process that currently exists (suspended or on
    /// the call stack).
    pub closed spec fn live(self, id: Cid) -> bool {
        &&& id.idx < self.slots@.len()
        &&& self.slots@[id.idx as int].gen == id.gen
        &&& !(self.slots@[id.idx as int].st is Vacant)
    }

    /// The ready queue: address and resume argument of each pending entry,
    /// front first.
    pub closed spec fn queued(self) -> Seq<(Cid, ResumeArg)> {
        self.queue@.map(|i: int, e: QEntry| (e.to, e.arg))
    }

    /// The exit reason stored by a `Terminate`, not yet returned by `run`.
    pub closed spec fn exit_pending(self) -> Option<ExitReason> {
        self.exit
    }

    /// The reserved sleeper's identifier.
    pub closed spec fn sleeper_id(self) -> Cid {
        self.sleeper
    }

    /// Every identifier ever issued. Identifiers are never reissued, so a
    /// stale one can never name a later process.
    pub closed spec fn ever_used(self) -> Set<Cid> {
        self.used@
    }

    /// Everything ever appended to the ready queue, in order.
    pub closed spec fn enqueued(self) -> Seq<(Cid, ResumeArg)> {
        self.enq@
    }

    /// Every queue entry ever handed to its target, in delivery order; the
    /// first component is the entry's position in `enqueued`.
    pub closed spec fn delivered(self) -> Seq<(nat, Cid, ResumeArg)> {
        self.del@
    }

    /// Every exit reason ever recorded by a `Terminate` (or by the runtime's
    /// own terminal conditions), in the order of recording. A pending exit
    /// reason is always the last recorded one.
    pub closed spec fn exit_history(self) -> Seq<ExitReason> {
        self.exits@
    }

    /// Every kernel wait the sleeper ever made, in order, each noting whether
    /// the ready queue was empty with no exit pending at that moment and
    /// whether the sleeper was resumed directly rather than from the queue.
    pub closed spec fn tick_history(self) -> Seq<TickNote> {
        self.ticks@
    }

    spec fn slots_ok(self) -> bool {
        self.slots@.len() <= 0x1_0000_0000
    }

    spec fn used_ok(self) -> bool {
        forall|x: Cid| #[trigger]
            self.used@.contains(x) ==> x.idx < self.slots@.len() && x.gen <= self.slots@[x.idx as int].gen
    }

    spec fn entry_ok(self, e: QEntry) -> bool {
        e.seq@ < self.enq@.len() && self.enq@[e.seq@ as int] == (e.to, e.arg)
    }

    spec fn queue_ok(self) -> bool {
        &&& forall|k: int|
            0 <= k < self.queue@.len() ==> self.entry_ok(#[trigger] self.queue@[k])
        &&& forall|a: int, b: int|
            0 <= a < b < self.queue@.len() ==> #[trigger] self.queue@[a].seq@
                < #[trigger] self.queue@[b].seq@
    }

    spec fn del_ok(self) -> bool {
        &&& forall|d: int|
            0 <= d < self.del@.len() ==> (#[trigger] self.del@[d]).0 < self.enq@.len()
                && self.enq@[self.del@[d].0 as int] == (self.del@[d].1, self.del@[d].2)
        &&& forall|a: int, b: int|
            0 <= a < b < self.del@.len() ==> (#[trigger] self.del@[a]).0
                < (#[trigger] self.del@[b]).0
        &&& forall|d: int, k: int|
            0 <= d < self.del@.len() && 0 <= k < self.queue@.len() ==> (#[trigger] self.del@[d]).0
                < (#[trigger] self.queue@[k]).seq@
    }

    /// Every occupied slot's key was issued: liveness never appears for an
    /// identifier the dispatcher did not hand out.
    spec fn live_used_ok(self) -> bool {
        forall|i: int|
            0 <= i < self.slots@.len() && !((#[trigger] self.slots@[i].st) is Vacant)
                ==> self.used@.contains(Cid { idx: i as u32, gen: self.slots@[i].gen })
    }

    /// A pending exit reason is the last recorded one.
    spec fn exits_ok(self) -> bool {
        self.exit matches Some(e) ==> self.exits@.len() > 0 && self.exits@.last() == e
    }

    spec fn sleeper_ok(self) -> bool {
        forall|i: int|
            0 <= i < self.slots@.len() && (#[trigger] self.slots@[i].st) is Sleeper ==> self.sleeper
                == (Cid { idx: i as u32, gen: self.slots@[i].gen })
    }

    spec fn wf_core(self) -> bool {
        &&& self.slots_ok()
        &&& self.used_ok()
        &&& self.live_used_ok()
        &&& self.queue_ok()
        &&& self.del_ok()
        &&& self.exits_ok()
        &&& self.sleeper_ok()
    }

    /// Only the processes named in `rs` may be on the call stack.
    spec fn running_ok(self, rs: Set<Cid>) -> bool {
        forall|i: int|
            0 <= i < self.slots@.len() && (#[trigger] self.slots@[i].st) is Running ==> rs.contains(
                Cid { idx: i as u32, gen: self.slots@[i].gen },
            )
    }

    /// The dispatcher's invariant between calls: internal bookkeeping is
    /// consistent and no process is on the call stack.
    pub closed spec fn wf(self) -> bool {
        self.wf_core() && self.running_ok(Set::empty())
    }

    /// Whether a further process can be created: a slot is reusable or the
    /// table can still grow. Only a machine limit — four billion live slots —
    /// can make this false.
    pub closed spec fn can_spawn(self) -> bool {
        self.slots@.len() < 0x1_0000_0000 || exists|i: int|
            0 <= i < self.slots@.len() && (#[trigger] self.slots@[i].st) is Vacant
                && self.slots@[i].gen < 0xFFFF_FFFFu32
    }

    /// An empty dispatcher with its sleeper created and remembered.
    pub fn new() -> (d: Dispatcher<C>)
        ensures
            d.wf(),
            d.queued().len() == 0,
            d.enqueued().len() == 0,
            d.delivered().len() == 0,
            d.exit_pending() is None,
            d.exit_history().len() == 0,
            d.tick_history().len() == 0,
            d.live(d.sleeper_id()),
            d.ever_used() == Set::empty().insert(d.sleeper_id()),
            d.can_spawn(),
    {
        let sleeper = Cid { idx: 0, gen: 1 };
        let mut slots: Vec<Slot<C>> = Vec::new();
        slots.push(Slot { gen: 1, st: SlotState::Sleeper });
        let d = Dispatcher {
            slots,
            queue: VecDeque::new(),
            exit: None,
            sleeper,
            used: Ghost(Set::empty().insert(sleeper)),
            del: Ghost(Seq::empty()),
            enq: Ghost(Seq::empty()),
            exits: Ghost(Seq::empty()),
            ticks: Ghost(Seq::empty()),
        };
        d
    }

    /// Whether `id` names a live process right now.
    pub fn is_live(&self, id: Cid) -> (b: bool)
        ensures
            b == self.live(id),
    {
        if (id.idx as usize) < self.slots.len() {
            let s = &self.slots[id.idx as usize];
            s.gen == id.gen && !(matches!(s.st, SlotState::Vacant))
        } else {
            false
        }
    }

    /// Whether a further process can be created right now.
    pub fn can_spawn_now(&self) -> (b: bool)
        ensures
            b == self.can_spawn(),
    {
        if (self.slots.len() as u64) < 0x1_0000_0000u64 {
            return true;
        }
        match self.find_slot() {
            Some(_) => true,
            None => false,
        }
    }

    /// The first reusable slot, if any.
    fn find_slot(&self) -> (r: Option<usize>)
        ensures
            match r {
                Some(i) => i < self.slots@.len() && self.slots@[i as int].st is Vacant
                    && self.slots@[i as int].gen < 0xFFFF_FFFFu32,
                None => forall|i: int|
                    0 <= i < self.slots@.len() ==> !((#[trigger] self.slots@[i].st) is Vacant
                        && self.slots@[i].gen < 0xFFFF_FFFFu32),
            },
    {
        let mut i: usize = 0;
        while i < self.slots.len()
            invariant
                i <= self.slots@.len(),
                forall|j: int|
                    0 <= j < i ==> !((#[trigger] self.slots@[j].st) is Vacant && self.slots@[j].gen
                        < 0xFFFF_FFFFu32),
            decreases self.slots@.len() - i,
        {
            let s = &self.slots[i];
            if matches!(s.st, SlotState::Vacant) && s.gen < 0xFFFF_FFFFu32 {
                return Some(i);
            }
            i = i + 1;
        }
        None
    }

    /// Append one entry at the tail of the ready queue.
    fn push_entry(&mut self, to: Cid, arg: ResumeArg)
        requires
            old(self).wf_core(),
        ensures
            final(self).wf_core(),
            final(self).queued() == old(self).queued().push((to, arg)),
            final(self).queue_seqs() == old(self).queue_seqs().push(old(self).enq@.len()),
            final(self).exits == old(self).exits,
            final(self).ticks == old(self).ticks,
            final(self).enqueued() == old(self).enqueued().push((to, arg)),
            final(self).delivered() == old(self).delivered(),
            final(self).ever_used() == old(self).ever_used(),
            final(self).exit_pending() == old(self).exit_pending(),
            final(self).sleeper_id() == old(self).sleeper_id(),
            final(self).slots@ == old(self).slots@,
    {
        let ghost rec = (to, arg);
        let entry = QEntry { to, arg, seq: Ghost(self.enq@.len()) };
        self.queue.push_back(entry);
        proof {
            self.enq@ = self.enq@.push(rec);
            assert(self.queued() =~= old(self).queued().push(rec));
            assert(self.queue_seqs() =~= old(self).queue_seqs().push(old(self).enq@.len()));
            assert forall|k: int| 0 <= k < self.queue@.len() implies self.entry_ok(
                #[trigger] self.queue@[k],
            ) by {
                if k < self.queue@.len() - 1 {
                    assert(old(self).entry_ok(old(self).queue@[k]));
                }
            }
        }
    }

    /// Move the occupant of slot `id` off the table, leaving a `Running`
    /// marker so the slot cannot be reused while the occupant is out.
    fn take_slot(&mut self, id: Cid) -> (st: SlotState<C>)
        requires
            old(self).live(id),
            !(old(self).slots@[id.idx as int].st is Running),
        ensures
            st == old(self).slots@[id.idx as int].st,
            final(self).slots@ == old(self).slots@.update(
                id.idx as int,
                (Slot { gen: id.gen, st: SlotState::Running }),
            ),
            final(self).queue@ == old(self).queue@,
            final(self).exit == old(self).exit,
            final(self).sleeper == old(self).sleeper,
            final(self).used == old(self).used,
            final(self).enq == old(self).enq,
            final(self).del == old(self).del,
            final(self).exits == old(self).exits,
            final(self).ticks == old(self).ticks,
    {
        let idx = id.idx as usize;
        let mut tmp = SlotState::Running;
        core::mem::swap(&mut self.slots[idx].st, &mut tmp);
        proof {
            assert(self.slots@ =~= old(self).slots@.update(
                id.idx as int,
                (Slot { gen: id.gen, st: SlotState::Running }),
            ));
        }
        tmp
    }

    /// Put an occupant back into slot `id`, which it was taken from.
    fn put_slot(&mut self, id: Cid, st: SlotState<C>)
        requires
            id.idx < old(self).slots@.len(),
            old(self).slots@[id.idx as int].gen == id.gen,
            old(self).slots@[id.idx as int].st is Running,
            !(st is Running),
        ensures
            final(self).slots@ == old(self).slots@.update(
                id.idx as int,
                (Slot { gen: id.gen, st }),
            ),
            final(self).queue@ == old(self).queue@,
            final(self).exit == old(self).exit,
            final(self).sleeper == old(self).sleeper,
            final(self).used == old(self).used,
            final(self).enq == old(self).enq,
            final(self).del == old(self).del,
            final(self).exits == old(self).exits,
            final(self).ticks == old(self).ticks,
    {
        let idx = id.idx as usize;
        let mut tmp = st;
        core::mem::swap(&mut self.slots[idx].st, &mut tmp);
        proof {
            assert(self.slots@ =~= old(self).slots@.update(id.idx as int, (Slot { gen: id.gen, st })));
        }
    }

    /// Remove the process in slot `id`: the slot becomes vacant, keeping its
    /// generation, so the identifier goes stale forever.
    fn vacate(&mut self, id: Cid)
        requires
            old(self).live(id),
        ensures
            final(self).slots@ == old(self).slots@.update(
                id.idx as int,
                (Slot { gen: id.gen, st: SlotState::Vacant }),
            ),
            final(self).queue@ == old(self).queue@,
            final(self).exit == old(self).exit,
            final(self).sleeper == old(self).sleeper,
            final(self).used == old(self).used,
            final(self).enq == old(self).enq,
            final(self).del == old(self).del,
            final(self).exits == old(self).exits,
            final(self).ticks == old(self).ticks,
    {
        let idx = id.idx as usize;
        let mut tmp = SlotState::Vacant;
        core::mem::swap(&mut self.slots[idx].st, &mut tmp);
        proof {
            assert(self.slots@ =~= old(self).slots@.update(
                id.idx as int,
                (Slot { gen: id.gen, st: SlotState::Vacant }),
            ));
        }
    }

    /// Issue a fresh identifier and mark its slot `Running`, ready to receive
    /// the new process. Reuses a vacant slot under a higher generation when
    /// one exists, else grows the table.
    fn alloc_slot(&mut self) -> (id: Cid)
        requires
            old(self).wf_core(),
            old(self).can_spawn(),
        ensures
            final(self).wf_core(),
            !old(self).used@.contains(id),
            final(self).used@ == old(self).used@.insert(id),
            final(self).live(id),
            id.idx < final(self).slots@.len(),
            final(self).slots@[id.idx as int].st is Running,
            final(self).slots@[id.idx as int].gen == id.gen,
            id.idx < old(self).slots@.len() ==> old(self).slots@[id.idx as int].st is Vacant,
            old(self).slots@.len() <= final(self).slots@.len(),
            final(self).slots@.len() == if (id.idx as int) < old(self).slots@.len() {
                old(self).slots@.len() as int
            } else {
                old(self).slots@.len() + 1 as int
            },
            forall|i: int|
                0 <= i < old(self).slots@.len() && i != id.idx ==> final(self).slots@[i] == old(self).slots@[i],
            forall|x: Cid| x != id ==> final(self).live(x) == old(self).live(x),
            final(self).queue@ == old(self).queue@,
            final(self).exit == old(self).exit,
            final(self).sleeper == old(self).sleeper,
            final(self).enq == old(self).enq,
            final(self).del == old(self).del,
            final(self).exits == old(self).exits,
            final(self).ticks == old(self).ticks,
    {
        match self.find_slot() {
            Some(i) => {
                let g = self.slots[i].gen;
                let id = Cid { idx: i as u32, gen: g + 1 };
                let mut tmp = Slot { gen: g + 1, st: SlotState::Running };
                core::mem::swap(&mut self.slots[i], &mut tmp);
                proof {
                    assert(self.slots@ =~= old(self).slots@.update(
                        id.idx as int,
                        (Slot { gen: id.gen, st: SlotState::Running }),
                    ));
                    assert(!old(self).used@.contains(id)) by {
                        if old(self).used@.contains(id) {
                            assert(id.gen <= old(self).slots@[id.idx as int].gen);
                        }
                    }
                    self.used@ = self.used@.insert(id);
                }
                id
            },
            None => {
                let idx = self.slots.len();
                let id = Cid { idx: idx as u32, gen: 1 };
                self.slots.push(Slot { gen: 1, st: SlotState::Running });
                proof {
                    assert(!old(self).used@.contains(id)) by {
                        if old(self).used@.contains(id) {
                            assert(id.idx < old(self).slots@.len());
                        }
                    }
                    self.used@ = self.used@.insert(id);
                }
                id
            },
        }
    }

    /// Install a freshly issued process according to its priming step: a
    /// suspension installs it live (the priming yield itself is not
    /// interpreted), `Done` discards it, `Terminate` discards it and records
    /// the reason.
    fn apply_prime(&mut self, id: Cid, co: C, step: Step<C>)
        requires
            old(self).wf_core(),
            id.idx < old(self).slots@.len(),
            old(self).slots@[id.idx as int].gen == id.gen,
            old(self).slots@[id.idx as int].st is Running,
        ensures
            final(self).wf_core(),
            final(self).queue@ == old(self).queue@,
            final(self).enq == old(self).enq,
            final(self).del == old(self).del,
            final(self).used == old(self).used,
            final(self).sleeper == old(self).sleeper,
            final(self).slots@.len() == old(self).slots@.len(),
            forall|i: int|
                0 <= i < old(self).slots@.len() && i != id.idx ==> final(self).slots@[i] == old(self).slots@[i],
            !(final(self).slots@[id.idx as int].st is Running),
            forall|x: Cid| x != id ==> final(self).live(x) == old(self).live(x),
            final(self).ticks == old(self).ticks,
            step is Yielded ==> final(self).live(id) && final(self).exit == old(self).exit
                && final(self).exits == old(self).exits,
            step matches Step::Complete(ProcessExit::Done) ==> !final(self).live(id) && final(self).exit == old(self).exit && final(self).exits == old(self).exits,
            step matches Step::Complete(ProcessExit::Terminate(reason)) ==> !final(self).live(id)
                && final(self).exit == Some(reason) && final(self).exits@ == old(self).exits@.push(
                reason,
            ),
    {
        match step {
            Step::Yielded(_) => {
                self.put_slot(id, SlotState::User(co));
            },
            Step::Complete(ProcessExit::Done) => {
                self.vacate(id);
            },
            Step::Complete(ProcessExit::Terminate(r)) => {
                self.vacate(id);
                proof {
                    self.exits@ = self.exits@.push(r);
                }
                self.exit = Some(r);
            },
        }
    }

    /// Create a process: issue an identifier, hand the coroutine its identity
    /// by priming it with one `Empty` resumption, and install it by the
    /// priming step: a suspension installs it; a completion means it is never
    /// installed, and a `Terminate` it returns is recorded.
    fn spawn_inner(&mut self, c: C, Ghost(rs): Ghost<Set<Cid>>) -> (id: Cid)
        requires
            old(self).wf_core(),
            old(self).running_ok(rs),
            old(self).can_spawn(),
        ensures
            final(self).wf_core(),
            final(self).running_ok(rs),
            !old(self).used@.contains(id),
            final(self).used@ == old(self).used@.insert(id),
            final(self).queue@ == old(self).queue@,
            final(self).enq == old(self).enq,
            final(self).del == old(self).del,
            old(self).exits@.is_prefix_of(final(self).exits@),
            final(self).ticks == old(self).ticks,
            final(self).sleeper == old(self).sleeper,
            forall|x: Cid| x != id ==> final(self).live(x) == old(self).live(x),
            forall|i: int|
                0 <= i < old(self).slots@.len() && i != id.idx ==> final(self).slots@[i] == old(self).slots@[i],
            old(self).slots@.len() <= final(self).slots@.len(),
            id.idx < final(self).slots@.len(),
            !(final(self).slots@[id.idx as int].st is Running),
            id.idx < old(self).slots@.len() ==> old(self).slots@[id.idx as int].st is Vacant,
            final(self).exit == old(self).exit || (!final(self).live(id)
                && final(self).exit is Some),
    {
        let id = self.alloc_slot();
        let mut co = c;
        let step = co.resume(id, ResumeArg::Empty);
        self.apply_prime(id, co, step);
        proof {
            lemma_prefix_refl(old(self).exits@);
            if self.exits@ != old(self).exits@ {
                lemma_prefix_push(old(self).exits@, old(self).exits@, self.exits@.last());
            }
            assert forall|i: int|
                0 <= i < self.slots@.len() && (#[trigger] self.slots@[i].st) is Running implies rs.contains(
                Cid { idx: i as u32, gen: self.slots@[i].gen },
            ) by {
                assert(self.slots@[i] == old(self).slots@[i]);
            }
        }
        id
    }

    /// Create a process from a suspended computation and return its fresh
    /// identifier. The new process is not enqueued: it runs when a message
    /// reaches it. Its first resumption happens here, under its own identity,
    /// so that setup code before its first suspension point runs at once.
    ///
    /// Whether the process ends up installed is the priming step's decision
    /// (see the priming-step application): a suspension installs it live, a
    /// completion means it was born and died in this call — to a caller that
    /// is a possible behaviour of every coroutine, so the contract promises
    /// liveness and an unchanged exit reason only as the one alternative to a
    /// completed prime.
    pub fn spawn(&mut self, c: C) -> (id: Cid)
        requires
            old(self).wf(),
            old(self).can_spawn(),
        ensures
            final(self).wf(),
            !old(self).ever_used().contains(id),
            final(self).ever_used() == old(self).ever_used().insert(id),
            final(self).queued() == old(self).queued(),
            final(self).enqueued() == old(self).enqueued(),
            final(self).delivered() == old(self).delivered(),
            old(self).exit_history().is_prefix_of(final(self).exit_history()),
            final(self).tick_history() == old(self).tick_history(),
            final(self).sleeper_id() == old(self).sleeper_id(),
            forall|x: Cid| x != id ==> final(self).live(x) == old(self).live(x),
            final(self).exit_pending() == old(self).exit_pending() || (!final(self).live(id)
                && final(self).exit_pending() is Some),
    {
        let id = self.spawn_inner(c, Ghost(Set::empty()));
        id
    }

    spec fn queue_seqs(self) -> Seq<nat> {
        self.queue@.map(|i: int, e: QEntry| e.seq@)
    }

    /// A cleared call stack: once the one process allowed on the stack is no
    /// longer marked `Running`, no process is.
    proof fn lemma_running_cleared(self, id: Cid)
        requires
            self.slots_ok(),
            self.running_ok(Set::empty().insert(id)),
            id.idx < self.slots@.len() ==> !(self.slots@[id.idx as int].st is Running),
        ensures
            self.running_ok(Set::empty()),
    {
        assert forall|i: int|
            0 <= i < self.slots@.len() && (#[trigger] self.slots@[i].st) is Running implies Set::<
            Cid,
        >::empty().contains(Cid { idx: i as u32, gen: self.slots@[i].gen }) by {
            let c = Cid { idx: i as u32, gen: self.slots@[i].gen };
            assert(Set::empty().insert(id).contains(c));
            assert(c == id);
            assert(i == id.idx as int);
        }
    }

    /// Turn one batch of readiness events into wake messages: exactly one
    /// `WakeUp` envelope per event, addressed to the process whose packed
    /// identifier the event's tag holds, appended to the queue in event
    /// order.
    #[verifier::loop_isolation(false)]
    fn deliver_wakeups_inner(&mut self, events: &Vec<Event>)
        requires
            old(self).wf_core(),
        ensures
            final(self).wf_core(),
            final(self).queue@.len() == old(self).queue@.len() + events@.len(),
            old(self).queued().is_prefix_of(final(self).queued()),
            old(self).queue_seqs().is_prefix_of(final(self).queue_seqs()),
            forall|k: int|
                old(self).queue@.len() <= k < final(self).queue@.len() ==> (
                #[trigger] final(self).queue_seqs()[k]) >= old(self).enq@.len(),
            forall|i: int|
                0 <= i < events@.len() ==> {
                    let e = #[trigger] events@[i];
                    let q = final(self).queued()[old(self).queue@.len() + i];
                    &&& q.0 == crate::cid::spec_from_ffi(e.data)
                    &&& q.1 matches ResumeArg::Message(env) && env.tag_of() == <WakeUp as Message>::tag_spec()
                        && env.bytes() == <WakeUp as Message>::enc_spec(e.events)
                },
            old(self).enq@.is_prefix_of(final(self).enq@),
            final(self).del@ == old(self).del@,
            final(self).used@ == old(self).used@,
            final(self).exit == old(self).exit,
            final(self).exits == old(self).exits,
            final(self).ticks == old(self).ticks,
            final(self).sleeper == old(self).sleeper,
            final(self).slots@ == old(self).slots@,
    {
        let mut i: usize = 0;
        while i < events.len()
            invariant
                i <= events@.len(),
                self.wf_core(),
                self.queue@.len() == old(self).queue@.len() + i,
                old(self).queued().is_prefix_of(self.queued()),
                old(self).queue_seqs().is_prefix_of(self.queue_seqs()),
                forall|k: int|
                    old(self).queue@.len() <= k < self.queue@.len() ==> (
                    #[trigger] self.queue_seqs()[k]) >= old(self).enq@.len(),
                forall|j: int|
                    0 <= j < i ==> {
                        let e = #[trigger] events@[j];
                        let q = self.queued()[old(self).queue@.len() + j];
                        &&& q.0 == crate::cid::spec_from_ffi(e.data)
                        &&& q.1 matches ResumeArg::Message(env) && env.tag_of() == <WakeUp as Message>::tag_spec()
                            && env.bytes() == <WakeUp as Message>::enc_spec(e.events)
                    },
                old(self).enq@.is_prefix_of(self.enq@),
                self.del@ == old(self).del@,
                self.used@ == old(self).used@,
                self.exit == old(self).exit,
                self.exits == old(self).exits,
                self.ticks == old(self).ticks,
                self.sleeper == old(self).sleeper,
                self.slots@ == old(self).slots@,
            decreases events@.len() - i,
        {
            let e = events[i];
            let target = Cid::from_ffi(e.data);
            let env = Envelope::pack(WakeUp(e.events));
            let ghost qprev = self.queued();
            let ghost sprev = self.queue_seqs();
            let ghost eprev = self.enq@;
            self.push_entry(target, ResumeArg::Message(env));
            proof {
                lemma_prefix_push(old(self).queued(), qprev, (target, ResumeArg::Message(env)));
                lemma_prefix_push(old(self).queue_seqs(), sprev, eprev.len());
                lemma_prefix_push(old(self).enq@, eprev, (target, ResumeArg::Message(env)));
                assert forall|j: int| 0 <= j < i + 1 implies {
                    let e = #[trigger] events@[j];
                    let q = self.queued()[old(self).queue@.len() + j];
                    &&& q.0 == crate::cid::spec_from_ffi(e.data)
                    &&& q.1 matches ResumeArg::Message(env2) && env2.tag_of() == <WakeUp as Message>::tag_spec()
                        && env2.bytes() == <WakeUp as Message>::enc_spec(e.events)
                } by {
                    if j < i {
                        assert(self.queued()[old(self).queue@.len() + j] == qprev[old(self).queue@.len() + j]);
                    } else {
                        assert(self.queued()[old(self).queue@.len() + j] == (
                            target,
                            ResumeArg::Message(env),
                        ));
                    }
                }
            }
            i = i + 1;
        }
    }


    /// Apply one step of process `id`'s turn. A `Send` routes the envelope to
    /// the queue's tail and the turn continues with `Empty`; a `Spawn`
    /// installs and primes the child and the turn continues with `Spawned`
    /// (should the table be unable to allocate — a machine limit — the
    /// process is parked and a terminate with the table-full reason is
    /// recorded instead); `Io` parks the process, adding nothing to the
    /// queue; `Empty` parks it and re-enqueues it at the tail; a completion
    /// removes it, a `Terminate`'s reason overwriting any pending exit
    /// reason. Returns the coroutine and the next resume argument while the
    /// turn continues in place.
    fn apply_step(&mut self, id: Cid, co: C, step: Step<C>) -> (r: Option<(C, ResumeArg)>)
        requires
            old(self).wf_core(),
            old(self).running_ok(Set::empty().insert(id)),
            id.idx < old(self).slots@.len(),
            old(self).slots@[id.idx as int].gen == id.gen,
            old(self).slots@[id.idx as int].st is Running,
        ensures
            final(self).wf_core(),
            final(self).del@ == old(self).del@,
            old(self).enq@.is_prefix_of(final(self).enq@),
            old(self).used@.subset_of(final(self).used@),
            final(self).sleeper == old(self).sleeper,
            old(self).queued().is_prefix_of(final(self).queued()),
            old(self).queue_seqs().is_prefix_of(final(self).queue_seqs()),
            forall|k: int|
                old(self).queue@.len() <= k < final(self).queue@.len() ==> (
                #[trigger] final(self).queue_seqs()[k]) >= old(self).enq@.len(),
            forall|k: int|
                old(self).queue@.len() <= k < final(self).queue@.len() ==> ((
                #[trigger] final(self).queued()[k]).1 is Message || (r is None && k == final(self).queue@.len() - 1 && final(self).queued()[k] == (id, ResumeArg::Empty) && final(self).live(id))),
            forall|x: Cid|
                old(self).used@.contains(x) && x != id ==> final(self).live(x) == old(self).live(
                    x,
                ),
            old(self).exits@.is_prefix_of(final(self).exits@),
            final(self).ticks == old(self).ticks,
            r is Some ==> final(self).running_ok(Set::empty().insert(id)) && id.idx < final(self).slots@.len() && final(self).slots@[id.idx as int].gen == id.gen && final(self).slots@[id.idx as int].st is Running,
            r is None ==> final(self).running_ok(Set::empty()),
            step matches Step::Yielded(ProcessYield::Send(to, env)) ==> ({
                &&& r matches Some(p) && p.1 == ResumeArg::Empty
                &&& final(self).queued() == old(self).queued().push((to, ResumeArg::Message(env)))
                &&& final(self).exit == old(self).exit
                &&& final(self).exits == old(self).exits
            }),
            step matches Step::Yielded(ProcessYield::Spawn(child)) ==> ({
                &&& old(self).can_spawn() ==> (r matches Some(p) && p.1 matches ResumeArg::Spawned(nid) && !old(self).used@.contains(nid) && final(self).used@ == old(self).used@.insert(nid) && final(self).queued() == old(self).queued() && (final(self).exit == old(self).exit || (!final(self).live(nid) && final(self).exit is Some)))
                &&& !old(self).can_spawn() ==> (r is None && final(self).queued() == old(self).queued() && final(self).live(id) && (final(self).exit matches Some(e) && e.code == 1 && e.msg@ == "process table full"@ && final(self).exits@ == old(self).exits@.push(e)))
            }),
            step matches Step::Yielded(ProcessYield::Io) ==> ({
                &&& r is None
                &&& final(self).queued() == old(self).queued()
                &&& final(self).exit == old(self).exit
                &&& final(self).exits == old(self).exits
                &&& final(self).live(id)
            }),
            step matches Step::Yielded(ProcessYield::Empty) ==> ({
                &&& r is None
                &&& final(self).queued() == old(self).queued().push((id, ResumeArg::Empty))
                &&& final(self).exit == old(self).exit
                &&& final(self).exits == old(self).exits
                &&& final(self).live(id)
            }),
            step matches Step::Complete(ProcessExit::Done) ==> ({
                &&& r is None
                &&& final(self).queued() == old(self).queued()
                &&& final(self).exit == old(self).exit
                &&& final(self).exits == old(self).exits
                &&& !final(self).live(id)
            }),
            step matches Step::Complete(ProcessExit::Terminate(reason)) ==> ({
                &&& r is None
                &&& final(self).queued() == old(self).queued()
                &&& final(self).exit == Some(reason)
                &&& final(self).exits@ == old(self).exits@.push(reason)
                &&& !final(self).live(id)
            }),
    {
        proof {
            lemma_prefix_refl(old(self).queued());
            lemma_prefix_refl(old(self).queue_seqs());
            lemma_prefix_refl(old(self).enq@);
            lemma_prefix_refl(old(self).exits@);
        }
        match step {
            Step::Yielded(ProcessYield::Send(to, env)) => {
                let ghost qprev = self.queued();
                let ghost sprev = self.queue_seqs();
                let ghost eprev = self.enq@;
                self.push_entry(to, ResumeArg::Message(env));
                proof {
                    lemma_prefix_push(old(self).queued(), qprev, (to, ResumeArg::Message(env)));
                    lemma_prefix_push(old(self).queue_seqs(), sprev, eprev.len());
                    lemma_prefix_push(old(self).enq@, eprev, (to, ResumeArg::Message(env)));
                }
                Some((co, ResumeArg::Empty))
            },
            Step::Yielded(ProcessYield::Spawn(child)) => {
                if self.can_spawn_now() {
                    let nid = self.spawn_inner(child, Ghost(Set::empty().insert(id)));
                    proof {
                        lemma_prefix_extend(old(self).exits@, old(self).exits@, self.exits@);
                    }
                    Some((co, ResumeArg::Spawned(nid)))
                } else {
                    self.put_slot(id, SlotState::User(co));
                    let reason = ExitReason { code: 1, msg: "process table full" };
                    proof {
                        self.exits@ = self.exits@.push(reason);
                    }
                    self.exit = Some(reason);
                    proof {
                        reveal_strlit("process table full");
                        lemma_prefix_push(old(self).exits@, old(self).exits@, reason);
                        self.lemma_running_cleared(id);
                    }
                    None
                }
            },
            Step::Yielded(ProcessYield::Io) => {
                self.put_slot(id, SlotState::User(co));
                proof {
                    self.lemma_running_cleared(id);
                }
                None
            },
            Step::Yielded(ProcessYield::Empty) => {
                self.put_slot(id, SlotState::User(co));
                let ghost qprev = self.queued();
                let ghost sprev = self.queue_seqs();
                let ghost eprev = self.enq@;
                self.push_entry(id, ResumeArg::Empty);
                proof {
                    lemma_prefix_push(old(self).queued(), qprev, (id, ResumeArg::Empty));
                    lemma_prefix_push(old(self).queue_seqs(), sprev, eprev.len());
                    lemma_prefix_push(old(self).enq@, eprev, (id, ResumeArg::Empty));
                    self.lemma_running_cleared(id);
                }
                None
            },
            Step::Complete(ProcessExit::Done) => {
                self.vacate(id);
                proof {
                    self.lemma_running_cleared(id);
                }
                None
            },
            Step::Complete(ProcessExit::Terminate(rr)) => {
                self.vacate(id);
                proof {
                    self.exits@ = self.exits@.push(rr);
                }
                self.exit = Some(rr);
                proof {
                    lemma_prefix_push(old(self).exits@, old(self).exits@, rr);
                    self.lemma_running_cleared(id);
                }
                None
            },
        }
    }


    /// Apply the outcome of the sleeper's kernel wait. A failure is
    /// unrecoverable: the sleeper terminates, the poller-failure reason
    /// (code 1) is recorded, and nothing is delivered. A batch of events
    /// becomes exactly one wake message per event, in event order, addressed
    /// by each event's packed identifier tag, and the sleeper re-enqueues
    /// itself behind them with `Empty`.
    fn apply_wait(&mut self, id: Cid, w: PollWait, Ghost(direct): Ghost<bool>)
        requires
            old(self).wf_core(),
            old(self).running_ok(Set::empty().insert(id)),
            id.idx < old(self).slots@.len(),
            old(self).slots@[id.idx as int].gen == id.gen,
            old(self).slots@[id.idx as int].st is Running,
            old(self).sleeper == id,
        ensures
            final(self).wf_core(),
            final(self).running_ok(Set::empty()),
            final(self).del@ == old(self).del@,
            old(self).enq@.is_prefix_of(final(self).enq@),
            final(self).used@ == old(self).used@,
            final(self).sleeper == old(self).sleeper,
            old(self).queued().is_prefix_of(final(self).queued()),
            old(self).queue_seqs().is_prefix_of(final(self).queue_seqs()),
            forall|k: int|
                old(self).queue@.len() <= k < final(self).queue@.len() ==> (
                #[trigger] final(self).queue_seqs()[k]) >= old(self).enq@.len(),
            forall|k: int|
                old(self).queue@.len() <= k < final(self).queue@.len() ==> ((
                #[trigger] final(self).queued()[k]).1 is Message || (k == final(self).queue@.len() - 1 && final(self).queued()[k] == (id, ResumeArg::Empty) && final(self).live(id))),
            forall|x: Cid| x != id ==> final(self).live(x) == old(self).live(x),
            final(self).ticks@ == old(self).ticks@.push(
                (TickNote {
                    quiescent: old(self).queue@.len() == 0 && old(self).exit is None,
                    direct,
                }),
            ),
            w matches PollWait::Failed(errno) ==> ({
                &&& final(self).queued() == old(self).queued()
                &&& (final(self).exit matches Some(e) && e.code == 1 && e.msg@ == "epoll failed"@
                    && final(self).exits@ == old(self).exits@.push(e))
                &&& !final(self).live(id)
            }),
            w matches PollWait::Events(es) ==> ({
                &&& final(self).queued().len() == old(self).queued().len() + es@.len() + 1
                &&& forall|i: int|
                    0 <= i < es@.len() ==> {
                        let e = #[trigger] es@[i];
                        let q = final(self).queued()[old(self).queued().len() + i];
                        &&& q.0 == crate::cid::spec_from_ffi(e.data)
                        &&& q.1 matches ResumeArg::Message(env) && env.tag_of() == <WakeUp as Message>::tag_spec()
                            && env.bytes() == <WakeUp as Message>::enc_spec(e.events)
                    }
                &&& final(self).queued().last() == (id, ResumeArg::Empty)
                &&& final(self).exit == old(self).exit
                &&& final(self).exits == old(self).exits
                &&& final(self).live(id)
            }),
    {
        proof {
            lemma_prefix_refl(old(self).queued());
            lemma_prefix_refl(old(self).queue_seqs());
            lemma_prefix_refl(old(self).enq@);
            self.ticks@ = self.ticks@.push(
                TickNote {
                    quiescent: self.queue@.len() == 0 && self.exit is None,
                    direct,
                },
            );
        }
        match w {
            PollWait::Failed(_) => {
                self.vacate(id);
                let reason = ExitReason { code: 1, msg: "epoll failed" };
                proof {
                    self.exits@ = self.exits@.push(reason);
                }
                self.exit = Some(reason);
                proof {
                    reveal_strlit("epoll failed");
                    self.lemma_running_cleared(id);
                }
            },
            PollWait::Events(es) => {
                self.deliver_wakeups_inner(&es);
                self.put_slot(id, SlotState::Sleeper);
                let ghost qprev = self.queued();
                let ghost sprev = self.queue_seqs();
                let ghost eprev = self.enq@;
                self.push_entry(id, ResumeArg::Empty);
                proof {
                    lemma_prefix_extend(old(self).queued(), old(self).queued(), qprev);
                    lemma_prefix_push(old(self).queued(), qprev, (id, ResumeArg::Empty));
                    lemma_prefix_extend(old(self).queue_seqs(), old(self).queue_seqs(), sprev);
                    lemma_prefix_push(old(self).queue_seqs(), sprev, eprev.len());
                    lemma_prefix_extend(old(self).enq@, old(self).enq@, eprev);
                    lemma_prefix_push(old(self).enq@, eprev, (id, ResumeArg::Empty));
                    assert forall|i: int| 0 <= i < es@.len() implies {
                        let e = #[trigger] es@[i];
                        let q = self.queued()[old(self).queued().len() + i];
                        &&& q.0 == crate::cid::spec_from_ffi(e.data)
                        &&& q.1 matches ResumeArg::Message(env) && env.tag_of() == <WakeUp as Message>::tag_spec()
                            && env.bytes() == <WakeUp as Message>::enc_spec(e.events)
                    } by {
                        let e = es@[i];
                        let idx = old(self).queued().len() + i;
                        assert(old(self).queued().len() == old(self).queue@.len());
                        assert(qprev[old(self).queue@.len() + i].0 == crate::cid::spec_from_ffi(
                            e.data,
                        ));
                        lemma_prefix_index(qprev, self.queued(), idx);
                        assert(self.queued()[idx] == qprev[idx]);
                    }
                    assert forall|k: int|
                        old(self).queue@.len() <= k < self.queue@.len() implies ((
                    #[trigger] self.queued()[k]).1 is Message || (k == self.queue@.len() - 1 && self.queued()[k] == (id, ResumeArg::Empty) && self.live(id))) by {
                        if k < qprev.len() {
                            lemma_prefix_index(qprev, self.queued(), k);
                            let j = k - old(self).queued().len();
                            assert(0 <= j < es@.len());
                            let ev = es@[j];
                            assert(qprev[old(self).queued().len() + j].1 is Message);
                        } else {
                            assert(self.queued()[k] == (id, ResumeArg::Empty));
                        }
                    }
                    assert(self.queued().last() == (id, ResumeArg::Empty));
                    self.lemma_running_cleared(id);
                }
            },
        }
    }

    /// Resume process `id` with `arg` and keep resuming it in place until it
    /// suspends or completes: a `Send` is routed to the queue's tail and the
    /// process continues with `Empty`, so a producer runs to its natural
    /// suspension point without being preempted; a `Spawn` installs the child
    /// and the process continues with `Spawned`; `Io` parks it; `Empty`
    /// re-enqueues it at the tail, after everything its turn produced; a
    /// completion removes it, recording a `Terminate`'s reason. A message to
    /// the sleeper bearing the `Sleep` tag makes it wait in the kernel once
    /// and deliver the events as wake messages; the sleeper then re-enqueues
    /// itself and parks on its next turn.
    ///
    /// If `src` names the queue position this delivery came from, the
    /// delivery history is extended by exactly this entry — provided the
    /// target is live; a dead or missing target is a silent drop.
    #[verifier::loop_isolation(false)]
    fn chain<P: Poller>(
        &mut self,
        id: Cid,
        arg: ResumeArg,
        poller: &mut P,
        Ghost(src): Ghost<Option<nat>>,
    )
        requires
            old(self).wf(),
            src matches Some(s) ==> {
                &&& s < old(self).enq@.len()
                &&& old(self).enq@[s as int] == (id, arg)
                &&& forall|d: int|
                    0 <= d < old(self).del@.len() ==> (#[trigger] old(self).del@[d]).0 < s
                &&& forall|k: int|
                    0 <= k < old(self).queue@.len() ==> s < (#[trigger] old(self).queue@[k]).seq@
            },
        ensures
            final(self).wf(),
            !old(self).live(id) ==> *final(self) == *old(self),
            final(self).del@ == (match src {
                Some(s) => if old(self).live(id) {
                    old(self).del@.push((s, id, arg))
                } else {
                    old(self).del@
                },
                None => old(self).del@,
            }),
            old(self).queued().is_prefix_of(final(self).queued()),
            old(self).queue_seqs().is_prefix_of(final(self).queue_seqs()),
            forall|k: int|
                old(self).queue@.len() <= k < final(self).queue@.len() ==> (
                #[trigger] final(self).queue_seqs()[k]) >= old(self).enq@.len(),
            forall|k: int|
                old(self).queue@.len() <= k < final(self).queue@.len() ==> ((
                #[trigger] final(self).queued()[k]).1 is Message || (k == final(self).queue@.len() - 1 && final(self).queued()[k].0 == id && !(final(self).queued()[k].1 is Message) && final(self).live(id))),
            old(self).enq@.is_prefix_of(final(self).enq@),
            old(self).used@.subset_of(final(self).used@),
            forall|x: Cid|
                old(self).used@.contains(x) && x != id ==> final(self).live(x) == old(self).live(
                    x,
                ),
            old(self).exits@.is_prefix_of(final(self).exits@),
            final(self).ticks@ == old(self).ticks@ || final(self).ticks@ == old(self).ticks@.push(
                (TickNote {
                    quiescent: old(self).queue@.len() == 0 && old(self).exit is None,
                    direct: src is None,
                }),
            ),
            final(self).sleeper == old(self).sleeper,
    {
        proof {
            lemma_prefix_refl(old(self).exits@);
        }
        if !self.is_live(id) {
            return;
        }
        proof {
            match src {
                Some(s) => {
                    self.del@ = self.del@.push((s, id, arg));
                },
                None => {},
            }
        }
        let st = self.take_slot(id);
        let ghost del1 = self.del@;
        let ghost q0 = self.queued();
        let ghost qs0 = self.queue_seqs();
        let ghost enq0 = self.enq@;
        let ghost used0 = self.used@;
        match st {
            SlotState::Vacant => {
                proof {
                    assert(!(old(self).slots@[id.idx as int].st is Vacant));
                    assert(false);
                }
            },
            SlotState::Running => {
                proof {
                    assert(old(self).slots@[id.idx as int].st is Running);
                    assert(old(self).running_ok(Set::empty()));
                    assert(Set::<Cid>::empty().contains(
                        Cid { idx: id.idx, gen: old(self).slots@[id.idx as int].gen },
                    ));
                    assert(false);
                }
            },
            SlotState::Sleeper => {
                let is_tick = match &arg {
                    ResumeArg::Message(env) => env.type_tag() == <Sleep as Message>::tag(),
                    _ => false,
                };
                if is_tick {
                    let w = poller.wait();
                    self.apply_wait(id, w, Ghost(src is None));
                } else {
                    self.put_slot(id, SlotState::Sleeper);
                    proof {
                        self.lemma_running_cleared(id);
                    }
                }
            },
            SlotState::User(co0) => {
                let mut co = co0;
                let mut cur = arg;
                let mut budget: u64 = TURN_BUDGET;
                while budget > 0
                    invariant
                        self.wf_core(),
                        self.running_ok(Set::empty().insert(id)),
                        id.idx < self.slots@.len(),
                        self.slots@[id.idx as int].gen == id.gen,
                        self.slots@[id.idx as int].st is Running,
                        self.del@ == del1,
                        self.sleeper == old(self).sleeper,
                        enq0.is_prefix_of(self.enq@),
                        used0.subset_of(self.used@),
                        old(self).exits@.is_prefix_of(self.exits@),
                        self.ticks@ == old(self).ticks@,
                        q0.is_prefix_of(self.queued()),
                        qs0.is_prefix_of(self.queue_seqs()),
                        forall|k: int|
                            q0.len() <= k < self.queued().len() ==> (#[trigger] self.queued()[k]).1
                                is Message,
                        forall|k: int|
                            q0.len() <= k < self.queue_seqs().len() ==> (
                            #[trigger] self.queue_seqs()[k]) >= enq0.len(),
                        forall|x: Cid|
                            used0.contains(x) && x != id ==> self.live(x) == old(self).live(x),
                    decreases budget,
                {
                    budget = budget - 1;
                    let step = co.resume(id, cur);
                    let ghost pre = *self;
                    match self.apply_step(id, co, step) {
                        Some(p) => {
                            proof {
                                lemma_prefix_extend(q0, pre.queued(), self.queued());
                                lemma_prefix_extend(qs0, pre.queue_seqs(), self.queue_seqs());
                                lemma_prefix_extend(enq0, pre.enq@, self.enq@);
                                lemma_prefix_extend(old(self).exits@, pre.exits@, self.exits@);
                                assert forall|k: int|
                                    q0.len() <= k < self.queued().len() implies (
                                #[trigger] self.queued()[k]).1 is Message by {
                                    if k < pre.queued().len() {
                                        lemma_prefix_index(pre.queued(), self.queued(), k);
                                    }
                                }
                                assert forall|k: int|
                                    q0.len() <= k < self.queue_seqs().len() implies (
                                #[trigger] self.queue_seqs()[k]) >= enq0.len() by {
                                    if k < pre.queue_seqs().len() {
                                        lemma_prefix_index(pre.queue_seqs(), self.queue_seqs(), k);
                                    }
                                }
                            }
                            let (co2, next) = p;
                            co = co2;
                            cur = next;
                        },
                        None => {
                            proof {
                                lemma_prefix_extend(q0, pre.queued(), self.queued());
                                lemma_prefix_extend(qs0, pre.queue_seqs(), self.queue_seqs());
                                lemma_prefix_extend(enq0, pre.enq@, self.enq@);
                                lemma_prefix_extend(old(self).exits@, pre.exits@, self.exits@);
                                assert forall|k: int|
                                    q0.len() <= k < self.queued().len() implies ((
                                #[trigger] self.queued()[k]).1 is Message || (k == self.queued().len() - 1 && self.queued()[k] == (id, ResumeArg::Empty) && self.live(id))) by {
                                    if k < pre.queued().len() {
                                        lemma_prefix_index(pre.queued(), self.queued(), k);
                                    }
                                }
                                assert forall|k: int|
                                    q0.len() <= k < self.queue_seqs().len() implies (
                                #[trigger] self.queue_seqs()[k]) >= enq0.len() by {
                                    if k < pre.queue_seqs().len() {
                                        lemma_prefix_index(pre.queue_seqs(), self.queue_seqs(), k);
                                    }
                                }
                            }
                            return;
                        },
                    }
                }
                self.put_slot(id, SlotState::User(co));
                let ghost qprev = self.queued();
                let ghost sprev = self.queue_seqs();
                let ghost eprev = self.enq@;
                let ghost tail = (id, cur);
                self.push_entry(id, cur);
                proof {
                    lemma_prefix_push(q0, qprev, tail);
                    lemma_prefix_push(qs0, sprev, eprev.len());
                    lemma_prefix_push(enq0, eprev, tail);
                    self.lemma_running_cleared(id);
                }
            },
        }
    }

    /// Resume process `id` with `arg` until it parks, re-enqueues itself or
    /// completes: the spec-level resume-until-parked step of the run loop,
    /// usable on its own to drive the dispatcher deterministically.
    ///
    /// The queue can only grow at the tail during the turn: everything
    /// appended is a routed message, except that a process whose turn ends by
    /// yielding `Empty` is re-enqueued — as the last entry, behind every
    /// message its turn produced, which is the runtime's breadth-first
    /// fairness. A process that parks with `Io` is not re-enqueued at all: it
    /// runs again only when a message or wakeup reaches it. Resuming a dead or
    /// stale identifier does nothing at all: the dispatcher is left exactly
    /// as it was.
    pub fn run_one<P: Poller>(&mut self, id: Cid, arg: ResumeArg, poller: &mut P)
        requires
            old(self).wf(),
        ensures
            final(self).wf(),
            !old(self).live(id) ==> *final(self) == *old(self),
            final(self).delivered() == old(self).delivered(),
            old(self).queued().is_prefix_of(final(self).queued()),
            forall|k: int|
                old(self).queued().len() <= k < final(self).queued().len() ==> ((
                #[trigger] final(self).queued()[k]).1 is Message || (k == final(self).queued().len() - 1 && final(self).queued()[k].0 == id && !(final(self).queued()[k].1 is Message) && final(self).live(id))),
            old(self).enqueued().is_prefix_of(final(self).enqueued()),
            old(self).ever_used().subset_of(final(self).ever_used()),
            forall|x: Cid|
                old(self).ever_used().contains(x) && x != id ==> final(self).live(x) == old(self).live(x),
            old(self).exit_history().is_prefix_of(final(self).exit_history()),
            final(self).tick_history() == old(self).tick_history() || final(self).tick_history()
                == old(self).tick_history().push(
                (TickNote {
                    quiescent: old(self).queued().len() == 0 && old(self).exit_pending() is None,
                    direct: true,
                }),
            ),
            final(self).sleeper_id() == old(self).sleeper_id(),
    {
        self.chain(id, arg, poller, Ghost(None));
    }

    /// Hand one batch of readiness events to the runtime: exactly one
    /// `WakeUp(mask)` message per event is appended to the queue, in event
    /// order, addressed to the process whose packed identifier rides in the
    /// event's tag.
    pub fn deliver_wakeups(&mut self, events: &Vec<Event>)
        requires
            old(self).wf(),
        ensures
            final(self).wf(),
            final(self).queued().len() == old(self).queued().len() + events@.len(),
            old(self).queued().is_prefix_of(final(self).queued()),
            forall|i: int|
                0 <= i < events@.len() ==> {
                    let e = #[trigger] events@[i];
                    let q = final(self).queued()[old(self).queued().len() + i];
                    &&& q.0 == crate::cid::spec_from_ffi(e.data)
                    &&& q.1 matches ResumeArg::Message(env) && env.tag_of() == <WakeUp as Message>::tag_spec()
                        && env.bytes() == <WakeUp as Message>::enc_spec(e.events)
                },
            final(self).delivered() == old(self).delivered(),
            final(self).ever_used() == old(self).ever_used(),
            final(self).exit_pending() == old(self).exit_pending(),
            final(self).exit_history() == old(self).exit_history(),
            final(self).tick_history() == old(self).tick_history(),
            final(self).sleeper_id() == old(self).sleeper_id(),
            forall|x: Cid| final(self).live(x) == old(self).live(x),
    {
        self.deliver_wakeups_inner(events);
    }

    /// Deliver the queue's head entry: hand the argument to its target by
    /// resuming it, exactly once — unless the target is dead or missing, in
    /// which case the entry is dropped silently. Returns whether a head
    /// entry existed. This is the delivery step of every sweep: an entry
    /// addressed to a live process is handed to that process when it reaches
    /// the front of the queue.
    pub fn deliver_next<P: Poller>(&mut self, poller: &mut P) -> (had: bool)
        requires
            old(self).wf(),
        ensures
            final(self).wf(),
            had == (old(self).queued().len() > 0),
            !had ==> final(self).queued() == old(self).queued() && final(self).delivered() == old(self).delivered() && final(self).enqueued() == old(self).enqueued(),
            had ==> old(self).queued().skip(1).is_prefix_of(final(self).queued()),
            had && old(self).live(old(self).queued()[0].0) ==> exists|s: nat|
                #![trigger old(self).enqueued()[s as int]]
                final(self).delivered() == old(self).delivered().push(
                    (s, old(self).queued()[0].0, old(self).queued()[0].1),
                ) && s < old(self).enqueued().len() && old(self).enqueued()[s as int] == old(self).queued()[0],
            had && !old(self).live(old(self).queued()[0].0) ==> final(self).delivered() == old(self).delivered() && final(self).queued() == old(self).queued().skip(1)
                && final(self).enqueued() == old(self).enqueued() && final(self).ever_used() == old(self).ever_used() && final(self).exit_pending() == old(self).exit_pending()
                && (forall|x: Cid| final(self).live(x) == old(self).live(x)),
            old(self).enqueued().is_prefix_of(final(self).enqueued()),
            old(self).ever_used().subset_of(final(self).ever_used()),
            old(self).exit_history().is_prefix_of(final(self).exit_history()),
            old(self).tick_history().is_prefix_of(final(self).tick_history()),
            forall|i: int|
                old(self).tick_history().len() <= i < final(self).tick_history().len() ==> !(
                #[trigger] final(self).tick_history()[i]).direct,
            final(self).sleeper_id() == old(self).sleeper_id(),
    {
        let head = self.queue.pop_front();
        proof {
            lemma_prefix_refl(old(self).exits@);
            lemma_prefix_refl(old(self).ticks@);
        }
        match head {
            None => {
                proof {
                    assert(final(self).queued() =~= old(self).queued());
                }
                false
            },
            Some(e) => {
                let QEntry { to, arg, seq } = e;
                let ghost pre = *self;
                proof {
                    assert(old(self).entry_ok(old(self).queue@[0]));
                    assert forall|k: int| 0 <= k < pre.queue@.len() implies pre.entry_ok(
                        #[trigger] pre.queue@[k],
                    ) && seq@ < pre.queue@[k].seq@ by {
                        assert(old(self).entry_ok(old(self).queue@[k + 1]));
                        assert(old(self).queue@[0].seq@ < old(self).queue@[k + 1].seq@);
                    }
                    assert(pre.wf());
                }
                self.chain(to, arg, poller, Ghost(Some(seq@)));
                proof {
                    if self.ticks@ != old(self).ticks@ {
                        lemma_prefix_push(old(self).ticks@, old(self).ticks@, self.ticks@.last());
                    }
                    assert(pre.queued() =~= old(self).queued().skip(1));
                    assert(old(self).queued()[0] == (to, arg));
                    assert(old(self).enqueued()[seq@ as int] == old(self).queued()[0]);
                    if old(self).live(to) {
                        assert(final(self).delivered() == old(self).delivered().push(
                            (seq@, to, arg),
                        ));
                    }
                }
                true
            },
        }
    }

    /// One sweep: take the queue's current contents and resume each entry's
    /// target with its argument, in FIFO order. Entries enqueued during the
    /// sweep stay for the next sweep.
    #[verifier::loop_isolation(false)]
    fn sweep<P: Poller>(&mut self, poller: &mut P)
        requires
            old(self).wf(),
        ensures
            final(self).wf(),
            old(self).enqueued().is_prefix_of(final(self).enqueued()),
            old(self).delivered().is_prefix_of(final(self).delivered()),
            old(self).exit_history().is_prefix_of(final(self).exit_history()),
            old(self).tick_history().is_prefix_of(final(self).tick_history()),
            forall|i: int|
                old(self).tick_history().len() <= i < final(self).tick_history().len() ==> !(
                #[trigger] final(self).tick_history()[i]).direct,
            final(self).sleeper_id() == old(self).sleeper_id(),
            old(self).ever_used().subset_of(final(self).ever_used()),
    {
        let mut snap: VecDeque<QEntry> = VecDeque::new();
        core::mem::swap(&mut self.queue, &mut snap);
        let ghost enq0_len = self.enq@.len();
        proof {
            lemma_prefix_refl(old(self).exits@);
            lemma_prefix_refl(old(self).ticks@);
        }
        loop
            invariant
                self.wf(),
                self.sleeper == old(self).sleeper,
                enq0_len <= self.enq@.len(),
                old(self).enq@.is_prefix_of(self.enq@),
                old(self).del@.is_prefix_of(self.del@),
                old(self).used@.subset_of(self.used@),
                old(self).exits@.is_prefix_of(self.exits@),
                old(self).ticks@.is_prefix_of(self.ticks@),
                forall|i: int|
                    old(self).ticks@.len() <= i < self.ticks@.len() ==> !(
                    #[trigger] self.ticks@[i]).direct,
                forall|k: int|
                    0 <= k < snap@.len() ==> (#[trigger] snap@[k]).seq@ < enq0_len && self.enq@[snap@[k].seq@ as int]
                        == (snap@[k].to, snap@[k].arg),
                forall|a: int, b: int|
                    0 <= a < b < snap@.len() ==> (#[trigger] snap@[a]).seq@ < (
                    #[trigger] snap@[b]).seq@,
                forall|d: int, k: int|
                    0 <= d < self.del@.len() && 0 <= k < snap@.len() ==> (#[trigger] self.del@[d]).0
                        < (#[trigger] snap@[k]).seq@,
                forall|k: int|
                    0 <= k < self.queue@.len() ==> (#[trigger] self.queue@[k]).seq@ >= enq0_len,
            decreases snap@.len(),
        {
            let head = snap.pop_front();
            match head {
                None => {
                    break ;
                },
                Some(e) => {
                    let QEntry { to, arg, seq } = e;
                    let ghost pre = *self;
                    self.chain(to, arg, poller, Ghost(Some(seq@)));
                    proof {
                        lemma_prefix_extend(old(self).enq@, pre.enq@, self.enq@);
                        lemma_prefix_extend(old(self).exits@, pre.exits@, self.exits@);
                        if self.ticks@ != pre.ticks@ {
                            lemma_prefix_push(old(self).ticks@, pre.ticks@, self.ticks@.last());
                        }
                        if self.del@ != pre.del@ {
                            lemma_prefix_push(old(self).del@, pre.del@, self.del@.last());
                        }
                        assert forall|k: int|
                            0 <= k < self.queue@.len() implies (#[trigger] self.queue@[k]).seq@
                            >= enq0_len by {
                            if k < pre.queue@.len() {
                                assert(pre.queue_seqs()[k] == self.queue_seqs()[k]);
                                assert(self.queue_seqs()[k] == self.queue@[k].seq@);
                            } else {
                                assert(self.queue_seqs()[k] >= pre.enq@.len());
                            }
                        }
                    }
                },
            }
        }
    }

    /// Drive the dispatcher until a `Terminate` is observed or no progress is
    /// possible: sweep the queue until it is empty; then return a pending
    /// exit reason if there is one; otherwise tick the sleeper, which blocks
    /// in the kernel and turns readiness into wake messages, and start over.
    /// Without a live sleeper an empty queue means no one can ever run again,
    /// and the loop reports that instead of spinning.
    ///
    /// On return the ready queue is empty and no exit reason is left pending:
    /// no process is resumed after the reason that ends the run is taken.
    #[verifier::loop_isolation(false)]
    pub fn run<P: Poller>(&mut self, poller: &mut P, fuel: u64) -> (r: Option<ExitReason>)
        requires
            old(self).wf(),
        ensures
            final(self).wf(),
            r is Some ==> final(self).queued().len() == 0 && final(self).exit_pending() is None,
            fuel > 0 && old(self).queued().len() == 0 && old(self).exit_pending() is Some ==> r
                == old(self).exit_pending(),
            fuel > 0 && old(self).queued().len() == 0 && old(self).exit_pending() is None && !old(
                self,
            ).live(old(self).sleeper_id()) ==> (r matches Some(e) && e.code == 0 && e.msg@
                == "no sleeper"@),
            old(self).enqueued().is_prefix_of(final(self).enqueued()),
            old(self).delivered().is_prefix_of(final(self).delivered()),
            old(self).exit_history().is_prefix_of(final(self).exit_history()),
            r matches Some(e) ==> final(self).exit_history().len() > 0 && e == final(self).exit_history().last(),
            old(self).tick_history().is_prefix_of(final(self).tick_history()),
            forall|i: int|
                old(self).tick_history().len() <= i < final(self).tick_history().len() && (
                #[trigger] final(self).tick_history()[i]).direct ==> final(self).tick_history()[i].quiescent,
            final(self).sleeper_id() == old(self).sleeper_id(),
            old(self).ever_used().subset_of(final(self).ever_used()),
    {
        proof {
            lemma_prefix_refl(old(self).exits@);
            lemma_prefix_refl(old(self).ticks@);
        }
        let mut left = fuel;
        loop
            invariant
                self.wf(),
                old(self).enq@.is_prefix_of(self.enq@),
                old(self).del@.is_prefix_of(self.del@),
                old(self).exits@.is_prefix_of(self.exits@),
                old(self).ticks@.is_prefix_of(self.ticks@),
                forall|i: int|
                    old(self).ticks@.len() <= i < self.ticks@.len() && (
                    #[trigger] self.ticks@[i]).direct ==> self.ticks@[i].quiescent,
                self.sleeper == old(self).sleeper,
                old(self).used@.subset_of(self.used@),
                old(self).queued().len() == 0 && old(self).exit_pending() is Some ==> (
                self.queued().len() == 0 && self.exit == old(self).exit && left == fuel),
                old(self).queued().len() == 0 && old(self).exit_pending() is None && !old(
                    self,
                ).live(old(self).sleeper_id()) ==> (self.queued().len() == 0 && self.exit == old(
                    self,
                ).exit && self.live(old(self).sleeper_id()) == old(self).live(
                    old(self).sleeper_id(),
                ) && left == fuel),
            decreases left,
        {
            if left == 0 {
                return None;
            }
            left = left - 1;
            if self.queue.len() > 0 {
                let ghost pre = *self;
                self.sweep(poller);
                proof {
                    lemma_prefix_extend(old(self).exits@, pre.exits@, self.exits@);
                    lemma_prefix_extend(old(self).ticks@, pre.ticks@, self.ticks@);
                    assert forall|i: int|
                        old(self).ticks@.len() <= i < self.ticks@.len() && (
                        #[trigger] self.ticks@[i]).direct implies self.ticks@[i].quiescent by {
                        if i < pre.ticks@.len() {
                            lemma_prefix_index(pre.ticks@, self.ticks@, i);
                        }
                    }
                }
            } else {
                if let Some(r) = self.exit {
                    self.exit = None;
                    return Some(r);
                }
                    let sleeper = self.sleeper;
                if !self.is_live(sleeper) {
                    let reason = ExitReason { code: 0, msg: "no sleeper" };
                    proof {
                        reveal_strlit("no sleeper");
                        self.exits@ = self.exits@.push(reason);
                        lemma_prefix_push(old(self).exits@, self.exits@.drop_last(), reason);
                        assert(self.exits@.drop_last().push(reason) =~= self.exits@);
                    }
                    return Some(reason);
                }
                let tick = Envelope::pack(Sleep);
                let ghost pre = *self;
                self.run_one(sleeper, ResumeArg::Message(tick), poller);
                proof {
                    lemma_prefix_extend(old(self).exits@, pre.exits@, self.exits@);
                    if self.ticks@ != pre.ticks@ {
                        lemma_prefix_push(old(self).ticks@, pre.ticks@, self.ticks@.last());
                    }
                    assert forall|i: int|
                        old(self).ticks@.len() <= i < self.ticks@.len() && (
                        #[trigger] self.ticks@[i]).direct implies self.ticks@[i].quiescent by {
                        if i < pre.ticks@.len() {
                            lemma_prefix_index(pre.ticks@, self.ticks@, i);
                        }
                    }
                }
            }
        }
    }

    /// A live identifier was issued: together with the freshness of every
    /// identifier `spawn` returns, an identifier refers to at most one live
    /// process across the program's lifetime.
    pub proof fn lemma_live_identifier_was_issued(self, id: Cid)
        requires
            self.wf(),
            self.live(id),
        ensures
            self.ever_used().contains(id),
    {
        let i = id.idx as int;
        assert(!(self.slots@[i].st is Vacant));
        assert(self.used@.contains(Cid { idx: i as u32, gen: self.slots@[i].gen }));
        assert(Cid { idx: i as u32, gen: self.slots@[i].gen } == id);
    }

    /// Deliveries happen in enqueue order: of two entries handed to their
    /// targets, the one delivered first was enqueued first. In particular,
    /// when one process sends two messages to one recipient in order, the
    /// recipient observes them in that order, whatever other senders
    /// interleave: `send` appends at the tail, so the first message holds the
    /// smaller queue position, and delivery follows queue positions.
    pub proof fn lemma_fifo_delivery(self, i: int, j: int)
        requires
            self.wf(),
            0 <= i < j < self.delivered().len(),
        ensures
            self.delivered()[i].0 < self.delivered()[j].0,
    {
    }

    /// The converse reading: when one entry was enqueued before another and
    /// both were handed over, the earlier-enqueued one was handed over
    /// earlier.
    pub proof fn lemma_enqueue_order_observed(self, i: int, j: int)
        requires
            self.wf(),
            0 <= i < self.delivered().len(),
            0 <= j < self.delivered().len(),
            self.delivered()[i].0 < self.delivered()[j].0,
        ensures
            i < j,
    {
        if j < i {
            self.lemma_fifo_delivery(j, i);
        }
    }

    /// Every delivery is of an entry that was enqueued, with the address and
    /// argument it was enqueued with: the runtime neither forges nor alters
    /// messages in flight.
    pub proof fn lemma_delivered_was_enqueued(self, i: int)
        requires
            self.wf(),
            0 <= i < self.delivered().len(),
        ensures
            self.delivered()[i].0 < self.enqueued().len(),
            self.enqueued()[self.delivered()[i].0 as int] == (
                self.delivered()[i].1,
                self.delivered()[i].2,
            ),
    {
    }

    /// What the queue still holds has not been delivered yet: every pending
    /// entry's position lies beyond every delivered position, so no entry is
    /// handed over twice.
    pub proof fn lemma_pending_after_delivered(self, i: int, k: int)
        requires
            self.wf(),
            0 <= i < self.delivered().len(),
            0 <= k < self.queued().len(),
        ensures
            exists|s: nat|
                self.delivered()[i].0 < s && s < self.enqueued().len() && #[trigger] self.enqueued()[s as int]
                    == self.queued()[k],
    {
        let e = self.queue@[k];
        assert(self.enq@[e.seq@ as int] == (e.to, e.arg));
        assert(self.queued()[k] == (e.to, e.arg));
        assert(self.delivered()[i].0 < e.seq@ && e.seq@ < self.enqueued().len() && self.enqueued()[e.seq@ as int]
            == self.queued()[k]);
    }

    /// Append `(addr, Message(msg))` at the tail of the ready queue. Whether
    /// `addr` is live is not examined here: delivery to a dead or missing
    /// address is a silent drop at dequeue time.
    pub fn send(&mut self, addr: Cid, msg: Envelope)
        requires
            old(self).wf(),
        ensures
            final(self).wf(),
            final(self).queued() == old(self).queued().push((addr, ResumeArg::Message(msg))),
            final(self).enqueued() == old(self).enqueued().push((addr, ResumeArg::Message(msg))),
            final(self).delivered() == old(self).delivered(),
            final(self).ever_used() == old(self).ever_used(),
            final(self).exit_pending() == old(self).exit_pending(),
            final(self).exit_history() == old(self).exit_history(),
            final(self).tick_history() == old(self).tick_history(),
            final(self).sleeper_id() == old(self).sleeper_id(),
            forall|x: Cid| final(self).live(x) == old(self).live(x),
    {
        self.push_entry(addr, ResumeArg::Message(msg));
    }
}

} // verus!
