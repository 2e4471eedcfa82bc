//! The readiness multiplexor seen from the runtime.
//!
//! The dispatcher blocks the thread in at most one place: the sleeper's wait
//! on a kernel readiness multiplexor. The [`Poller`] trait is that wait; the
//! embedding supplies an implementation over the real kernel facility, and
//! [`ScriptedPoller`] replays a fixed script of outcomes for deterministic
//! runs. Each readiness event carries an opaque 64-bit tag, which the runtime
//! uses to hold the packed identifier of the process that owns the ready file
//! descriptor.

use crate::message::Message;
use vstd::bytes::*;
use vstd::prelude::*;

verus! {

/// Readiness: the file descriptor tagged `data` is ready for the operations
/// in the mask `events`.
#[derive(Debug, Clone, Copy, PartialEq, Eq, Structural)]
pub struct Event {
    /// Mask of `EVENT_*` bits.
    pub events: u32,
    /// Opaque tag given at registration; the runtime stores a packed `Cid`.
    pub data: u64,
}

/// Readable. The values mirror the kernel's readiness mask bits.
pub const EVENT_IN: u32 = 0x1;

/// Writable.
pub const EVENT_OUT: u32 = 0x4;

/// Peer closed its writing end.
pub const EVENT_READ_HUP: u32 = 0x2000;

/// Exceptional condition.
pub const EVENT_PRI: u32 = 0x2;

/// Error condition.
pub const EVENT_ERR: u32 = 0x8;

/// Hang-up.
pub const EVENT_HUP: u32 = 0x10;

/// What one blocking wait on the multiplexor produced.
pub enum PollWait {
    /// A batch of readiness events; possibly empty.
    Events(Vec<Event>),
    /// The wait itself failed with the given error number.
    Failed(i64),
}

/// The abstract value of a wait outcome: the event batch as a sequence.
pub enum PollWaitView {
    Events(Seq<Event>),
    Failed(i64),
}

impl View for PollWait {
    type V = PollWaitView;

    open spec fn view(&self) -> PollWaitView {
        match self {
            PollWait::Events(es) => PollWaitView::Events(es@),
            PollWait::Failed(e) => PollWaitView::Failed(*e),
        }
    }
}

/// A blocking wait on a readiness multiplexor.
///
/// Nothing is promised of the outcome: the dispatcher is verified against
/// every batch of events and every failure an implementation can return.
pub trait Poller {
    /// Block until readiness; return the batch of events, or the failure.
    fn wait(&mut self) -> PollWait;
}

/// A poller that replays a fixed script of outcomes, for deterministic runs.
/// When the script is exhausted every further wait fails.
pub struct ScriptedPoller {
    script: Vec<PollWait>,
    next: usize,
}

/// The error number a [`ScriptedPoller`] fails with once its script is spent.
pub const SCRIPT_SPENT: i64 = -1;

impl ScriptedPoller {
    /// The outcomes not yet replayed, in order.
    pub closed spec fn remaining(&self) -> Seq<PollWait> {
        if self.next <= self.script@.len() {
            self.script@.skip(self.next as int)
        } else {
            Seq::empty()
        }
    }

    /// A poller that will produce the outcomes of `script` in order.
    pub fn new(script: Vec<PollWait>) -> (p: ScriptedPoller)
        ensures
            p.remaining() == script@,
    {
        let p = ScriptedPoller { script, next: 0 };
        proof {
            assert(p.remaining() =~= p.script@);
        }
        p
    }
}

impl Poller for ScriptedPoller {
    fn wait(&mut self) -> (w: PollWait)
        ensures
            old(self).remaining().len() > 0 ==> w@ == old(self).remaining()[0]@
                && final(self).remaining() == old(self).remaining().skip(1),
            old(self).remaining().len() == 0 ==> w@ == PollWaitView::Failed(SCRIPT_SPENT)
                && final(self).remaining() == old(self).remaining(),
    {
        if self.next < self.script.len() {
            let w = clone_poll_wait(&self.script[self.next]);
            self.next = self.next + 1;
            proof {
                assert(self.remaining() =~= old(self).remaining().skip(1));
            }
            w
        } else {
            PollWait::Failed(SCRIPT_SPENT)
        }
    }
}

/// Copy one scripted outcome out of the script.
fn clone_poll_wait(w: &PollWait) -> (r: PollWait)
    ensures
        r@ == w@,
{
    match w {
        PollWait::Events(es) => {
            let mut out: Vec<Event> = Vec::new();
            let mut i: usize = 0;
            while i < es.len()
                invariant
                    i <= es@.len(),
                    out@ == es@.take(i as int),
                decreases es@.len() - i,
            {
                out.push(es[i]);
                proof {
                    assert(out@ =~= es@.take(i + 1 as int));
                }
                i = i + 1;
            }
            proof {
                assert(es@.take(es@.len() as int) =~= es@);
            }
            PollWait::Events(out)
        },
        PollWait::Failed(e) => PollWait::Failed(*e),
    }
}

/// Message delivered by the sleeper: the recipient's registered file
/// descriptor is ready, with the kernel's event mask.
#[derive(Debug, Clone, Copy, PartialEq, Eq, Structural)]
pub struct WakeUp(pub u32);

impl View for WakeUp {
    type V = u32;

    open spec fn view(&self) -> u32 {
        self.0
    }
}

impl Message for WakeUp {
    open spec fn tag_spec() -> u64 {
        0x2
    }

    open spec fn enc_spec(v: u32) -> Seq<u8> {
        spec_u32_to_le_bytes(v)
    }

    open spec fn dec_spec(b: Seq<u8>) -> Option<u32> {
        if b.len() == 4 {
            Some(spec_u32_from_le_bytes(b))
        } else {
            None
        }
    }

    proof fn lemma_round_trip(v: u32) {
        lemma_auto_spec_u32_to_from_le_bytes();
    }

    fn tag() -> u64 {
        0x2
    }

    fn encode(self) -> Vec<u8> {
        u32_to_le_bytes(self.0)
    }

    fn decode(data: &[u8]) -> Option<WakeUp> {
        if data.len() == 4 {
            Some(WakeUp(u32_from_le_bytes(data)))
        } else {
            None
        }
    }
}

} // verus!
