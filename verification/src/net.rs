//! Network collaborators: a line-framed reader and a connection listener.
//!
//! Both are processes over the runtime. The reader owns a byte source (a
//! connected socket in the embedding, a script in tests), collects bytes on
//! every wakeup, and emits one [`Line`] per complete newline-terminated line
//! and one [`Closed`] at end of input. The listener owns an acceptor and
//! emits one [`ConnInfo`] per accepted connection. The kernel-facing half of
//! either — the non-blocking `recv` and `accept` calls — lives behind the
//! [`ByteSource`] and [`Acceptor`] traits, which promise nothing: the
//! processes are verified against every outcome.

use crate::cid::Cid;
use crate::dispatch::Coroutine;
use crate::dispatch::ProcessExit;
use crate::dispatch::ProcessYield;
use crate::dispatch::ResumeArg;
use crate::dispatch::Step;
use crate::message::Envelope;
use crate::message::Message;
use vstd::bytes::*;
use vstd::prelude::*;
use vstd::utf8::*;

verus! {

/// One complete line received on a connection, newline removed.
#[derive(Debug)]
pub struct Line(pub String);

impl View for Line {
    type V = Seq<char>;

    open spec fn view(&self) -> Seq<char> {
        self.0@
    }
}

impl Message for Line {
    open spec fn tag_spec() -> u64 {
        0x3
    }

    open spec fn enc_spec(v: Seq<char>) -> Seq<u8> {
        encode_utf8(v)
    }

    open spec fn dec_spec(b: Seq<u8>) -> Option<Seq<char>> {
        if valid_utf8(b) {
            Some(decode_utf8(b))
        } else {
            None
        }
    }

    proof fn lemma_round_trip(v: Seq<char>) {
        encode_utf8_valid_utf8(v);
        encode_utf8_decode_utf8(v);
    }

    fn tag() -> u64 {
        0x3
    }

    fn encode(self) -> Vec<u8> {
        self.0.encode()
    }

    fn decode(data: &[u8]) -> Option<Line> {
        match String::decode(data) {
            Some(s) => Some(Line(s)),
            None => None,
        }
    }
}

/// The connection reached end of input and the reader is gone.
#[derive(Debug, Clone, Copy, PartialEq, Eq, Structural)]
pub struct Closed;

impl View for Closed {
    type V = ();

    open spec fn view(&self) -> () {
        ()
    }
}

impl Message for Closed {
    open spec fn tag_spec() -> u64 {
        0x4
    }

    open spec fn enc_spec(v: ()) -> Seq<u8> {
        Seq::empty()
    }

    open spec fn dec_spec(b: Seq<u8>) -> Option<()> {
        if b.len() == 0 {
            Some(())
        } else {
            None
        }
    }

    proof fn lemma_round_trip(v: ()) {
    }

    fn tag() -> u64 {
        0x4
    }

    fn encode(self) -> (r: Vec<u8>) {
        let r: Vec<u8> = Vec::new();
        r
    }

    fn decode(data: &[u8]) -> Option<Closed> {
        if data.len() == 0 {
            Some(Closed)
        } else {
            None
        }
    }
}

/// An accepted connection, as plain values: the descriptor, and the remote
/// IPv4 address and port.
#[derive(Debug, Clone, Copy, PartialEq, Eq, Structural)]
pub struct ConnInfo {
    pub fd: i32,
    pub addr: u32,
    pub port: u16,
}

impl View for ConnInfo {
    type V = ConnInfo;

    open spec fn view(&self) -> ConnInfo {
        *self
    }
}

impl Message for ConnInfo {
    open spec fn tag_spec() -> u64 {
        0x5
    }

    open spec fn enc_spec(v: ConnInfo) -> Seq<u8> {
        spec_u32_to_le_bytes(v.fd as u32) + spec_u32_to_le_bytes(v.addr) + spec_u16_to_le_bytes(
            v.port,
        )
    }

    open spec fn dec_spec(b: Seq<u8>) -> Option<ConnInfo> {
        if b.len() == 10 {
            Some(
                ConnInfo {
                    fd: spec_u32_from_le_bytes(b.subrange(0, 4)) as i32,
                    addr: spec_u32_from_le_bytes(b.subrange(4, 8)),
                    port: spec_u16_from_le_bytes(b.subrange(8, 10)),
                },
            )
        } else {
            None
        }
    }

    proof fn lemma_round_trip(v: ConnInfo) {
        lemma_auto_spec_u32_to_from_le_bytes();
        lemma_auto_spec_u16_to_from_le_bytes();
        let b = Self::enc_spec(v);
        assert(b.subrange(0, 4) =~= spec_u32_to_le_bytes(v.fd as u32));
        assert(b.subrange(4, 8) =~= spec_u32_to_le_bytes(v.addr));
        assert(b.subrange(8, 10) =~= spec_u16_to_le_bytes(v.port));
        let f = v.fd;
        assert(((f as u32) as i32) == f) by (bit_vector);
    }

    fn tag() -> u64 {
        0x5
    }

    fn encode(self) -> (r: Vec<u8>) {
        let mut r = u32_to_le_bytes(self.fd as u32);
        let mut a = u32_to_le_bytes(self.addr);
        let mut p = u16_to_le_bytes(self.port);
        r.append(&mut a);
        r.append(&mut p);
        r
    }

    fn decode(data: &[u8]) -> (r: Option<ConnInfo>)
    {
        if data.len() == 10 {
            let fd_part = slice_range(data, 0, 4);
            let addr_part = slice_range(data, 4, 8);
            let port_part = slice_range(data, 8, 10);
            Some(
                ConnInfo {
                    fd: u32_from_le_bytes(fd_part) as i32,
                    addr: u32_from_le_bytes(addr_part),
                    port: u16_from_le_bytes(port_part),
                },
            )
        } else {
            None
        }
    }
}

/// The prefix `s[from..to]` of a byte slice.
fn slice_range<'a>(s: &'a [u8], from: usize, to: usize) -> (r: &'a [u8])
    requires
        from <= to <= s@.len(),
    ensures
        r@ == s@.subrange(from as int, to as int),
{
    &s[from..to]
}

/// The index of the first newline byte in `s`, or `s.len()` when there is
/// none.
pub open spec fn first_nl(s: Seq<u8>) -> int
    decreases s.len(),
{
    if s.len() == 0 {
        0
    } else if s[0] == 10 {
        0
    } else {
        1 + first_nl(s.skip(1))
    }
}

/// The first-newline position lies within the buffer, one past its end when
/// there is no newline.
proof fn lemma_first_nl_range(s: Seq<u8>)
    ensures
        0 <= first_nl(s) <= s.len(),
    decreases s.len(),
{
    if s.len() != 0 && s[0] != 10 {
        lemma_first_nl_range(s.skip(1));
    }
}

/// `first_nl` is exactly the position of the first newline: everything
/// before it is not a newline, and it is a newline unless there is none.
proof fn lemma_first_nl(s: Seq<u8>, i: int)
    requires
        0 <= i <= s.len(),
        forall|j: int| 0 <= j < i ==> s[j] != 10,
        i < s.len() ==> s[i] == 10,
    ensures
        first_nl(s) == i,
    decreases i,
{
    if s.len() == 0 {
    } else if s[0] == 10 {
        assert(i == 0);
    } else {
        assert(i >= 1);
        lemma_first_nl(s.skip(1), i - 1);
    }
}

/// The first newline-terminated line of `s` that is valid UTF-8, together
/// with what remains after it; complete lines that are not valid UTF-8 are
/// passed over.
pub open spec fn first_valid_line(s: Seq<u8>) -> Option<(Seq<u8>, Seq<u8>)>
    decreases s.len(),
{
    let i = first_nl(s);
    if !(0 <= i < s.len()) {
        None
    } else if valid_utf8(s.take(i)) {
        Some((s.take(i), s.skip(i + 1)))
    } else {
        first_valid_line(s.skip(i + 1))
    }
}

/// What remains of `s` once every complete line is taken off the front: the
/// trailing bytes with no newline among them.
pub open spec fn line_residue(s: Seq<u8>) -> Seq<u8>
    decreases s.len(),
{
    let i = first_nl(s);
    if !(0 <= i < s.len()) {
        s
    } else {
        line_residue(s.skip(i + 1))
    }
}

/// A line that `first_valid_line` yields is valid UTF-8, by construction.
proof fn lemma_first_valid_line_valid(s: Seq<u8>)
    ensures
        first_valid_line(s) matches Some(p) ==> valid_utf8(p.0),
    decreases s.len(),
{
    lemma_first_nl_range(s);
    let i = first_nl(s);
    if 0 <= i < s.len() && !valid_utf8(s.take(i)) {
        lemma_first_valid_line_valid(s.skip(i + 1));
    }
}

/// Split the first complete line off the front of `buf`: when the buffer
/// holds a newline, the bytes before the first one come out and the buffer
/// keeps what follows it; without a newline nothing changes.
pub fn take_line(buf: &mut Vec<u8>) -> (r: Option<Vec<u8>>)
    ensures
        first_nl(old(buf)@) < old(buf)@.len() ==> (r matches Some(line) && line@ == old(
            buf,
        )@.take(first_nl(old(buf)@)) && final(buf)@ == old(buf)@.skip(first_nl(old(buf)@) + 1)),
        first_nl(old(buf)@) == old(buf)@.len() ==> r is None && final(buf)@ == old(buf)@,
{
    let mut i: usize = 0;
    let mut found = false;
    while i < buf.len() && !found
        invariant
            i <= buf@.len(),
            buf@ == old(buf)@,
            forall|j: int| 0 <= j < i ==> buf@[j] != 10,
            found ==> i < buf@.len() && buf@[i as int] == 10,
        decreases buf@.len() - i, (if found {
            0int
        } else {
            1int
        }),
    {
        if buf[i] == 10 {
            found = true;
        } else {
            i = i + 1;
        }
    }
    proof {
        lemma_first_nl(buf@, i as int);
    }
    if found {
        let mut rest = buf.split_off(i + 1);
        buf.pop();
        core::mem::swap(buf, &mut rest);
        proof {
            assert(rest@ =~= old(buf)@.take(i as int));
            assert(buf@ =~= old(buf)@.skip(i + 1));
        }
        Some(rest)
    } else {
        None
    }
}

/// What one non-blocking read from a byte source produced.
pub enum RecvOutcome {
    /// Nothing to read right now; wait for the next wakeup.
    WouldBlock,
    /// Bytes were appended to the buffer.
    Data,
    /// End of input.
    End,
}

/// A non-blocking byte source: one read appends whatever is available to the
/// buffer. Nothing is promised of it; the reader is verified against every
/// outcome and buffer content.
pub trait ByteSource {
    /// Read once without blocking, appending any bytes to `buf`.
    fn recv_into(&mut self, buf: &mut Vec<u8>) -> RecvOutcome;
}

/// A byte source that replays a fixed script, for deterministic runs. Each
/// scripted item is one read's outcome; after the script ends every read
/// reports the end of input.
pub struct ScriptedSource {
    script: Vec<ScriptedRead>,
    next: usize,
}

/// One scripted read outcome.
pub enum ScriptedRead {
    /// These bytes arrive.
    Chunk(Vec<u8>),
    /// The read would block.
    Block,
    /// End of input.
    End,
}

impl ScriptedSource {
    /// A source that replays `script` in order.
    pub fn new(script: Vec<ScriptedRead>) -> ScriptedSource {
        ScriptedSource { script, next: 0 }
    }
}

impl ByteSource for ScriptedSource {
    fn recv_into(&mut self, buf: &mut Vec<u8>) -> RecvOutcome {
        if self.next < self.script.len() {
            let item = &self.script[self.next];
            self.next = self.next + 1;
            match item {
                ScriptedRead::Chunk(bytes) => {
                    let mut i: usize = 0;
                    while i < bytes.len()
                        invariant
                            i <= bytes@.len(),
                        decreases bytes@.len() - i,
                    {
                        buf.push(bytes[i]);
                        i = i + 1;
                    }
                    RecvOutcome::Data
                },
                ScriptedRead::Block => RecvOutcome::WouldBlock,
                ScriptedRead::End => RecvOutcome::End,
            }
        } else {
            RecvOutcome::End
        }
    }
}

/// How many reads one wakeup may make before the reader yields and waits for
/// its next turn. The bound exists so that every turn provably ends.
pub const READ_BUDGET: u64 = 0xFFFF_FFFF;

/// A line-framed reader process: on every wakeup it reads without blocking,
/// splits its buffer on newline bytes, and sends one `Line` per complete
/// line to `receiver`; lines that are not valid UTF-8 are dropped. At end of
/// input it sends `Closed` and completes.
pub struct LineReader<S: ByteSource> {
    source: S,
    receiver: Cid,
    buf: Vec<u8>,
    started: bool,
    closing: bool,
}

impl<S: ByteSource> LineReader<S> {
    /// Whether the priming resumption has happened.
    pub closed spec fn spec_started(self) -> bool {
        self.started
    }

    /// Whether end of input was seen and `Closed` sent: the next resumption
    /// completes with `Done`.
    pub closed spec fn spec_closing(self) -> bool {
        self.closing
    }

    /// The address `Line` and `Closed` messages go to.
    pub closed spec fn spec_receiver(self) -> Cid {
        self.receiver
    }

    /// The bytes received and not yet emitted as lines.
    pub closed spec fn buffered(self) -> Seq<u8> {
        self.buf@
    }

    /// A reader over `source` that reports to `receiver`.
    pub fn new(source: S, receiver: Cid) -> (r: LineReader<S>)
        ensures
            !r.spec_started(),
            !r.spec_closing(),
            r.spec_receiver() == receiver,
            r.buffered().len() == 0,
    {
        LineReader { source, receiver, buf: Vec::new(), started: false, closing: false }
    }

    /// Emit the buffer's first complete line that is valid UTF-8, dropping
    /// complete lines that are not, as a `Line` message to the receiver;
    /// `None` when no complete line is left.
    fn next_line(&mut self) -> (r: Option<Step<LineReader<S>>>)
        ensures
            final(self).receiver == old(self).receiver,
            final(self).closing == old(self).closing,
            final(self).started == old(self).started,
            match first_valid_line(old(self).buf@) {
                Some(p) => (r matches Some(step) && step matches Step::Yielded(y) && y matches ProcessYield::Send(to, env) && to == old(self).receiver && env.tag_of() == <Line as Message>::tag_spec() && env.bytes() == p.0) && final(self).buf@ == p.1,
                None => r is None && final(self).buf@ == line_residue(old(self).buf@),
            },
    {
        loop
            invariant
                self.receiver == old(self).receiver,
                self.closing == old(self).closing,
                self.started == old(self).started,
                first_valid_line(self.buf@) == first_valid_line(old(self).buf@),
                line_residue(self.buf@) == line_residue(old(self).buf@),
            decreases self.buf@.len(),
        {
            let ghost pre = self.buf@;
            proof {
                lemma_first_nl_range(pre);
            }
            let line = take_line(&mut self.buf);
            match line {
                None => {
                    return None;
                },
                Some(bytes) => {
                    match String::decode(bytes.as_slice()) {
                        Some(text) => {
                            proof {
                                vstd::utf8::decode_utf8_encode_utf8(bytes@);
                            }
                            return Some(
                                Step::Yielded(
                                    ProcessYield::Send(self.receiver, Envelope::pack(Line(text))),
                                ),
                            );
                        },
                        None => {
                            // not UTF-8: drop the line, look for the next
                        },
                    }
                },
            }
        }
    }

    /// Apply the outcome of one non-blocking read. Nothing to read parks the
    /// reader; end of input sends `Closed` to the receiver and marks the
    /// reader closing; fresh data yields the buffer's first complete valid
    /// line when one is there. `None` asks for another read.
    fn apply_read(&mut self, outcome: RecvOutcome) -> (r: Option<Step<LineReader<S>>>)
        ensures
            final(self).receiver == old(self).receiver,
            final(self).started == old(self).started,
            outcome is WouldBlock ==> (r matches Some(step) && step matches Step::Yielded(y)
                && y is Io) && final(self).closing == old(self).closing && final(self).buf@ == old(self).buf@,
            outcome is End ==> (r matches Some(step) && step matches Step::Yielded(y) && y matches ProcessYield::Send(to, env) && to == old(self).receiver && env.tag_of() == <Closed as Message>::tag_spec() && env.bytes().len() == 0) && final(self).closing,
            outcome is Data ==> final(self).closing == old(self).closing && (match first_valid_line(
                old(self).buf@,
            ) {
                Some(p) => (r matches Some(step) && step matches Step::Yielded(y) && y matches ProcessYield::Send(to, env) && to == old(self).receiver && env.tag_of() == <Line as Message>::tag_spec() && env.bytes() == p.0) && final(self).buf@ == p.1,
                None => r is None && final(self).buf@ == line_residue(old(self).buf@),
            }),
    {
        match outcome {
            RecvOutcome::WouldBlock => Some(Step::Yielded(ProcessYield::Io)),
            RecvOutcome::End => {
                self.closing = true;
                Some(Step::Yielded(ProcessYield::Send(self.receiver, Envelope::pack(Closed))))
            },
            RecvOutcome::Data => self.next_line(),
        }
    }
}

impl<S: ByteSource> Coroutine for LineReader<S> {
    /// One turn of the reader. The priming resumption parks it; once closing,
    /// it completes. Otherwise it emits the buffer's first complete valid
    /// line if one is already there, and else reads from its source until it
    /// has a line to send (`Line`), sees end of input (`Closed`, entering the
    /// closing state), or would block (`Io`); a read budget past any real
    /// turn bounds the loop, yielding `Empty` if ever spent. It never asks to
    /// spawn.
    #[verifier::loop_isolation(false)]
    fn resume(&mut self, self_id: Cid, arg: ResumeArg) -> (r: Step<LineReader<S>>)
        ensures
            final(self).spec_receiver() == old(self).spec_receiver(),
            final(self).spec_started(),
            !old(self).spec_started() ==> (r matches Step::Yielded(y) && y is Io) && final(self).spec_closing() == old(self).spec_closing() && final(self).buffered() == old(self).buffered(),
            old(self).spec_started() && old(self).spec_closing() ==> (r matches Step::Complete(e)
                && e is Done) && final(self).spec_closing() && final(self).buffered() == old(self).buffered(),
            old(self).spec_started() && !old(self).spec_closing() ==> (match first_valid_line(
                old(self).buffered(),
            ) {
                Some(p) => (r matches Step::Yielded(y) && y matches ProcessYield::Send(to, env)
                    && to == old(self).spec_receiver() && env.tag_of()
                    == <Line as Message>::tag_spec() && env.bytes() == p.0) && final(self).buffered() == p.1 && !final(self).spec_closing(),
                None => true,
            }),
            old(self).spec_started() && !old(self).spec_closing() ==> ({
                ||| (r matches Step::Yielded(y) && y matches ProcessYield::Send(to, env) && to
                    == old(self).spec_receiver() && ((env.tag_of() == <Line as Message>::tag_spec()
                    && valid_utf8(env.bytes()) && !final(self).spec_closing()) || (env.tag_of()
                    == <Closed as Message>::tag_spec() && env.bytes().len() == 0 && final(self).spec_closing())))
                ||| (r matches Step::Yielded(y) && y is Io && !final(self).spec_closing())
                ||| (r matches Step::Yielded(y) && y is Empty && !final(self).spec_closing())
            }),
            !(r matches Step::Yielded(y) && y is Spawn),
    {
        if !self.started {
            // the priming resume: park until the first wakeup
            self.started = true;
            return Step::Yielded(ProcessYield::Io);
        }
        if self.closing {
            return Step::Complete(ProcessExit::Done);
        }
        proof {
            lemma_first_valid_line_valid(self.buf@);
        }
        if let Some(step) = self.next_line() {
            return step;
        }
        let mut budget: u64 = READ_BUDGET;
        while budget > 0
            invariant
                self.started,
                !self.closing,
                self.receiver == old(self).receiver,
            decreases budget,
        {
            budget = budget - 1;
            let ghost pre_buf = self.buf@;
            let outcome = self.source.recv_into(&mut self.buf);
            proof {
                lemma_first_valid_line_valid(self.buf@);
            }
            match self.apply_read(outcome) {
                Some(step) => {
                    return step;
                },
                None => {},
            }
        }
        Step::Yielded(ProcessYield::Empty)
    }
}

/// What one non-blocking accept produced.
pub enum AcceptOutcome {
    /// No pending connection; wait for the next wakeup.
    WouldBlock,
    /// A connection was accepted.
    Conn(ConnInfo),
}

/// A non-blocking connection acceptor. Nothing is promised of it; the
/// listener is verified against every outcome.
pub trait Acceptor {
    /// Accept one pending connection without blocking.
    fn accept(&mut self) -> AcceptOutcome;
}

/// A listener process: on every wakeup it accepts pending connections one by
/// one, sending each to `receiver` as a `ConnInfo` message, and parks when
/// the kernel has no more.
pub struct Listener<A: Acceptor> {
    acceptor: A,
    receiver: Cid,
    started: bool,
}

impl<A: Acceptor> Listener<A> {
    /// Whether the priming resumption has happened.
    pub closed spec fn spec_started(self) -> bool {
        self.started
    }

    /// The address accepted connections go to.
    pub closed spec fn spec_receiver(self) -> Cid {
        self.receiver
    }

    /// A listener over `acceptor` that reports to `receiver`.
    pub fn new(acceptor: A, receiver: Cid) -> (r: Listener<A>)
        ensures
            !r.spec_started(),
            r.spec_receiver() == receiver,
    {
        Listener { acceptor, receiver, started: false }
    }

    /// Apply the outcome of one non-blocking accept: no pending connection
    /// parks the listener; an accepted connection goes to the receiver as a
    /// `ConnInfo` message.
    fn apply_accept(&self, outcome: AcceptOutcome) -> (r: Step<Listener<A>>)
        ensures
            outcome is WouldBlock ==> (r matches Step::Yielded(y) && y is Io),
            outcome matches AcceptOutcome::Conn(c) ==> (r matches Step::Yielded(y) && y matches ProcessYield::Send(to, env) && to == self.receiver && env.tag_of() == <ConnInfo as Message>::tag_spec() && env.bytes() == <ConnInfo as Message>::enc_spec(c)),
    {
        match outcome {
            AcceptOutcome::WouldBlock => Step::Yielded(ProcessYield::Io),
            AcceptOutcome::Conn(c) => Step::Yielded(
                ProcessYield::Send(self.receiver, Envelope::pack(c)),
            ),
        }
    }
}

impl<A: Acceptor> Coroutine for Listener<A> {
    /// One turn of the listener. The priming resumption parks it; afterwards
    /// every turn makes one non-blocking accept, sending an accepted
    /// connection to the receiver as a `ConnInfo` message, or parking with
    /// `Io` when none is pending. The dispatcher continues a sending turn in
    /// place, so one wakeup drains the pending connections until the accept
    /// would block.
    fn resume(&mut self, self_id: Cid, arg: ResumeArg) -> (r: Step<Listener<A>>)
        ensures
            final(self).spec_receiver() == old(self).spec_receiver(),
            final(self).spec_started(),
            !old(self).spec_started() ==> (r matches Step::Yielded(y) && y is Io),
            old(self).spec_started() ==> ((r matches Step::Yielded(y) && y is Io) || (
            r matches Step::Yielded(y) && y matches ProcessYield::Send(to, env) && to == old(self).spec_receiver() && env.tag_of() == <ConnInfo as Message>::tag_spec()
                && exists|c: ConnInfo| env.bytes() == <ConnInfo as Message>::enc_spec(c))),
    {
        if !self.started {
            // the priming resume: park until the first wakeup
            self.started = true;
            return Step::Yielded(ProcessYield::Io);
        }
        let outcome = self.acceptor.accept();
        self.apply_accept(outcome)
    }
}

} // verus!
