use corun::dispatch::{
    Coroutine, Dispatcher, ExitReason, ProcessExit, ProcessYield, ResumeArg, Step,
};
use corun::message::Envelope;
use corun::net::{
    take_line, AcceptOutcome, Acceptor, Closed, ConnInfo, Line, LineReader, Listener,
    ScriptedRead, ScriptedSource,
};
use corun::poll::{Event, PollWait, ScriptedPoller, EVENT_IN};
use corun::Cid;

#[test]
fn take_line_without_newline() {
    let mut buf = b"partial".to_vec();
    assert!(take_line(&mut buf).is_none());
    assert_eq!(buf, b"partial");
}

#[test]
fn take_line_splits_on_first_newline() {
    let mut buf = b"one\ntwo\n".to_vec();
    let line = take_line(&mut buf).unwrap();
    assert_eq!(line, b"one");
    assert_eq!(buf, b"two\n");
    let line = take_line(&mut buf).unwrap();
    assert_eq!(line, b"two");
    assert_eq!(buf, b"");
    assert!(take_line(&mut buf).is_none());
}

#[test]
fn take_line_empty_line() {
    let mut buf = b"\nrest".to_vec();
    let line = take_line(&mut buf).unwrap();
    assert_eq!(line, b"");
    assert_eq!(buf, b"rest");
}

/// Collects `Line` messages; on `Closed` it terminates, with code 1 when the
/// collected lines match `expect` joined by '|', else code 2.
enum Sink {
    Collect { got: String, expect: &'static str },
}

enum Reader {
    Lines(LineReader<ScriptedSource>),
    Sink(Sink),
    /// Spawns a line reader for each accepted connection (the scripted bytes
    /// stand in for the connection's socket), reporting to `to`.
    Handler { to: Cid, bytes: &'static [u8] },
    Listen(Listener<OneShotAcceptor>),
}

impl Coroutine for Reader {
    fn resume(&mut self, self_id: Cid, arg: ResumeArg) -> Step<Reader> {
        match self {
            Reader::Lines(lr) => match lr.resume(self_id, arg) {
                Step::Yielded(ProcessYield::Empty) => Step::Yielded(ProcessYield::Empty),
                Step::Yielded(ProcessYield::Io) => Step::Yielded(ProcessYield::Io),
                Step::Yielded(ProcessYield::Send(to, env)) => {
                    Step::Yielded(ProcessYield::Send(to, env))
                }
                Step::Yielded(ProcessYield::Spawn(_)) => unreachable!(),
                Step::Complete(e) => Step::Complete(e),
            },
            Reader::Sink(Sink::Collect { got, expect }) => match arg {
                ResumeArg::Message(env) => {
                    let env = match env.unpack::<Line>() {
                        Ok(Line(text)) => {
                            if !got.is_empty() {
                                got.push('|');
                            }
                            got.push_str(&text);
                            return Step::Yielded(ProcessYield::Io);
                        }
                        Err(env) => env,
                    };
                    match env.unpack::<Closed>() {
                        Ok(Closed) => {
                            let code = if got == *expect { 1 } else { 2 };
                            Step::Complete(ProcessExit::Terminate(ExitReason {
                                code,
                                msg: "sink done",
                            }))
                        }
                        Err(_) => Step::Yielded(ProcessYield::Io),
                    }
                }
                _ => Step::Yielded(ProcessYield::Io),
            },
            Reader::Handler { to, bytes } => match arg {
                ResumeArg::Message(env) => match env.unpack::<ConnInfo>() {
                    Ok(_conn) => {
                        let source = ScriptedSource::new(vec![
                            ScriptedRead::Chunk(bytes.to_vec()),
                            ScriptedRead::End,
                        ]);
                        Step::Yielded(ProcessYield::Spawn(Reader::Lines(LineReader::new(
                            source, *to,
                        ))))
                    }
                    Err(_) => Step::Yielded(ProcessYield::Io),
                },
                ResumeArg::Spawned(reader) => {
                    // simulate kernel readiness on the new connection
                    Step::Yielded(ProcessYield::Send(
                        reader,
                        Envelope::pack(corun::poll::WakeUp(EVENT_IN)),
                    ))
                }
                _ => Step::Yielded(ProcessYield::Io),
            },
            Reader::Listen(l) => match l.resume(self_id, arg) {
                Step::Yielded(ProcessYield::Empty) => Step::Yielded(ProcessYield::Empty),
                Step::Yielded(ProcessYield::Io) => Step::Yielded(ProcessYield::Io),
                Step::Yielded(ProcessYield::Send(to, env)) => {
                    Step::Yielded(ProcessYield::Send(to, env))
                }
                Step::Yielded(ProcessYield::Spawn(_)) => unreachable!(),
                Step::Complete(e) => Step::Complete(e),
            },
        }
    }
}

struct OneShotAcceptor {
    conn: Option<ConnInfo>,
}

impl Acceptor for OneShotAcceptor {
    fn accept(&mut self) -> AcceptOutcome {
        match self.conn.take() {
            Some(c) => AcceptOutcome::Conn(c),
            None => AcceptOutcome::WouldBlock,
        }
    }
}

#[test]
fn reader_emits_lines_then_closed() {
    let mut d: Dispatcher<Reader> = Dispatcher::new();
    let sink = d.spawn(Reader::Sink(Sink::Collect {
        got: String::new(),
        expect: "hi|there",
    }));
    let source = ScriptedSource::new(vec![
        ScriptedRead::Chunk(b"hi\nth".to_vec()),
        ScriptedRead::Block,
        ScriptedRead::Chunk(b"ere\n".to_vec()),
        ScriptedRead::End,
    ]);
    let reader = d.spawn(Reader::Lines(LineReader::new(source, sink)));
    // wake the reader three times: chunk+block, chunk, end
    let ev = |cid: Cid| PollWait::Events(vec![Event { events: EVENT_IN, data: cid.as_ffi() }]);
    let mut poller = ScriptedPoller::new(vec![ev(reader), ev(reader), ev(reader)]);
    let r = d.run(&mut poller, 1000).unwrap();
    assert_eq!(r.msg, "sink done");
    assert_eq!(r.code, 1);
}

#[test]
fn reader_drops_invalid_utf8_line() {
    let mut d: Dispatcher<Reader> = Dispatcher::new();
    let sink = d.spawn(Reader::Sink(Sink::Collect {
        got: String::new(),
        expect: "ok",
    }));
    let source = ScriptedSource::new(vec![
        ScriptedRead::Chunk(vec![0xFF, 0xFE, b'\n', b'o', b'k', b'\n']),
        ScriptedRead::End,
    ]);
    let reader = d.spawn(Reader::Lines(LineReader::new(source, sink)));
    let ev = PollWait::Events(vec![Event { events: EVENT_IN, data: reader.as_ffi() }]);
    let mut poller = ScriptedPoller::new(vec![ev]);
    let r = d.run(&mut poller, 1000).unwrap();
    assert_eq!(r.code, 1);
}

#[test]
fn listener_hands_connection_to_handler() {
    // accept -> handler spawns a reader over the connection's bytes ->
    // sink sees the line and the close
    let mut d: Dispatcher<Reader> = Dispatcher::new();
    let sink = d.spawn(Reader::Sink(Sink::Collect {
        got: String::new(),
        expect: "hi",
    }));
    let handler = d.spawn(Reader::Handler { to: sink, bytes: b"hi\n" });
    let acceptor = OneShotAcceptor {
        conn: Some(ConnInfo { fd: 5, addr: 0x7F00_0001, port: 4000 }),
    };
    let listener = d.spawn(Reader::Listen(Listener::new(acceptor, handler)));
    // one wakeup on the listener accepts the connection; the spawned reader
    // then gets its own wakeup
    let mut poller = ScriptedPoller::new(vec![PollWait::Events(vec![Event {
        events: EVENT_IN,
        data: listener.as_ffi(),
    }])]);
    let r = d.run(&mut poller, 1000).unwrap();
    assert_eq!(r.msg, "sink done");
    assert_eq!(r.code, 1);
}
