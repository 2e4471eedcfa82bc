use corun::dispatch::{
    Coroutine, Dispatcher, ProcessExit, ProcessYield, ResumeArg, Step,
};
use corun::message::Envelope;
use corun::poll::{Event, PollWait, ScriptedPoller, WakeUp, EVENT_IN};
use corun::Cid;

/// Test processes, one enum so the dispatcher can own them all.
enum Proc {
    /// Folds every u32 it receives into `acc` (base-10 digits); a `Closed`-free
    /// flush is signalled by the value 0: it terminates with code == acc.
    Collector { acc: i32 },
    /// Forwards every envelope to `to`, then parks again.
    Forwarder { to: Cid },
    /// Terminates with code = flags of the first WakeUp it receives.
    WakeWaiter,
    /// Completes immediately, already at the priming resume.
    Immediate,
    /// Yields Empty `left` times, then terminates with code = number of turns.
    Yielder { left: i32, turns: i32 },
    /// On the first message, spawns a Collector child, forwards the message's
    /// value to it, then sends the flush. Exercises spawn-in-handler.
    Spawner { child: Option<Cid>, pending: Option<u32>, flushing: bool },
    /// On its start message, sends 1..=n and then the flush to `to`, all in
    /// one turn: a producer runs to its natural suspension point without
    /// being preempted.
    Burst { to: Cid, n: u32, next: u32 },
}

impl Coroutine for Proc {
    fn resume(&mut self, _self_id: Cid, arg: ResumeArg) -> Step<Proc> {
        match self {
            Proc::Collector { acc } => match arg {
                ResumeArg::Message(env) => match env.unpack::<u32>() {
                    Ok(0) => Step::Complete(ProcessExit::Terminate(corun::dispatch::ExitReason {
                        code: *acc,
                        msg: "done",
                    })),
                    Ok(v) => {
                        *acc = *acc * 10 + v as i32;
                        Step::Yielded(ProcessYield::Io)
                    }
                    Err(_) => Step::Yielded(ProcessYield::Io),
                },
                _ => Step::Yielded(ProcessYield::Io),
            },
            Proc::Forwarder { to } => match arg {
                ResumeArg::Message(env) => Step::Yielded(ProcessYield::Send(*to, env)),
                _ => Step::Yielded(ProcessYield::Io),
            },
            Proc::WakeWaiter => match arg {
                ResumeArg::Message(env) => match env.unpack::<WakeUp>() {
                    Ok(WakeUp(flags)) => Step::Complete(ProcessExit::Terminate(
                        corun::dispatch::ExitReason { code: flags as i32, msg: "woke" },
                    )),
                    Err(_) => Step::Yielded(ProcessYield::Io),
                },
                _ => Step::Yielded(ProcessYield::Io),
            },
            Proc::Immediate => Step::Complete(ProcessExit::Done),
            Proc::Yielder { left, turns } => {
                if matches!(arg, ResumeArg::Empty) {
                    *turns += 1;
                }
                if *left > 0 {
                    *left -= 1;
                    Step::Yielded(ProcessYield::Empty)
                } else {
                    Step::Complete(ProcessExit::Terminate(corun::dispatch::ExitReason {
                        code: *turns,
                        msg: "yielded out",
                    }))
                }
            }
            Proc::Burst { to, n, next } => {
                if matches!(arg, ResumeArg::Message(_)) && *next == 0 {
                    *next = 1;
                }
                if *next == 0 {
                    Step::Yielded(ProcessYield::Io)
                } else if *next <= *n {
                    let v = *next;
                    *next += 1;
                    Step::Yielded(ProcessYield::Send(*to, Envelope::pack(v)))
                } else if *next == *n + 1 {
                    *next += 1;
                    Step::Yielded(ProcessYield::Send(*to, Envelope::pack(0u32)))
                } else {
                    Step::Yielded(ProcessYield::Io)
                }
            }
            Proc::Spawner { child, pending, flushing } => match arg {
                ResumeArg::Message(env) => match env.unpack::<u32>() {
                    Ok(v) => {
                        *pending = Some(v);
                        Step::Yielded(ProcessYield::Spawn(Proc::Collector { acc: 0 }))
                    }
                    Err(_) => Step::Yielded(ProcessYield::Io),
                },
                ResumeArg::Spawned(cid) => {
                    *child = Some(cid);
                    let v = pending.take().unwrap();
                    *flushing = true;
                    Step::Yielded(ProcessYield::Send(cid, Envelope::pack(v)))
                }
                ResumeArg::Empty => {
                    if *flushing {
                        *flushing = false;
                        Step::Yielded(ProcessYield::Send(child.unwrap(), Envelope::pack(0u32)))
                    } else {
                        Step::Yielded(ProcessYield::Io)
                    }
                }
            },
        }
    }
}

fn empty_poller() -> ScriptedPoller {
    ScriptedPoller::new(vec![])
}

#[test]
fn message_reaches_live_process() {
    let mut d: Dispatcher<Proc> = Dispatcher::new();
    let c = d.spawn(Proc::Collector { acc: 0 });
    d.send(c, Envelope::pack(7u32));
    d.send(c, Envelope::pack(0u32));
    let r = d.run(&mut empty_poller(), 1000).unwrap();
    assert_eq!(r.code, 7);
    assert_eq!(r.msg, "done");
}

#[test]
fn per_sender_order_is_kept() {
    // the collector folds digits, so code 123 proves delivery order 1,2,3
    let mut d: Dispatcher<Proc> = Dispatcher::new();
    let c = d.spawn(Proc::Collector { acc: 0 });
    d.send(c, Envelope::pack(1u32));
    d.send(c, Envelope::pack(2u32));
    d.send(c, Envelope::pack(3u32));
    d.send(c, Envelope::pack(0u32));
    let r = d.run(&mut empty_poller(), 1000).unwrap();
    assert_eq!(r.code, 123);
}

#[test]
fn forwarding_preserves_order() {
    // two senders' streams reach the collector through a forwarder; each
    // stream's internal order is kept
    let mut d: Dispatcher<Proc> = Dispatcher::new();
    let c = d.spawn(Proc::Collector { acc: 0 });
    let f = d.spawn(Proc::Forwarder { to: c });
    d.send(f, Envelope::pack(4u32));
    d.send(f, Envelope::pack(5u32));
    d.send(f, Envelope::pack(0u32));
    let r = d.run(&mut empty_poller(), 1000).unwrap();
    assert_eq!(r.code, 45);
}

#[test]
fn interleaved_senders_keep_their_order() {
    // two forwarders feed one collector; the interleaving is a schedule
    // matter, but each forwarder's own stream arrives in order
    let mut d: Dispatcher<Proc> = Dispatcher::new();
    let c = d.spawn(Proc::Collector { acc: 0 });
    let a = d.spawn(Proc::Forwarder { to: c });
    let b = d.spawn(Proc::Forwarder { to: c });
    d.send(a, Envelope::pack(1u32));
    d.send(b, Envelope::pack(3u32));
    d.send(a, Envelope::pack(2u32));
    d.send(b, Envelope::pack(4u32));
    // the flush goes through a forwarder too, so it lands behind the rest
    d.send(a, Envelope::pack(0u32));
    let r = d.run(&mut empty_poller(), 1000).unwrap();
    // 1 before 2 and 3 before 4: each sender's order is kept
    assert_eq!(r.code, 1324);
}

#[test]
fn send_to_dead_process_is_silent() {
    let mut d: Dispatcher<Proc> = Dispatcher::new();
    let x = d.spawn(Proc::Immediate);
    assert!(!d.is_live(x));
    // no panic, no delivery
    d.send(x, Envelope::pack(9u32));
    let c = d.spawn(Proc::Collector { acc: 0 });
    d.send(c, Envelope::pack(0u32));
    let r = d.run(&mut empty_poller(), 1000).unwrap();
    assert_eq!(r.code, 0);
}

#[test]
fn identifiers_are_not_reused() {
    let mut d: Dispatcher<Proc> = Dispatcher::new();
    let a = d.spawn(Proc::Immediate);
    let b = d.spawn(Proc::Immediate);
    let c = d.spawn(Proc::Immediate);
    assert_ne!(a.as_ffi(), b.as_ffi());
    assert_ne!(b.as_ffi(), c.as_ffi());
    assert_ne!(a.as_ffi(), c.as_ffi());
}

#[test]
fn ffi_round_trip() {
    let mut d: Dispatcher<Proc> = Dispatcher::new();
    let a = d.spawn(Proc::Collector { acc: 0 });
    let packed = a.as_ffi();
    let back = Cid::from_ffi(packed);
    assert_eq!(back, a);
    assert!(d.is_live(back));
    // a forged value decodes without panicking and is simply not live
    let forged = Cid::from_ffi(0xFFFF_FFFF_0000_0001);
    assert!(!d.is_live(forged));
}

#[test]
fn empty_yielder_gets_turns() {
    let mut d: Dispatcher<Proc> = Dispatcher::new();
    let y = d.spawn(Proc::Yielder { left: 3, turns: 0 });
    d.send(y, Envelope::pack(1u32));
    let r = d.run(&mut empty_poller(), 1000).unwrap();
    // after the message turn, three Empty re-enqueues run before completion
    assert_eq!(r.code, 3);
    assert_eq!(r.msg, "yielded out");
}

#[test]
fn spawn_in_handler() {
    let mut d: Dispatcher<Proc> = Dispatcher::new();
    let s = d.spawn(Proc::Spawner { child: None, pending: None, flushing: false });
    d.send(s, Envelope::pack(8u32));
    let r = d.run(&mut empty_poller(), 1000).unwrap();
    assert_eq!(r.code, 8);
    assert_eq!(r.msg, "done");
}

#[test]
fn wakeup_reaches_owner_via_deliver() {
    let mut d: Dispatcher<Proc> = Dispatcher::new();
    let w = d.spawn(Proc::WakeWaiter);
    let events = vec![Event { events: EVENT_IN, data: w.as_ffi() }];
    d.deliver_wakeups(&events);
    let r = d.run(&mut empty_poller(), 1000).unwrap();
    assert_eq!(r.code, EVENT_IN as i32);
    assert_eq!(r.msg, "woke");
}

#[test]
fn wakeup_reaches_owner_via_sleeper() {
    let mut d: Dispatcher<Proc> = Dispatcher::new();
    let w = d.spawn(Proc::WakeWaiter);
    let script = vec![PollWait::Events(vec![Event { events: EVENT_IN, data: w.as_ffi() }])];
    let mut poller = ScriptedPoller::new(script);
    let r = d.run(&mut poller, 1000).unwrap();
    assert_eq!(r.code, EVENT_IN as i32);
    assert_eq!(r.msg, "woke");
}

#[test]
fn stale_wakeup_is_dropped() {
    let mut d: Dispatcher<Proc> = Dispatcher::new();
    let x = d.spawn(Proc::Immediate);
    // x is dead; a wakeup tagged with its identifier goes nowhere
    let script = vec![PollWait::Events(vec![Event { events: EVENT_IN, data: x.as_ffi() }])];
    let mut poller = ScriptedPoller::new(script);
    // the second wait fails, which ends the run
    let r = d.run(&mut poller, 1000).unwrap();
    assert_eq!(r.code, 1);
    assert_eq!(r.msg, "epoll failed");
}

#[test]
fn poller_failure_terminates() {
    let mut d: Dispatcher<Proc> = Dispatcher::new();
    let _c = d.spawn(Proc::Collector { acc: 0 });
    let r = d.run(&mut empty_poller(), 1000).unwrap();
    assert_eq!(r.code, 1);
    assert_eq!(r.msg, "epoll failed");
}

#[test]
fn no_sleeper_after_poller_failure() {
    let mut d: Dispatcher<Proc> = Dispatcher::new();
    let r = d.run(&mut empty_poller(), 1000).unwrap();
    assert_eq!(r.msg, "epoll failed");
    // the sleeper terminated; a second run cannot wait any more
    let r = d.run(&mut empty_poller(), 1000).unwrap();
    assert_eq!(r.code, 0);
    assert_eq!(r.msg, "no sleeper");
}

#[test]
fn run_out_of_fuel_returns_none() {
    let mut d: Dispatcher<Proc> = Dispatcher::new();
    assert!(d.run(&mut empty_poller(), 0).is_none());
}

#[test]
fn terminate_ends_run_with_empty_queue() {
    let mut d: Dispatcher<Proc> = Dispatcher::new();
    let c = d.spawn(Proc::Collector { acc: 0 });
    d.send(c, Envelope::pack(5u32));
    d.send(c, Envelope::pack(0u32));
    let r = d.run(&mut empty_poller(), 1000).unwrap();
    assert_eq!(r.code, 5);
    // after a terminating run, nothing is pending: a fresh run just parks on
    // the poller, whose scripted failure ends it
    let r2 = d.run(&mut empty_poller(), 1000).unwrap();
    assert_eq!(r2.msg, "epoll failed");
}

#[test]
fn producer_turn_is_not_preempted() {
    // the burst's whole stream is enqueued during its one turn, so a message
    // already queued behind the burst's start is delivered before any of it
    let mut d: Dispatcher<Proc> = Dispatcher::new();
    let c = d.spawn(Proc::Collector { acc: 0 });
    let burst = d.spawn(Proc::Burst { to: c, n: 3, next: 0 });
    d.send(burst, Envelope::pack(1u32));
    d.send(c, Envelope::pack(9u32));
    let r = d.run(&mut empty_poller(), 1000).unwrap();
    assert_eq!(r.code, 9123);
}

#[test]
fn deliver_next_hands_over_the_head() {
    let mut d: Dispatcher<Proc> = Dispatcher::new();
    let c = d.spawn(Proc::Collector { acc: 0 });
    d.send(c, Envelope::pack(6u32));
    d.send(c, Envelope::pack(0u32));
    assert!(d.deliver_next(&mut empty_poller()));
    assert!(d.is_live(c));
    // the second delivery carries the flush: the collector terminates
    assert!(d.deliver_next(&mut empty_poller()));
    assert!(!d.is_live(c));
    assert!(!d.deliver_next(&mut empty_poller()));
}
