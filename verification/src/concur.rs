//! Script-level concurrency handles.
//!
//! A background task runs on a host execution unit outside this core; its
//! handle is a single-use resource. Joining consumes the handle: the host
//! performs the blocking join and hands its outcome here, and a second
//! join on the same handle fails without consulting the host. An inbound
//! channel is modeled by the messages the host has delivered and not yet
//! taken, whether the sender has closed, and whether the host-side guard
//! was poisoned; `next` never blocks, and the blocking `wait-next` reports
//! when the host must wait for a producer before retrying.

use vstd::prelude::*;

verus! {

use crate::val::Variable;
use crate::val::Val;
use crate::val::Error;
use crate::val::ErrVal;
use crate::val::val_of;
use crate::val::vals_of;
use crate::val::type_text;
use crate::val::spec_type_text;
use crate::val::lemma_vals_of_push;
use crate::rt::Runtime;
use crate::rt::Channel;
use crate::rt::ref_in;
use crate::rt::spec_resolve;
use crate::rt::resolve;
use crate::rt::arg_type_err;
use crate::rt::expected_msg;

/// What the host's blocking join of a task produced: the task's value, the
/// task's own reported failure, or an abnormal end outside the task's own
/// error path.
pub enum TaskOutcome {
    Done(Variable),
    Failed(String),
    Abnormal,
}

/// The message of a join on a handle that was already consumed.
pub open spec fn already_joined_msg() -> Seq<char> {
    "Thread has already been joined"@
}

/// The message a task that ended abnormally yields.
pub open spec fn abnormal_msg() -> Seq<char> {
    "Thread did not exit successfully"@
}

/// The failure value wrapping a message value.
pub open spec fn failure_val(message: Val) -> Val {
    Val::Res(Result::Err(Box::new(ErrVal { message: Box::new(message), trace: Seq::empty() })))
}

/// Registers a fresh, joinable background task and pushes its handle. The
/// spawn itself — starting the host execution unit — happens outside this
/// core; the handle index is what the host keys its join on.
pub fn register_thread(rt: &mut Runtime) -> (id: usize)
    ensures
        final(rt).stack@ == old(rt).stack@.push(Variable::Thread(id)),
        final(rt).threads@ == old(rt).threads@.push(true),
        id == old(rt).threads@.len(),
        final(rt).call_stack == old(rt).call_stack,
        final(rt).module == old(rt).module,
        final(rt).channels == old(rt).channels,
        final(rt).arg_err_index == old(rt).arg_err_index,
{
    let id = rt.threads.len();
    rt.threads.push(true);
    rt.stack.push(Variable::Thread(id));
    id
}

/// Builds a failure value with an empty trace around a text message.
fn text_failure(msg: String) -> (r: Variable)
    ensures
        val_of(r) == failure_val(Val::Text(msg@)),
{
    let ghost gmsg = msg@;
    let message = Variable::Text(msg);
    let ghost gmessage = message;
    let trace: Vec<String> = Vec::new();
    let ghost gtrace = trace;
    let r = Variable::Result(Result::Err(Box::new(Error { message, trace })));
    proof {
        assert(val_of(gmessage) == Val::Text(gmsg));
        assert(gtrace.deep_view() =~= Seq::<Seq<char>>::empty());
        assert(val_of(r) == failure_val(Val::Text(gmsg)));
    }
    r
}

/// What joining leaves on the stack, given whether the handle was still
/// joinable and what the host's join produced.
pub open spec fn join_result(alive: bool, outcome: TaskOutcome) -> Val {
    if !alive {
        failure_val(Val::Text(already_joined_msg()))
    } else {
        match outcome {
            TaskOutcome::Done(v) => Val::Res(Result::Ok(Box::new(val_of(v)))),
            TaskOutcome::Failed(m) => failure_val(Val::Text(m@)),
            TaskOutcome::Abnormal => failure_val(Val::Text(abnormal_msg())),
        }
    }
}

/// Pops a task handle and pushes the host's join outcome as a result
/// value, consuming the handle: the task's own failure is rewrapped with
/// no trace, an abnormal end yields its fixed message, and a handle that
/// was already consumed — or never existed — fails with the already-joined
/// report, whatever the host handed in.
pub fn join__thread(rt: &mut Runtime, outcome: TaskOutcome) -> (r: Result<(), String>)
    requires
        old(rt).stack@.len() >= 1,
        ref_in(old(rt).stack@.last(), old(rt).stack@.len() - 1),
    ensures
        final(rt).call_stack == old(rt).call_stack,
        final(rt).module == old(rt).module,
        final(rt).channels == old(rt).channels,
        ({
            let popped = old(rt).stack@.drop_last();
            let v = spec_resolve(popped, old(rt).stack@.last());
            match v {
                Variable::Thread(id) => {
                    let alive = id < old(rt).threads@.len() && old(rt).threads@[id as int];
                    r is Ok && vals_of(final(rt).stack@) == vals_of(popped).push(
                        join_result(alive, outcome),
                    ) && final(rt).threads@ == if alive {
                        old(rt).threads@.update(id as int, false)
                    } else {
                        old(rt).threads@
                    } && final(rt).arg_err_index == old(rt).arg_err_index
                },
                _ => r matches Result::Err(m) && m@ == expected_msg(
                    "thr"@,
                    spec_type_text(val_of(v)),
                ) && final(rt).stack@ == popped && final(rt).threads == old(rt).threads && final(rt).arg_err_index == Option::Some(0usize),
            }
        }),
{
    broadcast use lemma_vals_of_push;

    let v = rt.stack.pop().unwrap();
    let id: usize;
    match resolve(&rt.stack, &v) {
        Variable::Thread(i) => {
            id = *i;
        },
        x => {
            let found = type_text(x);
            let msg = arg_type_err(rt, 0, found, "thr");
            return Result::Err(msg);
        },
    }
    let alive = id < rt.threads.len() && rt.threads[id];
    if !alive {
        let nv = text_failure("Thread has already been joined".to_owned());
        rt.stack.push(nv);
        return Result::Ok(());
    }
    rt.threads.set(id, false);
    let nv = match outcome {
        TaskOutcome::Done(value) => {
            let b = Box::new(value);
            let ghost gb = b;
            let w = Variable::Result(Result::Ok(b));
            proof {
                assert(val_of(w) == Val::Res(Result::Ok(Box::new(val_of(*gb)))));
            }
            w
        },
        TaskOutcome::Failed(m) => text_failure(m),
        TaskOutcome::Abnormal => text_failure("Thread did not exit successfully".to_owned()),
    };
    rt.stack.push(nv);
    Result::Ok(())
}

/// Registers a fresh, open, empty inbound channel and pushes its handle.
/// The sending side lives with the host, which delivers arriving messages
/// through `channel_send` and reports closure through `channel_close`.
pub fn register_channel(rt: &mut Runtime) -> (id: usize)
    ensures
        final(rt).stack@ == old(rt).stack@.push(Variable::In(id)),
        final(rt).channels@.len() == old(rt).channels@.len() + 1,
        final(rt).channels@.drop_last() == old(rt).channels@,
        (final(rt).channels@.last().queue@.len() == 0 && !final(rt).channels@.last().closed
            && !final(rt).channels@.last().poisoned),
        id == old(rt).channels@.len(),
        final(rt).call_stack == old(rt).call_stack,
        final(rt).module == old(rt).module,
        final(rt).threads == old(rt).threads,
        final(rt).arg_err_index == old(rt).arg_err_index,
{
    let id = rt.channels.len();
    let queue: Vec<Variable> = Vec::new();
    rt.channels.push(Channel { queue, closed: false, poisoned: false });
    rt.stack.push(Variable::In(id));
    proof {
        assert(rt.channels@.drop_last() =~= old(rt).channels@);
    }
    id
}

/// The host delivers one arrived message into a channel's pending queue.
pub fn channel_send(rt: &mut Runtime, id: usize, message: Variable)
    requires
        id < old(rt).channels@.len(),
    ensures
        final(rt).channels@.len() == old(rt).channels@.len(),
        (forall|j: int|
            0 <= j < old(rt).channels@.len() && j != id ==> final(rt).channels@[j] == old(rt).channels@[j]),
        final(rt).channels@[id as int].queue@ == old(rt).channels@[id as int].queue@.push(message),
        final(rt).channels@[id as int].closed == old(rt).channels@[id as int].closed,
        final(rt).channels@[id as int].poisoned == old(rt).channels@[id as int].poisoned,
        final(rt).stack == old(rt).stack,
        final(rt).call_stack == old(rt).call_stack,
        final(rt).module == old(rt).module,
        final(rt).threads == old(rt).threads,
        final(rt).arg_err_index == old(rt).arg_err_index,
{
    let ch = rt.channels.remove(id);
    let mut queue = ch.queue;
    queue.push(message);
    rt.channels.insert(id, Channel { queue, closed: ch.closed, poisoned: ch.poisoned });
    proof {
        assert(rt.channels@ =~= old(rt).channels@.update(id as int, rt.channels@[id as int]));
    }
}

/// The host reports that the sending side closed.
pub fn channel_close(rt: &mut Runtime, id: usize)
    requires
        id < old(rt).channels@.len(),
    ensures
        final(rt).channels@.len() == old(rt).channels@.len(),
        (forall|j: int|
            0 <= j < old(rt).channels@.len() && j != id ==> final(rt).channels@[j] == old(rt).channels@[j]),
        final(rt).channels@[id as int].queue@ == old(rt).channels@[id as int].queue@,
        final(rt).channels@[id as int].closed,
        final(rt).channels@[id as int].poisoned == old(rt).channels@[id as int].poisoned,
        final(rt).stack == old(rt).stack,
        final(rt).call_stack == old(rt).call_stack,
        final(rt).module == old(rt).module,
        final(rt).threads == old(rt).threads,
        final(rt).arg_err_index == old(rt).arg_err_index,
{
    let ch = rt.channels.remove(id);
    rt.channels.insert(id, Channel { queue: ch.queue, closed: true, poisoned: ch.poisoned });
    proof {
        assert(rt.channels@ =~= old(rt).channels@.update(id as int, rt.channels@[id as int]));
    }
}

/// The message of a poll whose host-side guard is poisoned.
pub open spec fn guard_msg() -> Seq<char> {
    "Can not lock In mutex:\npoisoned lock: another task failed inside"@
}

/// Pops a channel handle and pushes the next pending message as a present
/// option, or absent — immediately, without blocking — when none is
/// queued, whether or not the sender closed. A poisoned guard is a
/// reported error. No two polls observe the same message.
pub fn next(rt: &mut Runtime) -> (r: Result<(), String>)
    requires
        old(rt).stack@.len() >= 1,
        ref_in(old(rt).stack@.last(), old(rt).stack@.len() - 1),
        (spec_resolve(old(rt).stack@.drop_last(), old(rt).stack@.last()) matches Variable::In(id)
            ==> id < old(rt).channels@.len()),
    ensures
        final(rt).call_stack == old(rt).call_stack,
        final(rt).module == old(rt).module,
        final(rt).threads == old(rt).threads,
        ({
            let popped = old(rt).stack@.drop_last();
            let v = spec_resolve(popped, old(rt).stack@.last());
            match v {
                Variable::In(id) => {
                    let ch = old(rt).channels@[id as int];
                    if ch.poisoned {
                        r matches Result::Err(m) && m@ == guard_msg() && final(rt).stack@ == popped
                            && final(rt).channels == old(rt).channels
                    } else if ch.queue@.len() > 0 {
                        r is Ok && vals_of(final(rt).stack@) == vals_of(popped).push(
                            Val::Opt(Option::Some(Box::new(val_of(ch.queue@.first())))),
                        ) && final(rt).channels@.len() == old(rt).channels@.len() && (forall|j: int|
                            0 <= j < old(rt).channels@.len() && j != id ==> final(rt).channels@[j]
                                == old(rt).channels@[j]) && final(rt).channels@[id as int].queue@
                            == ch.queue@.drop_first() && final(rt).channels@[id as int].closed
                            == ch.closed && final(rt).channels@[id as int].poisoned == ch.poisoned
                            && final(rt).arg_err_index == old(rt).arg_err_index
                    } else {
                        r is Ok && vals_of(final(rt).stack@) == vals_of(popped).push(
                            Val::Opt(Option::None),
                        ) && final(rt).channels == old(rt).channels && final(rt).arg_err_index
                            == old(rt).arg_err_index
                    }
                },
                _ => r matches Result::Err(m) && m@ == expected_msg(
                    "in"@,
                    spec_type_text(val_of(v)),
                ) && final(rt).stack@ == popped && final(rt).channels == old(rt).channels && final(rt).arg_err_index == Option::Some(0usize),
            }
        }),
{
    broadcast use lemma_vals_of_push;

    let v = rt.stack.pop().unwrap();
    let id: usize;
    match resolve(&rt.stack, &v) {
        Variable::In(i) => {
            id = *i;
        },
        x => {
            let found = type_text(x);
            let msg = arg_type_err(rt, 0, found, "in");
            return Result::Err(msg);
        },
    }
    if rt.channels[id].poisoned {
        return Result::Err(
            "Can not lock In mutex:\npoisoned lock: another task failed inside".to_owned(),
        );
    }
    if rt.channels[id].queue.len() > 0 {
        let ch = rt.channels.remove(id);
        let mut queue = ch.queue;
        let message = queue.remove(0);
        rt.channels.insert(id, Channel { queue, closed: ch.closed, poisoned: ch.poisoned });
        let b = Box::new(message);
        let ghost gb = b;
        let nv = Variable::Option(Option::Some(b));
        proof {
            assert(rt.channels@ =~= old(rt).channels@.update(id as int, rt.channels@[id as int]));
            assert(rt.channels@[id as int].queue@ =~= old(rt).channels@[id as int].queue@.drop_first());
            assert(val_of(nv) == Val::Opt(Option::Some(Box::new(val_of(*gb)))));
        }
        rt.stack.push(nv);
        Result::Ok(())
    } else {
        let nv = Variable::Option(Option::None);
        proof {
            assert(val_of(nv) == Val::Opt(Option::None));
        }
        rt.stack.push(nv);
        Result::Ok(())
    }
}

/// Whether a blocking wait could complete or the host must wait for a
/// producer and retry.
pub enum WaitOutcome {
    Delivered,
    WouldBlock,
}

/// Pops a channel handle and waits for the next message: a pending message
/// is delivered as a present option; a closed, drained channel delivers
/// absent — never an error. While the channel is open and empty the wait
/// would block: the host is told to wait for a producer and retry, the
/// stack left as it was. A poisoned guard is a reported error.
pub fn wait_next(rt: &mut Runtime) -> (r: Result<WaitOutcome, String>)
    requires
        old(rt).stack@.len() >= 1,
        ref_in(old(rt).stack@.last(), old(rt).stack@.len() - 1),
        (spec_resolve(old(rt).stack@.drop_last(), old(rt).stack@.last()) matches Variable::In(id)
            ==> id < old(rt).channels@.len()),
    ensures
        final(rt).call_stack == old(rt).call_stack,
        final(rt).module == old(rt).module,
        final(rt).threads == old(rt).threads,
        ({
            let popped = old(rt).stack@.drop_last();
            let v = spec_resolve(popped, old(rt).stack@.last());
            match v {
                Variable::In(id) => {
                    let ch = old(rt).channels@[id as int];
                    if ch.poisoned {
                        r matches Result::Err(m) && m@ == guard_msg() && final(rt).stack@ == popped
                            && final(rt).channels == old(rt).channels
                    } else if ch.queue@.len() > 0 {
                        r == Result::<WaitOutcome, String>::Ok(WaitOutcome::Delivered) && vals_of(
                            final(rt).stack@,
                        ) == vals_of(popped).push(
                            Val::Opt(Option::Some(Box::new(val_of(ch.queue@.first())))),
                        ) && final(rt).channels@.len() == old(rt).channels@.len() && (forall|j: int|
                            0 <= j < old(rt).channels@.len() && j != id ==> final(rt).channels@[j]
                                == old(rt).channels@[j]) && final(rt).channels@[id as int].queue@
                            == ch.queue@.drop_first() && final(rt).channels@[id as int].closed
                            == ch.closed && final(rt).channels@[id as int].poisoned == ch.poisoned
                            && final(rt).arg_err_index == old(rt).arg_err_index
                    } else if ch.closed {
                        r == Result::<WaitOutcome, String>::Ok(WaitOutcome::Delivered) && vals_of(
                            final(rt).stack@,
                        ) == vals_of(popped).push(Val::Opt(Option::None)) && final(rt).channels
                            == old(rt).channels && final(rt).arg_err_index == old(rt).arg_err_index
                    } else {
                        r == Result::<WaitOutcome, String>::Ok(WaitOutcome::WouldBlock) && final(rt).stack@ == old(rt).stack@ && final(rt).channels == old(rt).channels
                            && final(rt).arg_err_index == old(rt).arg_err_index
                    }
                },
                _ => r matches Result::Err(m) && m@ == expected_msg(
                    "in"@,
                    spec_type_text(val_of(v)),
                ) && final(rt).stack@ == popped && final(rt).channels == old(rt).channels && final(rt).arg_err_index == Option::Some(0usize),
            }
        }),
{
    broadcast use lemma_vals_of_push;

    let v = rt.stack.pop().unwrap();
    let id: usize;
    match resolve(&rt.stack, &v) {
        Variable::In(i) => {
            id = *i;
        },
        x => {
            let found = type_text(x);
            let msg = arg_type_err(rt, 0, found, "in");
            return Result::Err(msg);
        },
    }
    if rt.channels[id].poisoned {
        return Result::Err(
            "Can not lock In mutex:\npoisoned lock: another task failed inside".to_owned(),
        );
    }
    if rt.channels[id].queue.len() > 0 {
        let ch = rt.channels.remove(id);
        let mut queue = ch.queue;
        let message = queue.remove(0);
        rt.channels.insert(id, Channel { queue, closed: ch.closed, poisoned: ch.poisoned });
        let b = Box::new(message);
        let ghost gb = b;
        let nv = Variable::Option(Option::Some(b));
        proof {
            assert(rt.channels@ =~= old(rt).channels@.update(id as int, rt.channels@[id as int]));
            assert(rt.channels@[id as int].queue@ =~= old(rt).channels@[id as int].queue@.drop_first());
            assert(val_of(nv) == Val::Opt(Option::Some(Box::new(val_of(*gb)))));
        }
        rt.stack.push(nv);
        Result::Ok(WaitOutcome::Delivered)
    } else if rt.channels[id].closed {
        let nv = Variable::Option(Option::None);
        proof {
            assert(val_of(nv) == Val::Opt(Option::None));
        }
        rt.stack.push(nv);
        Result::Ok(WaitOutcome::Delivered)
    } else {
        rt.stack.push(v);
        proof {
            assert(rt.stack@ =~= old(rt).stack@);
        }
        Result::Ok(WaitOutcome::WouldBlock)
    }
}

} // verus!
