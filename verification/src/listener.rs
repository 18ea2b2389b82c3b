//! The netlink socket that uevents arrive on: what each answer of the system
//! means, and what to do next.
//!
//! Every function here is one step. The caller performs the system call that
//! the step asks for and hands the answer to the next one.

use vstd::prelude::*;

use crate::io_error::{IoError, IoErrorKind};
use crate::uevent::{
    law_received_is_parsed, parse_received, parsed, received, Uevent, UeventView,
    KOBJECT_UEVENT_MULTICAST_GROUP, NETLINK_KOBJECT_UEVENT,
};

verus! {

/// A bound netlink socket.
#[derive(Debug)]
pub struct UeventListener {
    fd: i32,
}

/// An answer on the way to a bound socket. `error` is the system's last error,
/// and counts only where the answer is negative.
pub enum OpenEvent {
    /// The socket is to be opened.
    Start,
    /// What `socket` returned.
    Socket { fd: i32, error: IoError },
    /// What `bind` returned for the socket `fd`.
    Bind { fd: i32, rc: i32, error: IoError },
}

/// What follows on the way to a bound socket.
pub enum OpenStep {
    /// Open a raw netlink socket for `protocol`.
    Socket { protocol: i32 },
    /// Bind `fd` to the multicast groups `groups`, under the port number `pid`.
    Bind { fd: i32, pid: u32, groups: u32 },
    /// Close `fd`, then fail with `error`.
    CloseAndFail { fd: i32, error: IoError },
    /// Fail: there is nothing to close.
    Failed { error: IoError },
    /// The socket is ready.
    Opened(UeventListener),
}

/// What follows a blocking receive.
pub enum RecvStep {
    /// Nothing came: receive again.
    Again,
    /// An event came.
    Event(Uevent),
    /// The receive failed.
    Failed(IoError),
}

/// What happens on the way to an event, within a time limit.
pub enum WaitEvent {
    /// The wait begins.
    Start { timeout_ms: u128 },
    /// What `poll` returned, and what was left of the wait beyond its limit.
    /// `error` is the system's last error, and counts only where `rc` is
    /// negative.
    Polled { rc: i32, left_ms: u128, error: IoError },
    /// What the receive returned, and the buffer it was given. `error` is the
    /// system's last error, and counts only where `n` is negative.
    Received { n: isize, buf: Vec<u8>, error: IoError },
}

/// What follows on the way to an event, within a time limit.
pub enum WaitStep {
    /// Poll the socket for input, with the limit `timeout_ms`. Beyond it,
    /// `left_ms` are left of the wait.
    Poll { timeout_ms: i32, left_ms: u128 },
    /// Receive without blocking.
    Receive,
    /// The wait is over: an event, or `None` where none came in time.
    Done(Result<Option<Uevent>, IoError>),
}

/// What follows one receive of a drain.
#[derive(Debug, Clone, Copy, PartialEq, Eq, Structural)]
pub enum DrainStep {
    /// `count` messages are gone; there may be more.
    Again { count: usize },
    /// The queue is empty after `count` messages.
    Done { count: usize },
}

/// The limit of the next `poll` of a wait with `ms` to go: all of it, as far as
/// the number that `poll` takes goes.
pub open spec fn poll_limit(ms: nat) -> int {
    if ms <= i32::MAX {
        ms as int
    } else {
        i32::MAX as int
    }
}

/// The next `poll` of a wait with `ms` to go.
pub open spec fn poll_step(ms: u128) -> WaitStep {
    WaitStep::Poll {
        timeout_ms: poll_limit(ms as nat) as i32,
        left_ms: (ms - poll_limit(ms as nat)) as u128,
    }
}

/// What follows a `poll` that timed out with `left_ms` of the wait left.
pub open spec fn after_timeout(left_ms: u128) -> WaitStep {
    if left_ms == 0 {
        WaitStep::Done(Ok(None))
    } else {
        poll_step(left_ms)
    }
}

/// The next `poll` of a wait with `ms` to go.
fn next_poll(ms: u128) -> (step: WaitStep)
    ensures
        step == poll_step(ms),
{
    if ms <= 0x7fff_ffff {
        WaitStep::Poll { timeout_ms: ms as i32, left_ms: 0 }
    } else {
        WaitStep::Poll { timeout_ms: i32::MAX, left_ms: ms - 0x7fff_ffff }
    }
}

/// What a blocking receive comes to that returned `n`: the event in the first `n`
/// bytes of `buf`, or `error` where `n` is negative; nothing where no byte came.
pub open spec fn recv_answer(n: int, buf: Seq<u8>, error: IoError) -> Option<
    Result<UeventView, IoError>,
> {
    if n < 0 {
        Some(Err(error))
    } else if n == 0 {
        None
    } else {
        Some(Ok(received(buf.take(n))))
    }
}

/// What follows a receive of a drain that had taken `count` messages, where it
/// returned `n`.
pub open spec fn drain_step(count: nat, n: int) -> (nat, bool) {
    if n <= 0 {
        (count, false)
    } else {
        (count + 1, true)
    }
}

impl UeventListener {
    #[verifier::type_invariant]
    spec fn is_open(self) -> bool {
        self.fd >= 0
    }

    /// The socket's descriptor.
    pub closed spec fn descriptor(self) -> i32 {
        self.fd
    }

    /// Opens the socket for uevents and binds it to their multicast group, with a
    /// port number of the kernel's choice. A negative answer of `socket` or `bind`
    /// is a failure, and a socket that cannot be bound is closed.
    pub fn new(event: OpenEvent) -> (step: OpenStep)
        ensures
            match event {
                OpenEvent::Start => step == (OpenStep::Socket { protocol: NETLINK_KOBJECT_UEVENT }),
                OpenEvent::Socket { fd, error } => if fd < 0 {
                    step == (OpenStep::Failed { error })
                } else {
                    step == (OpenStep::Bind { fd, pid: 0, groups: KOBJECT_UEVENT_MULTICAST_GROUP })
                },
                OpenEvent::Bind { fd, rc, error } => if fd < 0 {
                    step == (OpenStep::Failed { error })
                } else if rc < 0 {
                    step == (OpenStep::CloseAndFail { fd, error })
                } else {
                    step matches OpenStep::Opened(listener) && listener.descriptor() == fd
                },
            },
    {
        match event {
            OpenEvent::Start => OpenStep::Socket { protocol: NETLINK_KOBJECT_UEVENT },
            OpenEvent::Socket { fd, error } => if fd < 0 {
                OpenStep::Failed { error }
            } else {
                OpenStep::Bind { fd, pid: 0, groups: KOBJECT_UEVENT_MULTICAST_GROUP }
            },
            OpenEvent::Bind { fd, rc, error } => if fd < 0 {
                OpenStep::Failed { error }
            } else if rc < 0 {
                OpenStep::CloseAndFail { fd, error }
            } else {
                OpenStep::Opened(UeventListener { fd })
            },
        }
    }

    /// The socket's descriptor. It is never negative.
    pub fn fd(&self) -> (fd: i32)
        ensures
            fd == self.descriptor(),
            fd >= 0,
    {
        proof {
            use_type_invariant(self);
        }
        self.fd
    }

    /// Takes the answer of a blocking receive into `buf`: `n` bytes came, or the
    /// receive failed with `error` where `n` is negative. Any failure ends the
    /// wait, an interruption and a would-block included; an empty message does
    /// not.
    pub fn recv_blocking(&self, n: isize, buf: &[u8], error: IoError) -> (step: RecvStep)
        requires
            n <= buf@.len(),
        ensures
            match recv_answer(n as int, buf@, error) {
                None => step == RecvStep::Again,
                Some(Err(e)) => step == RecvStep::Failed(e),
                Some(Ok(event)) => step matches RecvStep::Event(e) && e@ == event,
            },
            n > 0 ==> step is Event,
            n > 0 && parsed(buf@.take(n as int)) is Some ==> parsed(buf@.take(n as int)) == Some(
                step->Event_0@,
            ),
    {
        if n < 0 {
            return RecvStep::Failed(error);
        }
        if n == 0 {
            return RecvStep::Again;
        }
        let data: &[u8] = vstd::slice::slice_subrange(buf, 0, n as usize);
        proof {
            assert(data@ =~= buf@.take(n as int));
        }
        RecvStep::Event(parse_received(data))
    }

    /// Waits for an event within a time limit: polls until the limit is up, then
    /// receives without blocking. A `poll` or a receive that fails ends the wait
    /// with its error. The last `poll` to time out ends it without an event, and
    /// so does a receive that finds nothing after all.
    pub fn recv_with_timeout(&self, event: WaitEvent) -> (step: WaitStep)
        requires
            event matches WaitEvent::Received { n, buf, .. } ==> n <= buf@.len(),
        ensures
            match event {
                WaitEvent::Start { timeout_ms } => step == poll_step(timeout_ms),
                WaitEvent::Polled { rc, left_ms, error } => if rc < 0 {
                    step == WaitStep::Done(Err(error))
                } else if rc == 0 {
                    step == after_timeout(left_ms)
                } else {
                    step == WaitStep::Receive
                },
                WaitEvent::Received { n, buf, error } => if n < 0 && error.kind
                    != IoErrorKind::WouldBlock {
                    step == WaitStep::Done(Err(error))
                } else if n <= 0 {
                    step == WaitStep::Done(Ok(None))
                } else {
                    step matches WaitStep::Done(Ok(Some(event))) && event@ == received(
                        buf@.take(n as int),
                    ) && (parsed(buf@.take(n as int)) is Some ==> parsed(buf@.take(n as int))
                        == Some(event@))
                },
            },
    {
        match event {
            WaitEvent::Start { timeout_ms } => next_poll(timeout_ms),
            WaitEvent::Polled { rc, left_ms, error } => if rc < 0 {
                WaitStep::Done(Err(error))
            } else if rc > 0 {
                WaitStep::Receive
            } else if left_ms == 0 {
                WaitStep::Done(Ok(None))
            } else {
                next_poll(left_ms)
            },
            WaitEvent::Received { n, buf, error } => {
                if n < 0 && error.kind != IoErrorKind::WouldBlock {
                    return WaitStep::Done(Err(error));
                }
                if n <= 0 {
                    return WaitStep::Done(Ok(None));
                }
                let data: &[u8] = vstd::slice::slice_subrange(buf.as_slice(), 0, n as usize);
                proof {
                    assert(data@ =~= buf@.take(n as int));
                }
                WaitStep::Done(Ok(Some(parse_received(data))))
            },
        }
    }

    /// Counts a drained message: `count` were taken before, and the receive
    /// returned `n`. Anything but a message ends the drain.
    pub fn try_drain(&self, count: usize, n: isize) -> (step: DrainStep)
        requires
            count < usize::MAX,
        ensures
            match step {
                DrainStep::Again { count: c } => drain_step(count as nat, n as int) == (
                    c as nat,
                    true,
                ),
                DrainStep::Done { count: c } => drain_step(count as nat, n as int) == (
                    c as nat,
                    false,
                ),
            },
    {
        if n <= 0 {
            DrainStep::Done { count }
        } else {
            DrainStep::Again { count: count + 1 }
        }
    }
}

/// An answer of a blocking receive: what it returned, its buffer, and the
/// system's last error.
pub struct Answer {
    pub n: int,
    pub buf: Seq<u8>,
    pub error: IoError,
}

/// How many receives a blocking wait makes whose receives are answered with
/// `answers`, and what it comes to; nothing where none of them ends it.
pub open spec fn blocking_wait(answers: Seq<Answer>) -> (nat, Option<Result<UeventView, IoError>>)
    decreases answers.len(),
{
    if answers.len() == 0 {
        (0, None)
    } else {
        match recv_answer(answers[0].n, answers[0].buf, answers[0].error) {
            Some(result) => (1, Some(result)),
            None => {
                let (count, result) = blocking_wait(answers.drop_first());
                (count + 1, result)
            },
        }
    }
}

/// A blocking wait goes on through empty messages, and ends with the first answer
/// that is none: with its event, or with its error.
pub proof fn law_blocking_wait_skips_empty_messages(answers: Seq<Answer>, k: int)
    requires
        0 <= k < answers.len(),
        forall|i: int| 0 <= i < k ==> (#[trigger] answers[i]).n == 0,
        answers[k].n != 0,
    ensures
        blocking_wait(answers) == (
            (k + 1) as nat,
            Some(
                if answers[k].n < 0 {
                    Err(answers[k].error)
                } else {
                    Ok(received(answers[k].buf.take(answers[k].n)))
                },
            ),
        ),
    decreases k,
{
    if k > 0 {
        let rest = answers.drop_first();
        assert(answers[0].n == 0);
        assert forall|i: int| 0 <= i < k - 1 implies (#[trigger] rest[i]).n == 0 by {
            assert(rest[i] == answers[i + 1]);
        }
        law_blocking_wait_skips_empty_messages(rest, k - 1);
    }
}

/// The number of messages that a drain takes which had taken `count` and whose
/// receives return `answers`.
pub open spec fn drained(count: nat, answers: Seq<int>) -> nat
    decreases answers.len(),
{
    if answers.len() == 0 {
        count
    } else {
        let (next, more) = drain_step(count, answers[0]);
        if more {
            drained(next, answers.drop_first())
        } else {
            next
        }
    }
}

/// A drain counts the messages before the first receive that brings none, and
/// no other.
pub proof fn law_drain_counts_messages(count: nat, answers: Seq<int>, k: int)
    requires
        0 <= k < answers.len(),
        forall|i: int| 0 <= i < k ==> #[trigger] answers[i] > 0,
        answers[k] <= 0,
    ensures
        drained(count, answers) == count + k,
    decreases k,
{
    if k > 0 {
        let rest = answers.drop_first();
        assert(answers[0] > 0);
        assert forall|i: int| 0 <= i < k - 1 implies #[trigger] rest[i] > 0 by {
            assert(rest[i] == answers[i + 1]);
        }
        law_drain_counts_messages(count + 1, rest, k - 1);
    }
}

/// A time limit that fits the number `poll` takes is waited out in a single
/// `poll`.
pub proof fn law_short_wait_is_one_poll(ms: u128)
    requires
        ms <= i32::MAX,
    ensures
        poll_step(ms) == (WaitStep::Poll { timeout_ms: ms as i32, left_ms: 0 }),
{
}

/// How far a wait is from its end.
pub open spec fn wait_left(step: WaitStep) -> nat {
    match step {
        WaitStep::Poll { left_ms, .. } => left_ms as nat + 1,
        _ => 0,
    }
}

/// The limits of the polls from `step` on, where each of them times out.
pub open spec fn poll_limits(step: WaitStep) -> Seq<int>
    decreases wait_left(step),
{
    match step {
        WaitStep::Poll { timeout_ms, left_ms } => {
            seq![timeout_ms as int] + poll_limits(after_timeout(left_ms))
        },
        _ => seq![],
    }
}

/// The sum of some limits.
pub open spec fn limits_sum(limits: Seq<int>) -> int
    decreases limits.len(),
{
    if limits.len() == 0 {
        0
    } else {
        limits[0] + limits_sum(limits.drop_first())
    }
}

/// A wait that nothing interrupts lasts as long as asked, however long that is:
/// the limits of its polls add up to the time limit. None of them is negative,
/// which `poll` would take for no limit at all.
pub proof fn law_polls_last_the_timeout(ms: u128)
    ensures
        limits_sum(poll_limits(poll_step(ms))) == ms,
        forall|i: int|
            0 <= i < poll_limits(poll_step(ms)).len() ==> 0 <= #[trigger] poll_limits(
                poll_step(ms),
            )[i] <= i32::MAX,
    decreases ms,
{
    let limit = poll_limit(ms as nat);
    let left = (ms - limit) as u128;
    let all = poll_limits(poll_step(ms));
    let later = poll_limits(after_timeout(left));
    assert(all == seq![limit] + later);
    assert(all.drop_first() =~= later);
    reveal_with_fuel(limits_sum, 2);
    if left > 0 {
        law_polls_last_the_timeout(left);
    }
    assert forall|i: int| 0 <= i < all.len() implies 0 <= #[trigger] all[i] <= i32::MAX by {
        if i > 0 {
            assert(all[i] == later[i - 1]);
        }
    }
}

/// A blocking receive hands on the event in the bytes that came, in every field;
/// what the buffer holds behind them has no influence.
pub proof fn law_receive_hands_on_the_event(
    bytes: Seq<u8>,
    junk: Seq<u8>,
    error: IoError,
    event: UeventView,
)
    requires
        bytes.len() > 0,
        parsed(bytes) == Some(event),
    ensures
        recv_answer(bytes.len() as int, bytes + junk, error) == Some(Ok::<_, IoError>(event)),
        recv_answer(0, bytes + junk, error) is None,
        forall|n: int|
            n < 0 ==> #[trigger] recv_answer(n, bytes + junk, error) == Some(
                Err::<UeventView, IoError>(error),
            ),
{
    law_received_is_parsed(bytes);
    assert((bytes + junk).take(bytes.len() as int) =~= bytes);
}

/// A wait is over without an event once its last `poll` has timed out, and not
/// before: as long as some of it is left, another `poll` follows.
pub proof fn law_wait_ends_with_its_last_poll(left_ms: u128)
    ensures
        after_timeout(0) == WaitStep::Done(Ok(None)),
        left_ms > 0 ==> after_timeout(left_ms) is Poll,
{
}

} // verus!
