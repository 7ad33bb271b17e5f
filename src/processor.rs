//! The decisions of the two pipeline loops. The caller performs each action
//! (receive, push, pop, call the reply generator, sleep, send) and hands the
//! outcome back; these functions say what comes next.

use vstd::prelude::*;
use crate::message::AgentMessage;
use crate::message_handler::MessageHandlerError;
use crate::network::{network_error_text, NetworkError};

verus! {

/// Exponential backoff: the first retry waits `initial_delay_ms`, each
/// further one twice as long, none longer than `max_delay_ms`; at most
/// `max_retries` retries follow the first attempt.
#[derive(PartialEq, Eq, Structural, Clone, Copy, Debug)]
pub struct RetryPolicy {
    pub initial_delay_ms: u64,
    pub max_delay_ms: u64,
    pub max_retries: u32,
}

impl Default for RetryPolicy {
    fn default() -> (r: RetryPolicy)
        ensures
            r == (RetryPolicy { initial_delay_ms: 100, max_delay_ms: 10000, max_retries: 5 }),
    {
        RetryPolicy { initial_delay_ms: 100, max_delay_ms: 10000, max_retries: 5 }
    }
}

pub open spec fn min(a: int, b: int) -> int {
    if a <= b {
        a
    } else {
        b
    }
}

/// The wait before retry number `n` (from 0): `initial * 2^n`, capped at `max`.
pub open spec fn backoff_delay(initial: nat, max: nat, n: nat) -> int
    decreases n,
{
    if n == 0 {
        min(initial as int, max as int)
    } else {
        min(2 * backoff_delay(initial, max, (n - 1) as nat), max as int)
    }
}

/// The same wait, as the uncapped doubling capped once.
pub proof fn lemma_backoff_closed_form(initial: nat, max: nat, n: nat)
    ensures
        backoff_delay(initial, max, n) == min(initial * vstd::arithmetic::power2::pow2(n) as int, max as int),
    decreases n,
{
    if n == 0 {
        vstd::arithmetic::power2::lemma2_to64();
    } else {
        vstd::arithmetic::power2::lemma_pow2_unfold(n);
        lemma_backoff_closed_form(initial, max, (n - 1) as nat);
        let p = vstd::arithmetic::power2::pow2((n - 1) as nat) as int;
        assert(initial * (2 * p) == 2 * (initial * p)) by (nonlinear_arith);
    }
}

impl RetryPolicy {
    /// The wait in milliseconds before retry number `n` (from 0).
    pub fn delay_ms(&self, n: u32) -> (r: u64)
        ensures
            r == backoff_delay(self.initial_delay_ms as nat, self.max_delay_ms as nat, n as nat),
    {
        let mut d: u64 = if self.initial_delay_ms <= self.max_delay_ms {
            self.initial_delay_ms
        } else {
            self.max_delay_ms
        };
        let mut i: u32 = 0;
        while i < n
            invariant
                i <= n,
                d <= self.max_delay_ms,
                d == backoff_delay(self.initial_delay_ms as nat, self.max_delay_ms as nat, i as nat),
            decreases n - i,
        {
            d = if d > self.max_delay_ms / 2 {
                self.max_delay_ms
            } else {
                2 * d
            };
            i = i + 1;
        }
        d
    }

    /// The waits before each retry, in order.
    pub fn schedule_ms(&self) -> (r: Vec<u64>)
        ensures
            r@.len() == self.max_retries,
            forall|i: int|
                0 <= i < r@.len() ==> r@[i] == backoff_delay(
                    self.initial_delay_ms as nat,
                    self.max_delay_ms as nat,
                    i as nat,
                ),
    {
        let mut out: Vec<u64> = Vec::new();
        let mut i: u32 = 0;
        while i < self.max_retries
            invariant
                i <= self.max_retries,
                out@.len() == i,
                forall|j: int|
                    0 <= j < i ==> out@[j] == backoff_delay(
                        self.initial_delay_ms as nat,
                        self.max_delay_ms as nat,
                        j as nat,
                    ),
            decreases self.max_retries - i,
        {
            out.push(self.delay_ms(i));
            i = i + 1;
        }
        out
    }
}

/// What the processing loop does after an attempt to generate a reply.
#[derive(PartialEq, Eq, Clone, Debug)]
pub enum ReplyStep {
    /// Send this text as the reply.
    Reply(String),
    /// Wait this many milliseconds, then try again.
    RetryAfter(u64),
}

/// After attempt number `attempt` (from 0) returned `outcome`: a generated
/// text is the reply; a failure is retried after the policy's wait while
/// retries remain, and once they are spent its text becomes the reply.
pub fn reply_step(policy: &RetryPolicy, attempt: u32, outcome: Result<String, String>) -> (r:
    ReplyStep)
    ensures
        match outcome {
            Ok(text) => r == ReplyStep::Reply(text),
            Err(e) => if attempt < policy.max_retries {
                r == ReplyStep::RetryAfter(
                    backoff_delay(
                        policy.initial_delay_ms as nat,
                        policy.max_delay_ms as nat,
                        attempt as nat,
                    ) as u64,
                )
            } else {
                r == ReplyStep::Reply(e)
            },
        },
{
    match outcome {
        Ok(text) => ReplyStep::Reply(text),
        Err(e) => if attempt < policy.max_retries {
            ReplyStep::RetryAfter(policy.delay_ms(attempt))
        } else {
            ReplyStep::Reply(e)
        },
    }
}

/// The greeting that a node broadcasts when its processing loop starts.
pub fn greeting(agent_id: &str) -> (r: String)
    ensures
        r@ == "Hi, I am "@ + agent_id@ + "."@,
{
    let mut text = "Hi, I am ".to_owned();
    text.append(agent_id);
    text.append(".");
    text
}

/// What the intake loop does with the outcome of a receive.
pub enum IntakeStep {
    /// Offer the message to the queue.
    Forward(AgentMessage),
    /// Skip a datagram that is not a message, and receive again.
    Skip,
    /// Stop the loop, reporting this text.
    Stop(String),
}

/// The report with which the intake loop stops.
pub open spec fn intake_failure_text(e: NetworkError) -> Seq<char> {
    "UDP intake task failed: "@ + network_error_text(e)
}

/// A received message is forwarded; a datagram that does not decode is
/// skipped; any other error stops the loop.
pub fn intake_step(received: Result<AgentMessage, NetworkError>) -> (r: IntakeStep)
    ensures
        match received {
            Ok(m) => r matches IntakeStep::Forward(x) && x@ == m@,
            Err(NetworkError::DeserializationError(_)) => r is Skip,
            Err(e) => r matches IntakeStep::Stop(t) && t@ == intake_failure_text(e),
        },
{
    match received {
        Ok(m) => IntakeStep::Forward(m),
        Err(NetworkError::DeserializationError(_)) => IntakeStep::Skip,
        Err(e) => {
            let mut text = "UDP intake task failed: ".to_owned();
            text.append(e.to_string().as_str());
            IntakeStep::Stop(text)
        },
    }
}

/// Whether the intake loop goes on after offering a message to the queue:
/// a full queue drops the message and goes on, a closed one stops the loop.
pub fn intake_continues(pushed: &Result<(), MessageHandlerError>) -> (r: bool)
    ensures
        r == !(pushed matches Err(MessageHandlerError::ChannelClosed)),
{
    match pushed {
        Err(MessageHandlerError::ChannelClosed) => false,
        _ => true,
    }
}

/// The life of a node: it starts, runs once both loops are up, and stops
/// when either loop fails; it never restarts.
#[derive(PartialEq, Eq, Structural, Clone, Copy, Debug)]
pub enum NodeState {
    Starting,
    Running,
    Stopping,
}

/// What happens to a node.
#[derive(PartialEq, Eq, Structural, Clone, Copy, Debug)]
pub enum NodeEvent {
    /// Both loops have been started.
    LoopsStarted,
    /// A loop ended with a fatal error.
    LoopFailed,
}

/// The state after `event`.
pub fn next_state(state: NodeState, event: NodeEvent) -> (r: NodeState)
    ensures
        event == NodeEvent::LoopFailed ==> r == NodeState::Stopping,
        event == NodeEvent::LoopsStarted ==> r == if state == NodeState::Stopping {
            NodeState::Stopping
        } else {
            NodeState::Running
        },
{
    match (state, event) {
        (_, NodeEvent::LoopFailed) => NodeState::Stopping,
        (NodeState::Stopping, NodeEvent::LoopsStarted) => NodeState::Stopping,
        (_, NodeEvent::LoopsStarted) => NodeState::Running,
    }
}

/// The process's exit status once both loops have ended: non-zero only
/// where both failed.
pub fn exit_status(intake: &Result<(), String>, processing: &Result<(), String>) -> (r: i32)
    ensures
        r == if intake is Err && processing is Err {
            1i32
        } else {
            0i32
        },
{
    if intake.is_err() && processing.is_err() {
        1
    } else {
        0
    }
}

} // verus!
