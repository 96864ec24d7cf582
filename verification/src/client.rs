//! The decisions of the agent's connection loop: how long to wait before
//! reconnecting, what to do with each event of a session, and the messages
//! the agent sends on its own.
use std::time::{Duration, SystemTime};

use vstd::arithmetic::power2::pow2;
use vstd::prelude::*;
use vstd::string::*;

use crate::config::{Config, opt_str};
use crate::protocol::{ClientMessage, ServerMessage};
use crate::executor::{failure_response, is_failure_response};
use crate::text::{concat_str, split_words, strings_view, words};

verus! {

broadcast use vstd::string::group_string_axioms;

/// `std::time::SystemTime`, carried through as an opaque value.
#[verifier::external_type_specification]
#[verifier::external_body]
pub struct ExSystemTime(std::time::SystemTime);

/// `SystemTime::now`: the system clock's current time. Nothing is claimed of it.
#[verifier::external_body]
fn system_now() -> (t: SystemTime) {
    SystemTime::now()
}

/// `SystemTime::duration_since(UNIX_EPOCH)`: the time elapsed since the Unix
/// epoch, or `None` for a time before it. Nothing is claimed of the duration.
#[verifier::external_body]
fn time_since_epoch(t: &SystemTime) -> (r: Option<Duration>) {
    t.duration_since(std::time::UNIX_EPOCH).ok()
}

/// `Duration::as_secs`: the whole seconds of a duration. Nothing is claimed of
/// the number.
#[verifier::external_body]
fn whole_seconds(d: &Duration) -> (secs: u64) {
    d.as_secs()
}

/// A timestamp from the seconds since the Unix epoch, where the clock gave
/// them; 0 for a clock that reads a time before the epoch.
pub fn timestamp_or_zero(secs: Option<u64>) -> (ts: u64)
    ensures
        ts == match secs {
            Some(s) => s,
            None => 0,
        },
{
    match secs {
        Some(s) => s,
        None => 0,
    }
}

/// The current time in seconds since the Unix epoch; 0 where the clock reads
/// a time before the epoch. The value comes from the system clock, so nothing
/// is stated of it.
pub fn now_ts() -> (ts: u64) {
    let now = system_now();
    let secs = match time_since_epoch(&now) {
        Some(d) => Some(whole_seconds(&d)),
        None => None,
    };
    timestamp_or_zero(secs)
}

/// The longest wait between reconnection attempts: the configured maximum,
/// and at least one second.
pub open spec fn backoff_cap(reconnect_max_secs: u64) -> u64 {
    if reconnect_max_secs < 1 {
        1
    } else {
        reconnect_max_secs
    }
}

/// The smaller of two numbers.
pub open spec fn min_int(a: int, b: int) -> int {
    if a < b {
        a
    } else {
        b
    }
}

/// The wait after one more failure: doubled (saturating), at most the cap.
pub open spec fn next_backoff(current: u64, reconnect_max_secs: u64) -> u64 {
    min_int(
        if current * 2 > u64::MAX {
            u64::MAX as int
        } else {
            current * 2
        },
        backoff_cap(reconnect_max_secs) as int,
    ) as u64
}

/// The wait after `k` failures in a row since the last success.
pub open spec fn backoff_after(k: nat, reconnect_max_secs: u64) -> u64
    decreases k,
{
    if k == 0 {
        1
    } else {
        next_backoff(backoff_after((k - 1) as nat, reconnect_max_secs), reconnect_max_secs)
    }
}

/// The reconnection delay of the connection loop: it starts at one second,
/// doubles with each failure up to the configured maximum, and falls back to
/// one second after a session ends cleanly.
pub struct Backoff {
    current: u64,
}

impl View for Backoff {
    type V = u64;

    closed spec fn view(&self) -> u64 {
        self.current
    }
}

impl Backoff {
    #[verifier::type_invariant]
    spec fn inv(&self) -> bool {
        self.current >= 1
    }

    /// A fresh delay of one second.
    pub fn new() -> (b: Backoff)
        ensures
            b@ == 1,
    {
        Backoff { current: 1 }
    }

    /// The delay, in seconds, that the next failure will wait.
    pub fn current(&self) -> (d: u64)
        ensures
            d == self@,
            d >= 1,
    {
        proof {
            use_type_invariant(self);
        }
        self.current
    }

    /// Records one session's outcome (`ok` for a clean end) and returns how
    /// long to wait before the next attempt: nothing after a clean end, else
    /// the current delay, which then doubles up to the cap.
    pub fn record_outcome(&mut self, ok: bool, reconnect_max_secs: u64) -> (wait: u64)
        ensures
            wait == if ok {
                0
            } else {
                old(self)@
            },
            final(self)@ == backoff_step(old(self)@, ok, reconnect_max_secs),
    {
        if ok {
            self.record_success();
            0
        } else {
            self.record_failure(reconnect_max_secs)
        }
    }

    /// A session ended cleanly: the delay falls back to one second.
    pub fn record_success(&mut self)
        ensures
            final(self)@ == 1,
    {
        self.current = 1;
    }

    /// A session failed: returns the delay to wait before the next attempt,
    /// and doubles the delay for the next failure, up to the cap.
    pub fn record_failure(&mut self, reconnect_max_secs: u64) -> (wait: u64)
        ensures
            wait == old(self)@,
            final(self)@ == next_backoff(old(self)@, reconnect_max_secs),
            1 <= final(self)@ <= backoff_cap(reconnect_max_secs),
    {
        proof {
            use_type_invariant(&*self);
        }
        let wait = self.current;
        let doubled = match self.current.checked_mul(2) {
            Some(d) => d,
            None => u64::MAX,
        };
        let cap = if reconnect_max_secs < 1 {
            1
        } else {
            reconnect_max_secs
        };
        self.current = if doubled < cap {
            doubled
        } else {
            cap
        };
        wait
    }
}

/// After `k` failures in a row since the last success, the delay is `2^k`
/// seconds, but never more than the cap.
pub proof fn lemma_backoff_after_failures(k: nat, reconnect_max_secs: u64)
    ensures
        backoff_after(k, reconnect_max_secs) == min_int(
            pow2(k) as int,
            backoff_cap(reconnect_max_secs) as int,
        ),
    decreases k,
{
    if k == 0 {
        vstd::arithmetic::power2::lemma2_to64();
    } else {
        lemma_backoff_after_failures((k - 1) as nat, reconnect_max_secs);
        vstd::arithmetic::power2::lemma_pow2_unfold(k);
        vstd::arithmetic::power2::lemma_pow2_pos((k - 1) as nat);
    }
}

/// Every delay lies between one second and the cap.
pub proof fn lemma_backoff_bounded(k: nat, reconnect_max_secs: u64)
    ensures
        1 <= backoff_after(k, reconnect_max_secs) <= backoff_cap(reconnect_max_secs),
{
    lemma_backoff_after_failures(k, reconnect_max_secs);
    vstd::arithmetic::power2::lemma_pow2_pos(k);
}

/// The delay after one session's outcome: one second after a clean end
/// (`ok`), else the next doubled delay.
pub open spec fn backoff_step(current: u64, ok: bool, reconnect_max_secs: u64) -> u64 {
    if ok {
        1
    } else {
        next_backoff(current, reconnect_max_secs)
    }
}

/// The delay after the session outcomes `outcomes` (`true` for a clean end),
/// starting from a fresh [`Backoff`].
pub open spec fn backoff_state(outcomes: Seq<bool>, reconnect_max_secs: u64) -> u64
    decreases outcomes.len(),
{
    if outcomes.len() == 0 {
        1
    } else {
        backoff_step(
            backoff_state(outcomes.drop_last(), reconnect_max_secs),
            outcomes.last(),
            reconnect_max_secs,
        )
    }
}

/// The wait before the next attempt after the outcomes `outcomes`: none after
/// a clean end, else the delay that held before the last failure.
pub open spec fn wait_after(outcomes: Seq<bool>, reconnect_max_secs: u64) -> u64 {
    if outcomes.len() == 0 || outcomes.last() {
        0
    } else {
        backoff_state(outcomes.drop_last(), reconnect_max_secs)
    }
}

/// How many failures end `outcomes`, since its last clean end.
pub open spec fn trailing_failures(outcomes: Seq<bool>) -> nat
    decreases outcomes.len(),
{
    if outcomes.len() == 0 || outcomes.last() {
        0
    } else {
        trailing_failures(outcomes.drop_last()) + 1
    }
}

proof fn lemma_backoff_state_trailing(outcomes: Seq<bool>, reconnect_max_secs: u64)
    ensures
        backoff_state(outcomes, reconnect_max_secs) == backoff_after(
            trailing_failures(outcomes),
            reconnect_max_secs,
        ),
    decreases outcomes.len(),
{
    if outcomes.len() > 0 {
        lemma_backoff_state_trailing(outcomes.drop_last(), reconnect_max_secs);
    }
}

/// Over any sequence of session outcomes: after a clean end there is no
/// wait; after the k-th failure in a row the wait is `2^(k-1)` seconds, but
/// never more than the cap; and the delay held is `2^k` capped likewise.
pub proof fn lemma_backoff_sequence(outcomes: Seq<bool>, reconnect_max_secs: u64)
    ensures
        backoff_state(outcomes, reconnect_max_secs) == min_int(
            pow2(trailing_failures(outcomes)) as int,
            backoff_cap(reconnect_max_secs) as int,
        ),
        outcomes.len() > 0 && outcomes.last() ==> wait_after(outcomes, reconnect_max_secs) == 0,
        outcomes.len() > 0 && !outcomes.last() ==> wait_after(outcomes, reconnect_max_secs)
            == min_int(
            pow2((trailing_failures(outcomes) - 1) as nat) as int,
            backoff_cap(reconnect_max_secs) as int,
        ),
        wait_after(outcomes, reconnect_max_secs) <= backoff_cap(reconnect_max_secs),
{
    lemma_backoff_state_trailing(outcomes, reconnect_max_secs);
    lemma_backoff_after_failures(trailing_failures(outcomes), reconnect_max_secs);
    if outcomes.len() > 0 && !outcomes.last() {
        let prev = outcomes.drop_last();
        lemma_backoff_state_trailing(prev, reconnect_max_secs);
        lemma_backoff_after_failures(trailing_failures(prev), reconnect_max_secs);
        lemma_backoff_bounded(trailing_failures(prev), reconnect_max_secs);
    }
}

/// The address of the agent endpoint on the server.
pub fn agent_url(server_addr: &str) -> (url: String)
    ensures
        url@ == "ws://"@ + server_addr@ + "/agent"@,
{
    let mut url = concat_str("ws://", server_addr);
    url.append("/agent");
    url
}

/// The heartbeat period in seconds: the configured one, at least three.
pub fn heartbeat_interval(heartbeat_secs: u64) -> (secs: u64)
    ensures
        secs == if heartbeat_secs < 3 {
            3
        } else {
            heartbeat_secs
        },
{
    if heartbeat_secs < 3 {
        3
    } else {
        heartbeat_secs
    }
}

/// The first message of a session: the agent's id and token.
pub fn auth_message(cfg: &Config) -> (m: ClientMessage)
    ensures
        m matches ClientMessage::Auth { agent_id, token } && agent_id@ == cfg.agent_id@ && opt_str(
            token,
        ) == opt_str(cfg.token),
{
    let token = match &cfg.token {
        Some(t) => Some(t.clone()),
        None => None,
    };
    ClientMessage::Auth { agent_id: cfg.agent_id.clone(), token }
}

/// A heartbeat for the time `timestamp`.
pub fn heartbeat_message(timestamp: u64) -> (m: ClientMessage)
    ensures
        m == (ClientMessage::Heartbeat { timestamp }),
{
    ClientMessage::Heartbeat { timestamp }
}

/// What happened on the connection.
pub enum SessionEvent {
    /// A text frame that decodes to a server message.
    Message(ServerMessage),
    /// A text frame that does not decode to a server message.
    Undecodable,
    /// A frame other than text or close.
    OtherFrame,
    /// The server closed the connection.
    Closed,
    /// Reading from the connection failed, for the given reason.
    ReadFailed(String),
    /// The connection has no more frames.
    Ended,
}

/// What the agent does in response.
pub enum SessionAction {
    /// Run a command for the server, alongside the session.
    Execute { id: String, command: String, args: Vec<String> },
    /// Send a heartbeat now.
    SendHeartbeat,
    /// Send this reply now.
    Reply(ClientMessage),
    /// Nothing; wait for the next event.
    Ignore,
    /// End the session, cleanly or with the given error.
    Stop(Result<(), String>),
}

/// The action for a command line: run its first word with the others as
/// arguments, or refuse an empty line.
fn command_action(id: String, line: &str) -> (a: SessionAction)
    ensures
        if words(line@).len() == 0 {
            a matches SessionAction::Reply(m) && is_failure_response(m, id, "empty command"@)
        } else {
            a matches SessionAction::Execute { id: i, command: program, args } && i == id && program@
                == words(line@)[0] && strings_view(args@) == words(line@).skip(1)
        },
{
    let mut parts = split_words(line);
    if parts.len() == 0 {
        return SessionAction::Reply(failure_response(id, String::from_str("empty command")));
    }
    let ghost all = parts@;
    let program = parts.remove(0);
    proof {
        assert(strings_view(parts@) =~= strings_view(all).skip(1));
    }
    SessionAction::Execute { id, command: program, args: parts }
}

/// The session's response to one event.
pub fn handle_event(event: SessionEvent) -> (a: SessionAction)
    ensures
        match event {
            SessionEvent::Message(ServerMessage::Exec { id, command, args }) => a == (
            SessionAction::Execute { id, command, args }),
            SessionEvent::Message(ServerMessage::Command { id, command }) => if words(command@).len()
                == 0 {
                a matches SessionAction::Reply(m) && is_failure_response(m, id, "empty command"@)
            } else {
                a matches SessionAction::Execute { id: i, command: program, args } && i == id
                    && program@ == words(command@)[0] && strings_view(args@) == words(
                    command@,
                ).skip(1)
            },
            SessionEvent::Message(ServerMessage::Ping) => a is SendHeartbeat,
            SessionEvent::Undecodable => a is Ignore,
            SessionEvent::OtherFrame => a is Ignore,
            SessionEvent::Closed => a matches SessionAction::Stop(Err(e)) && e@
                == "server closed connection"@,
            SessionEvent::ReadFailed(reason) => a matches SessionAction::Stop(Err(e)) && e@
                == "read error: "@ + reason@,
            SessionEvent::Ended => a matches SessionAction::Stop(Ok(())),
        },
{
    match event {
        SessionEvent::Message(ServerMessage::Exec { id, command, args }) => SessionAction::Execute {
            id,
            command,
            args,
        },
        SessionEvent::Message(ServerMessage::Command { id, command }) => command_action(
            id,
            command.as_str(),
        ),
        SessionEvent::Message(ServerMessage::Ping) => SessionAction::SendHeartbeat,
        SessionEvent::Undecodable => SessionAction::Ignore,
        SessionEvent::OtherFrame => SessionAction::Ignore,
        SessionEvent::Closed => SessionAction::Stop(Err(String::from_str("server closed connection"))),
        SessionEvent::ReadFailed(reason) => SessionAction::Stop(
            Err(concat_str("read error: ", reason.as_str())),
        ),
        SessionEvent::Ended => SessionAction::Stop(Ok(())),
    }
}

} // verus!
