//! Push, over IMAP IDLE (RFC 2177): one long-lived session per account sits
//! on the inbox and reports every time the server says it changed. The poll
//! timer stays as the fallback for servers without IDLE and for every other
//! folder.

use vstd::prelude::*;
use crate::net::imap::ImapSession;
use crate::text;

verus! {

/// Re-issue IDLE well inside the 29 minutes RFC 2177 allows before a server
/// may drop a silent client.
pub const IDLE_CYCLE_SECONDS: u64 = 1200;

/// Why a watch returned without an error.
#[derive(Clone, Copy, Debug, PartialEq, Eq, Structural)]
pub enum WatchEnd {
    Cancelled,
    /// The server has no IDLE: nothing to wait on, the timer covers it.
    Unsupported,
}

/// What came of one wait.
#[derive(Clone, Copy, Debug, PartialEq, Eq, Structural)]
pub enum Waited {
    /// The server reported a change.
    Changed,
    /// The cycle ran out.
    TimedOut,
    /// The connection failed.
    Failed,
}

/// What a watch does next.
#[derive(Clone, Copy, Debug, PartialEq, Eq, Structural)]
pub enum WatchStep {
    /// Tell of the change and wait again.
    Report,
    /// Wait again.
    Wait,
    /// Return the reason.
    End(WatchEnd),
    /// Return the failure; whoever watches reconnects.
    Fail,
}

/// Whether a session can be watched: why not, if it cannot.
pub fn watch_inbox(session: &ImapSession) -> (r: Option<WatchEnd>)
    ensures
        r == (if text::texts(session.capabilities@).contains(text::uppercase("IDLE"@)) {
            None
        } else {
            Some(WatchEnd::Unsupported)
        }),
{
    if session.has_capability("IDLE") {
        None
    } else {
        Some(WatchEnd::Unsupported)
    }
}

/// What a watch does before a wait.
pub open spec fn before_wait(is_cancelled: bool) -> WatchStep {
    if is_cancelled {
        WatchStep::End(WatchEnd::Cancelled)
    } else {
        WatchStep::Wait
    }
}

/// What a watch does after a wait. A read that failed once cancelled was cut short on purpose.
pub open spec fn after_wait(waited: Waited, is_cancelled: bool) -> WatchStep {
    match waited {
        Waited::Changed => WatchStep::Report,
        Waited::TimedOut => before_wait(is_cancelled),
        Waited::Failed => if is_cancelled {
            WatchStep::End(WatchEnd::Cancelled)
        } else {
            WatchStep::Fail
        },
    }
}

/// What a watch does before a wait.
pub fn start_wait(is_cancelled: bool) -> (r: WatchStep)
    ensures
        r == before_wait(is_cancelled),
{
    if is_cancelled {
        WatchStep::End(WatchEnd::Cancelled)
    } else {
        WatchStep::Wait
    }
}

/// What a watch does after a wait.
pub fn end_wait(waited: Waited, is_cancelled: bool) -> (r: WatchStep)
    ensures
        r == after_wait(waited, is_cancelled),
{
    match waited {
        Waited::Changed => WatchStep::Report,
        Waited::TimedOut => start_wait(is_cancelled),
        Waited::Failed => if is_cancelled {
            WatchStep::End(WatchEnd::Cancelled)
        } else {
            WatchStep::Fail
        },
    }
}

/// A cancelled watch ends without an error, once it has told of a change that came before.
pub proof fn cancelling_ends_the_watch(waited: Waited)
    ensures
        after_wait(waited, true) == WatchStep::End(WatchEnd::Cancelled) || (waited
            == Waited::Changed && before_wait(true) == WatchStep::End(WatchEnd::Cancelled)),
        after_wait(waited, true) != WatchStep::Fail,
{
}

} // verus!
