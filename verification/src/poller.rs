//! What the poller is told and what it reports.
use vstd::prelude::*;

use crate::api::SignalPage;
use crate::config::PollConfig;
use crate::domain::SignalKey;

verus! {

/// What the runtime asks of the poller.
#[derive(Debug, Clone)]
pub enum PollerCommand {
    ForcePoll,
    MarkRead { key: SignalKey, read: bool },
    Shutdown,
}

/// What the poller reports.
#[derive(Debug, Clone)]
pub enum PollerEvent {
    Snapshot { fetched_at_ms: i64, page: SignalPage },
    PollFailed { error: String },
    MarkReadSynced { key: SignalKey },
    SyncFailed { key: SignalKey, error: String },
}

/// What the poller's wait for a command ended with.
#[derive(Debug)]
pub enum PollerInput {
    Command(PollerCommand),
    Timeout,
    Disconnected,
}

/// What the poller does about it.
#[derive(Debug)]
pub enum PollerWork {
    /// Leave the loop.
    Stop,
    /// Poll now (and restart the interval).
    PollNow,
    /// Tell the service the read state of a signal.
    SendMarkRead { key: SignalKey, read: bool },
    /// Nothing; the interval decides whether a poll is due.
    Idle,
}

/// A shutdown or a lost runtime stops the poller; a forced poll polls at
/// once; a mark-read goes to the service; a timeout does nothing.
pub fn poller_work_for(input: PollerInput) -> (w: PollerWork)
    ensures
        match input {
            PollerInput::Command(PollerCommand::Shutdown) => w is Stop,
            PollerInput::Disconnected => w is Stop,
            PollerInput::Command(PollerCommand::ForcePoll) => w is PollNow,
            PollerInput::Command(PollerCommand::MarkRead { key, read }) => w matches PollerWork::SendMarkRead {
                key: k,
                read: r,
            } && k@ == key@ && r == read,
            PollerInput::Timeout => w is Idle,
        },
{
    match input {
        PollerInput::Command(PollerCommand::Shutdown) => PollerWork::Stop,
        PollerInput::Disconnected => PollerWork::Stop,
        PollerInput::Command(PollerCommand::ForcePoll) => PollerWork::PollNow,
        PollerInput::Command(PollerCommand::MarkRead { key, read }) => PollerWork::SendMarkRead { key, read },
        PollerInput::Timeout => PollerWork::Idle,
    }
}

/// The seconds between polls: as configured, but at least one.
pub fn poll_interval_secs(config: &PollConfig) -> (r: u64)
    ensures
        r == (if config.interval_secs < 1 { 1 } else { config.interval_secs }),
{
    if config.interval_secs < 1 {
        1
    } else {
        config.interval_secs
    }
}

/// How long the poller may wait for a command before the next poll is due.
pub fn wait_before_next_poll_ms(interval_ms: u64, elapsed_ms: u64) -> (r: u64)
    ensures
        r == (if elapsed_ms < interval_ms { interval_ms - elapsed_ms } else { 0 }),
{
    interval_ms.saturating_sub(elapsed_ms)
}

/// A poll is due once a whole interval has passed since the last one.
pub fn poll_due(interval_ms: u64, elapsed_ms: u64) -> (r: bool)
    ensures
        r == (elapsed_ms >= interval_ms),
{
    elapsed_ms >= interval_ms
}

/// What the answer to a mark-read call is reported as: a confirmation where
/// the service answered true, and a failure otherwise.
pub fn mark_read_outcome(key: SignalKey, result: Result<bool, String>) -> (e: PollerEvent)
    ensures
        match result {
            Ok(true) => e matches PollerEvent::MarkReadSynced { key: k } && k@ == key@,
            Ok(false) => e matches PollerEvent::SyncFailed { key: k, error } && k@ == key@
                && error@ == "server returned false"@,
            Err(msg) => e matches PollerEvent::SyncFailed { key: k, error } && k@ == key@
                && error@ == msg@,
        },
{
    match result {
        Ok(true) => PollerEvent::MarkReadSynced { key },
        Ok(false) => PollerEvent::SyncFailed { key, error: "server returned false".to_string() },
        Err(msg) => PollerEvent::SyncFailed { key, error: msg },
    }
}

/// What the answer to a watch-list query is reported as.
pub fn poll_outcome(fetched_at_ms: i64, result: Result<SignalPage, String>) -> (e: PollerEvent)
    ensures
        match result {
            Ok(page) => e matches PollerEvent::Snapshot { fetched_at_ms: t, page: p } && t
                == fetched_at_ms && p@ == page@,
            Err(msg) => e matches PollerEvent::PollFailed { error } && error@ == msg@,
        },
{
    match result {
        Ok(page) => PollerEvent::Snapshot { fetched_at_ms, page },
        Err(msg) => PollerEvent::PollFailed { error: msg },
    }
}

} // verus!
