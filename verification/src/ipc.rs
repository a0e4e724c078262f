//! Commands sent to the running launcher daemon.
use vstd::prelude::*;

verus! {

#[verifier::external_type_specification]
#[verifier::external_body]
pub struct ExIoError(std::io::Error);

/// Commands the launcher daemon accepts.
#[derive(Debug, Clone, Copy, PartialEq, Eq, Structural)]
pub enum IpcCommand {
    Toggle,
    Quit,
    Ping,
}

#[verifier::external_type_specification]
#[verifier::external_body]
pub struct ExIoErrorKind(std::io::ErrorKind);

/// Why a command could not be delivered to the daemon.
#[derive(Debug, Clone, Copy, PartialEq, Eq, Structural)]
pub enum IpcFailure {
    /// No connection to a daemon exists.
    NotConnected,
}

/// The failure and message every command is refused with: no transport
/// to a daemon exists, so none is connected.
pub fn command_refusal(command: IpcCommand) -> (r: (IpcFailure, &'static str))
    ensures
        r.0 == IpcFailure::NotConnected,
        r.1@ == "ipc transport not implemented yet"@,
{
    (IpcFailure::NotConnected, "ipc transport not implemented yet")
}

/// Converts a failure into the `std::io::ErrorKind` of the same name
/// (`ErrorKind::NotConnected`). Nothing is stated of the kind: it is an
/// opaque value.
#[verifier::external_body]
fn error_kind(failure: IpcFailure) -> std::io::ErrorKind {
    match failure {
        IpcFailure::NotConnected => std::io::ErrorKind::NotConnected,
    }
}

/// Wraps `std::io::Error::new` with a kind and a message. Nothing is stated
/// of the error: it is an opaque value.
#[verifier::external_body]
fn io_error(kind: std::io::ErrorKind, message: &str) -> std::io::Error {
    std::io::Error::new(kind, message.to_string())
}

/// Sends a command to the daemon. No transport is available, so every
/// command is refused: the error is made of the kind and message that
/// `command_refusal` gives.
pub fn send_command(command: IpcCommand) -> (r: std::io::Result<()>)
    ensures
        r is Err,
{
    let (failure, message) = command_refusal(command);
    Err(io_error(error_kind(failure), message))
}

/// How many times a freshly started daemon is asked again before giving up.
pub const DAEMON_RETRIES: u32 = 40;

/// How long to wait before each of those tries, in milliseconds.
pub const DAEMON_RETRY_DELAY_MS: u64 = 50;

/// What to do next while getting a command to the daemon.
#[derive(Debug, Clone, Copy, PartialEq, Eq, Structural)]
pub enum ContactStep {
    /// The command was delivered: done.
    Delivered,
    /// No daemon answered: start one, then report it with `after_spawn`.
    SpawnDaemon,
    /// Wait this many milliseconds, send again and report the outcome.
    SendAfter(u64),
    /// The started daemon never answered: fail.
    GiveUp,
}

/// Progress of getting one command to the daemon, starting one if none
/// answers: whether a daemon was started, and how many sends were made
/// since.
pub struct DaemonContact {
    spawned: bool,
    retries: u32,
}

impl DaemonContact {
    /// Whether a daemon was started.
    pub closed spec fn started(&self) -> bool {
        self.spawned
    }

    /// The sends made since the daemon was started.
    pub closed spec fn sends_since_start(&self) -> int {
        self.retries as int
    }

    /// Never more sends than allowed, and none before a start.
    pub open spec fn wf(&self) -> bool {
        &&& 0 <= self.sends_since_start() <= DAEMON_RETRIES
        &&& !self.started() ==> self.sends_since_start() == 0
    }

    /// Nothing tried yet beyond the first send.
    pub fn new() -> (c: Self)
        ensures
            c.wf(),
            !c.started(),
            c.sends_since_start() == 0,
    {
        DaemonContact { spawned: false, retries: 0 }
    }

    /// The step after a send whose outcome was `delivered`: done when it was
    /// delivered; otherwise start a daemon if none was started, send again
    /// after the delay while tries are left, and give up when none are.
    pub fn after_send(&mut self, delivered: bool) -> (step: ContactStep)
        requires
            old(self).wf(),
        ensures
            final(self).wf(),
            final(self).started() == old(self).started(),
            delivered ==> step == ContactStep::Delivered && *final(self) == *old(self),
            !delivered && !old(self).started() ==> step == ContactStep::SpawnDaemon
                && *final(self) == *old(self),
            !delivered && old(self).started() && old(self).sends_since_start() < DAEMON_RETRIES
                ==> step == ContactStep::SendAfter(DAEMON_RETRY_DELAY_MS)
                && final(self).sends_since_start() == old(self).sends_since_start() + 1,
            !delivered && old(self).started() && old(self).sends_since_start() >= DAEMON_RETRIES
                ==> step == ContactStep::GiveUp && *final(self) == *old(self),
    {
        if delivered {
            ContactStep::Delivered
        } else if !self.spawned {
            ContactStep::SpawnDaemon
        } else if self.retries < DAEMON_RETRIES {
            self.retries = self.retries + 1;
            ContactStep::SendAfter(DAEMON_RETRY_DELAY_MS)
        } else {
            ContactStep::GiveUp
        }
    }

    /// The step after a daemon was started: the first send to it, after the
    /// delay.
    pub fn after_spawn(&mut self) -> (step: ContactStep)
        requires
            old(self).wf(),
            !old(self).started(),
        ensures
            final(self).wf(),
            final(self).started(),
            final(self).sends_since_start() == 1,
            step == ContactStep::SendAfter(DAEMON_RETRY_DELAY_MS),
    {
        self.spawned = true;
        self.retries = 1;
        ContactStep::SendAfter(DAEMON_RETRY_DELAY_MS)
    }
}

/// Whether a daemon answers a ping; with no transport, never.
pub fn is_daemon_running() -> (r: bool)
    ensures
        !r,
{
    send_command(IpcCommand::Ping).is_ok()
}

} // verus!
