//! Decisions of the quote server's background loop: whether to start it,
//! whether it keeps running, and how long an update may wait for the quotes.
use vstd::prelude::*;
use crate::defs::WRITE_TIMEOUT_MS;
use crate::errors::QuoteServerError;
use crate::text::{chars_of, string_of};

verus! {

/// The lifecycle of the background loop: whether a loop thread is held, and
/// whether shutdown has been requested.
pub struct ServerControl {
    running: bool,
    stopping: bool,
}

impl ServerControl {
    /// Whether a loop thread is held (started and not yet joined).
    pub closed spec fn has_thread(&self) -> bool {
        self.running
    }

    /// Whether shutdown has been requested; it is never withdrawn.
    pub closed spec fn shutdown_requested(&self) -> bool {
        self.stopping
    }

    /// A server whose loop has not started.
    pub fn new() -> (c: Self)
        ensures
            !c.has_thread(),
            !c.shutdown_requested(),
    {
        ServerControl { running: false, stopping: false }
    }

    /// Whether to spawn the loop thread now: only when none is held. Either
    /// way a thread is held afterwards.
    pub fn start(&mut self) -> (spawn: bool)
        ensures
            (spawn, lifecycle(*final(self))) == start_step(old(self).has_thread(), old(self).shutdown_requested()),
    {
        if self.running {
            false
        } else {
            self.running = true;
            true
        }
    }

    /// Requests shutdown; the result says whether there is a loop thread to
    /// join, which is then no longer held.
    pub fn shutdown(&mut self) -> (join: bool)
        ensures
            (join, lifecycle(*final(self))) == shutdown_step(old(self).has_thread(), old(self).shutdown_requested()),
    {
        self.stopping = true;
        let join = self.running;
        self.running = false;
        join
    }

    /// Whether the loop goes on for another round.
    pub fn keep_running(&self) -> (b: bool)
        ensures
            b == !self.shutdown_requested(),
    {
        !self.stopping
    }
}

/// The lifecycle as a pair: whether a loop thread is held, and whether
/// shutdown has been requested.
pub open spec fn lifecycle(c: ServerControl) -> (bool, bool) {
    (c.has_thread(), c.shutdown_requested())
}

/// `start` on a lifecycle: whether it spawns, and the lifecycle after.
pub open spec fn start_step(held: bool, stopping: bool) -> (bool, (bool, bool)) {
    (!held, (true, stopping))
}

/// `shutdown` on a lifecycle: whether it joins, and the lifecycle after.
pub open spec fn shutdown_step(held: bool, stopping: bool) -> (bool, (bool, bool)) {
    (held, (false, true))
}

/// Starting twice spawns one thread at most; after a shutdown the loop runs
/// no further round, even if started again, and a second shutdown has no
/// thread to join.
pub proof fn law_lifecycle(held: bool, stopping: bool)
    ensures
        ({
            let (spawn1, (h1, s1)) = start_step(held, stopping);
            let (spawn2, (h2, s2)) = start_step(h1, s1);
            !spawn2 && h2
        }),
        ({
            let (join1, (h1, s1)) = shutdown_step(held, stopping);
            let (spawn, (h2, s2)) = start_step(h1, s1);
            let (join2, (h3, s3)) = shutdown_step(h2, s2);
            let (join3, (h4, s4)) = shutdown_step(h1, s1);
            &&& join1 == held
            &&& spawn && s2
            &&& !join3
        }),
{
}

/// Whether an update still waits for the quotes after `elapsed_ms`
/// milliseconds: only while under `WRITE_TIMEOUT_MS`.
pub fn keep_waiting_for_quotes(elapsed_ms: u64) -> (b: bool)
    ensures
        b == (elapsed_ms < WRITE_TIMEOUT_MS),
{
    elapsed_ms < WRITE_TIMEOUT_MS
}

/// The error of an update that could not get the quotes in time.
pub fn update_timeout_error() -> (e: QuoteServerError)
    ensures
        e matches QuoteServerError::UpdateQuoteError(m) && m@ == "Timeout after 1s"@,
{
    QuoteServerError::UpdateQuoteError(string_of(chars_of("Timeout after 1s").as_slice()))
}

/// The error of an update that the quote generator failed.
pub fn update_failed_error() -> (e: QuoteServerError)
    ensures
        e matches QuoteServerError::UpdateQuoteError(m) && m@ == "Failed to update quotes"@,
{
    QuoteServerError::UpdateQuoteError(string_of(chars_of("Failed to update quotes").as_slice()))
}

/// The error of a server whose quote generator could not be created.
pub fn generator_init_error() -> (e: QuoteServerError)
    ensures
        e matches QuoteServerError::InitializationError(m) && m@ == "Failed to create Quote Generator"@,
{
    QuoteServerError::InitializationError(string_of(chars_of("Failed to create Quote Generator").as_slice()))
}

/// The error of a notification round that could not lock the clients.
pub fn notify_lock_error() -> (e: QuoteServerError)
    ensures
        e matches QuoteServerError::UpdateQuoteError(m) && m@ == "Failed to lock clients"@,
{
    QuoteServerError::UpdateQuoteError(string_of(chars_of("Failed to lock clients").as_slice()))
}

/// The error of a client operation that could not lock the clients.
pub fn lock_clients_error() -> (e: QuoteServerError)
    ensures
        e matches QuoteServerError::ClientError(m) && m@ == "Failed to lock clients"@,
{
    QuoteServerError::ClientError(string_of(chars_of("Failed to lock clients").as_slice()))
}

} // verus!
