//! Error types of the quote server, each with the message it prints.
use vstd::prelude::*;
use crate::text::{chars_of, string_of};

verus! {

/// `prefix` followed by the text of `detail`, as a new `String`.
fn prefixed(prefix: &str, detail: &String) -> (s: String)
    ensures
        s@ == prefix@ + detail@,
{
    let mut cs = chars_of(prefix);
    let ds = chars_of(detail.as_str());
    let ghost start = cs@;
    let n = ds.len();
    for i in 0..n
        invariant
            n == ds@.len(),
            cs@ == start + ds@.take(i as int),
    {
        cs.push(ds[i]);
        assert(ds@.take(i as int).push(ds@[i as int]) == ds@.take(i + 1));
    }
    assert(ds@.take(n as int) == ds@);
    string_of(cs.as_slice())
}

/// Errors returned by the quote server: configuration, initialisation,
/// quote updates and client management.
#[derive(Debug)]
pub enum QuoteServerError {
    /// Configuration file is malformed, missing, or contains invalid ticker data.
    InvalidConfig(String),
    /// Critical failure during server initialisation.
    InitializationError(String),
    /// Failure while updating stock quotes inside the server loop.
    UpdateQuoteError(String),
    /// Errors related to adding or removing clients.
    ClientError(String),
}

impl QuoteServerError {
    /// The message that describes this error.
    pub open spec fn text(&self) -> Seq<char> {
        match self {
            QuoteServerError::InvalidConfig(m) => "Invalid Quote Server config: "@ + m@,
            QuoteServerError::InitializationError(m) => "Failed to initialize Quote Server: "@ + m@,
            QuoteServerError::UpdateQuoteError(m) => "Failed to update quotes: "@ + m@,
            QuoteServerError::ClientError(m) => "Failed to add/remove client: "@ + m@,
        }
    }

    /// The message that describes this error.
    pub fn to_string(&self) -> (s: String)
        ensures
            s@ == self.text(),
    {
        match self {
            QuoteServerError::InvalidConfig(m) => prefixed("Invalid Quote Server config: ", m),
            QuoteServerError::InitializationError(m) => prefixed("Failed to initialize Quote Server: ", m),
            QuoteServerError::UpdateQuoteError(m) => prefixed("Failed to update quotes: ", m),
            QuoteServerError::ClientError(m) => prefixed("Failed to add/remove client: ", m),
        }
    }

    /// The error that a client failure becomes at the server: a
    /// `ClientError` holding the client error's message.
    pub fn from_client_error(err: ClientError) -> (r: QuoteServerError)
        ensures
            r matches QuoteServerError::ClientError(m) && m@ == err.text(),
    {
        QuoteServerError::ClientError(err.to_string())
    }
}

/// Errors of a streaming client.
#[derive(Debug)]
pub enum ClientError {
    /// Client callback returned an error or failed to send UDP data.
    CallbackFailed(String),
    /// Failure initialising or driving the client loop.
    InitializationError(String),
}

impl ClientError {
    /// The message that describes this error.
    pub open spec fn text(&self) -> Seq<char> {
        match self {
            ClientError::CallbackFailed(m) => "Callback returned an error: "@ + m@,
            ClientError::InitializationError(m) => "Failed to initialize client loop: "@ + m@,
        }
    }

    /// The message that describes this error.
    pub fn to_string(&self) -> (s: String)
        ensures
            s@ == self.text(),
    {
        match self {
            ClientError::CallbackFailed(m) => prefixed("Callback returned an error: ", m),
            ClientError::InitializationError(m) => prefixed("Failed to initialize client loop: ", m),
        }
    }
}

impl From<ClientError> for QuoteServerError {
    /// A `ClientError` holding the client error's message.
    fn from(err: ClientError) -> (r: Self)
        ensures
            r matches QuoteServerError::ClientError(m) && m@ == err.text(),
    {
        QuoteServerError::from_client_error(err)
    }
}

/// The result of `from` is stated by the `ensures` on `from` itself (a
/// `ClientError` whose text is the client error's message). `from_spec` would
/// have to name one particular `String` value with that text, which no spec
/// function gives, so the generic `from_spec` equation is not claimed.
impl vstd::std_specs::convert::FromSpecImpl<ClientError> for QuoteServerError {
    open spec fn obeys_from_spec() -> bool {
        false
    }

    open spec fn from_spec(v: ClientError) -> QuoteServerError {
        QuoteServerError::ClientError(arbitrary())
    }
}

/// Errors of the TCP command server.
#[derive(Debug)]
pub enum TcpServerError {
    /// The TCP listener failed to bind to the specified address/port.
    BindError(String),
    /// Error while accepting an incoming TCP client connection.
    AcceptError(String),
    /// I/O error during communication with a specific client.
    ClientIoError(String),
    /// The server received an invalid command or malformed input.
    InvalidCommand(String),
    /// An error from the quote server.
    QuoteServerError(QuoteServerError),
}

impl TcpServerError {
    /// The message that describes this error.
    pub open spec fn text(&self) -> Seq<char> {
        match self {
            TcpServerError::BindError(m) => "Failed to bind TCP listener: "@ + m@,
            TcpServerError::AcceptError(m) => "Failed to accept TCP connection: "@ + m@,
            TcpServerError::ClientIoError(m) => "Client IO error: "@ + m@,
            TcpServerError::InvalidCommand(m) => "Invalid command received: "@ + m@,
            TcpServerError::QuoteServerError(e) => "Quote server error: "@ + e.text(),
        }
    }

    /// The message that describes this error.
    pub fn to_string(&self) -> (s: String)
        ensures
            s@ == self.text(),
    {
        match self {
            TcpServerError::BindError(m) => prefixed("Failed to bind TCP listener: ", m),
            TcpServerError::AcceptError(m) => prefixed("Failed to accept TCP connection: ", m),
            TcpServerError::ClientIoError(m) => prefixed("Client IO error: ", m),
            TcpServerError::InvalidCommand(m) => prefixed("Invalid command received: ", m),
            TcpServerError::QuoteServerError(e) => {
                let inner = e.to_string();
                prefixed("Quote server error: ", &inner)
            },
        }
    }
}

impl From<QuoteServerError> for TcpServerError {
    fn from(err: QuoteServerError) -> (r: Self) {
        TcpServerError::QuoteServerError(err)
    }
}

impl vstd::std_specs::convert::FromSpecImpl<QuoteServerError> for TcpServerError {
    open spec fn obeys_from_spec() -> bool {
        true
    }

    open spec fn from_spec(v: QuoteServerError) -> TcpServerError {
        TcpServerError::QuoteServerError(v)
    }
}

/// Errors reported by the command-line programs.
#[derive(Debug)]
pub enum CliError {
    /// General wrapper around any textual failure.
    GeneralError(String),
}

impl CliError {
    /// The message that describes this error.
    pub open spec fn text(&self) -> Seq<char> {
        match self {
            CliError::GeneralError(m) => "Cli failed with error: "@ + m@,
        }
    }

    /// The message that describes this error.
    pub fn to_string(&self) -> (s: String)
        ensures
            s@ == self.text(),
    {
        match self {
            CliError::GeneralError(m) => prefixed("Cli failed with error: ", m),
        }
    }

    /// The error that a quote server failure becomes in a program: a
    /// `GeneralError` holding the server error's message.
    pub fn from_server_error(err: QuoteServerError) -> (r: CliError)
        ensures
            r matches CliError::GeneralError(m) && m@ == err.text(),
    {
        CliError::GeneralError(err.to_string())
    }
}

impl From<QuoteServerError> for CliError {
    /// A `GeneralError` holding the server error's message.
    fn from(err: QuoteServerError) -> (r: Self)
        ensures
            r matches CliError::GeneralError(m) && m@ == err.text(),
    {
        CliError::from_server_error(err)
    }
}

/// As for `QuoteServerError` from `ClientError`: the result is stated by the
/// `ensures` on `from`.
impl vstd::std_specs::convert::FromSpecImpl<QuoteServerError> for CliError {
    open spec fn obeys_from_spec() -> bool {
        false
    }

    open spec fn from_spec(v: QuoteServerError) -> CliError {
        CliError::GeneralError(arbitrary())
    }
}

} // verus!
