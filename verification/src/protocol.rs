//! The TCP control protocol: the commands a client sends, one per line, and
//! the decisions a connection handler takes on each event of its connection.
use vstd::prelude::*;
use crate::defs::CLIENT_KEEP_ALIVE_SEC;
use crate::errors::TcpServerError;
use crate::text::{chars_of, has_prefix, starts_with, string_of, trim_chars, trimmed, words, words_of};

verus! {

// ---------------------------------------------------------------------------
// Commands
// ---------------------------------------------------------------------------

/// `PING`: every command that starts with it is a ping.
pub open spec fn ping_word() -> Seq<char> {
    seq!['P', 'I', 'N', 'G']
}

/// `STREAM ` (with the space): every command that starts with it asks for a
/// stream.
pub open spec fn stream_word() -> Seq<char> {
    seq!['S', 'T', 'R', 'E', 'A', 'M', ' ']
}

/// `STOP`: every command that starts with it stops the stream.
pub open spec fn stop_word() -> Seq<char> {
    seq!['S', 'T', 'O', 'P']
}

/// What a line from a client asks for.
pub enum Command {
    /// Nothing but whitespace: ignored.
    Empty,
    /// Answer with `PONG`.
    Ping,
    /// Stream the given tickers to the UDP address `addr` (`host:port`, still
    /// unparsed).
    Stream { addr: String, tickers: Vec<String> },
    /// A `STREAM` command with fewer than two arguments.
    StreamUsage,
    /// Stop streaming.
    Stop,
    /// Anything else, with the (trimmed) text received.
    Invalid(String),
}

/// The meaning of a command, over character sequences.
pub enum CommandMeaning {
    Empty,
    Ping,
    Stream(Seq<char>, Seq<Seq<char>>),
    StreamUsage,
    Stop,
    Invalid(Seq<char>),
}

impl Command {
    /// The meaning of this command.
    pub open spec fn meaning(&self) -> CommandMeaning {
        match self {
            Command::Empty => CommandMeaning::Empty,
            Command::Ping => CommandMeaning::Ping,
            Command::Stream { addr, tickers } => CommandMeaning::Stream(
                addr@,
                tickers@.map_values(|t: String| t@),
            ),
            Command::StreamUsage => CommandMeaning::StreamUsage,
            Command::Stop => CommandMeaning::Stop,
            Command::Invalid(m) => CommandMeaning::Invalid(m@),
        }
    }
}

/// What a received line asks for: the line is trimmed; an empty one is
/// ignored; then a line starting with `PING` is a ping, one starting with
/// `STREAM ` asks for a stream (its whitespace-separated words after the first
/// are the address and at least one ticker), one starting with `STOP` stops,
/// and any other is invalid.
pub open spec fn command_of(line: Seq<char>) -> CommandMeaning {
    let m = trimmed(line);
    if m.len() == 0 {
        CommandMeaning::Empty
    } else if has_prefix(m, ping_word()) {
        CommandMeaning::Ping
    } else if has_prefix(m, stream_word()) {
        let w = words(m);
        if w.len() < 3 {
            CommandMeaning::StreamUsage
        } else {
            CommandMeaning::Stream(w[1], w.skip(2))
        }
    } else if has_prefix(m, stop_word()) {
        CommandMeaning::Stop
    } else {
        CommandMeaning::Invalid(m)
    }
}

/// Reads the command in a line received from a client.
pub fn parse_command(line: &str) -> (c: Command)
    ensures
        c.meaning() == command_of(line@),
{
    let raw = chars_of(line);
    let m = trim_chars(raw.as_slice());
    let ping = ['P', 'I', 'N', 'G'];
    let stream = ['S', 'T', 'R', 'E', 'A', 'M', ' '];
    let stop = ['S', 'T', 'O', 'P'];
    assert(ping@ =~= ping_word());
    assert(stream@ =~= stream_word());
    assert(stop@ =~= stop_word());
    if m.len() == 0 {
        Command::Empty
    } else if starts_with(m.as_slice(), ping.as_slice()) {
        Command::Ping
    } else if starts_with(m.as_slice(), stream.as_slice()) {
        let w = words_of(m.as_slice());
        let ghost wv = w@.map_values(|x: Vec<char>| x@);
        assert(wv.len() == w@.len());
        if w.len() < 3 {
            Command::StreamUsage
        } else {
            let addr = string_of(w[1].as_slice());
            assert(wv[1] == w@[1]@);
            let mut tickers: Vec<String> = Vec::new();
            let n = w.len();
            for i in 2..n
                invariant
                    n == w@.len(),
                    n >= 3,
                    wv == w@.map_values(|x: Vec<char>| x@),
                    tickers@.map_values(|t: String| t@) == wv.subrange(2, i as int),
            {
                let t = string_of(w[i].as_slice());
                let ghost before = tickers@;
                tickers.push(t);
                assert(wv[i as int] == w@[i as int]@);
                assert(tickers@.map_values(|t: String| t@) =~= before.map_values(|t: String| t@).push(t@));
                assert(wv.subrange(2, i + 1) =~= wv.subrange(2, i as int).push(wv[i as int]));
            }
            assert(wv.subrange(2, n as int) =~= wv.skip(2));
            Command::Stream { addr, tickers }
        }
    } else if starts_with(m.as_slice(), stop.as_slice()) {
        Command::Stop
    } else {
        Command::Invalid(string_of(m.as_slice()))
    }
}

// ---------------------------------------------------------------------------
// Replies
// ---------------------------------------------------------------------------

/// The reply to a ping.
pub fn pong_reply() -> (s: String)
    ensures
        s@ == "PONG\n"@,
{
    string_of(chars_of("PONG\n").as_slice())
}

/// The reply once a stream is registered.
pub fn stream_ok_reply() -> (s: String)
    ensures
        s@ == "STREAM OK\n"@,
{
    string_of(chars_of("STREAM OK\n").as_slice())
}

/// The reply once a stream is stopped.
pub fn stop_ok_reply() -> (s: String)
    ensures
        s@ == "STOP OK\n"@,
{
    string_of(chars_of("STOP OK\n").as_slice())
}

/// The reply to an invalid command.
pub fn invalid_reply() -> (s: String)
    ensures
        s@ == "ERR Invalid command\n"@,
{
    string_of(chars_of("ERR Invalid command\n").as_slice())
}

/// The error that ends a connection whose `STREAM` command lacks arguments.
pub fn stream_usage_error() -> (e: TcpServerError)
    ensures
        e matches TcpServerError::InvalidCommand(m) && m@ == "STREAM host:port TICKER..."@,
{
    TcpServerError::InvalidCommand(string_of(chars_of("STREAM host:port TICKER...").as_slice()))
}

/// The error that ends a connection whose `STREAM` command names an address
/// that is not a socket address.
pub fn bad_udp_address_error() -> (e: TcpServerError)
    ensures
        e matches TcpServerError::InvalidCommand(m) && m@ == "Bad UDP address"@,
{
    TcpServerError::InvalidCommand(string_of(chars_of("Bad UDP address").as_slice()))
}

/// The error that ends a connection whose reading or writing failed, with
/// the reason the I/O layer gave.
pub fn client_io_error(reason: String) -> (e: TcpServerError)
    ensures
        e matches TcpServerError::ClientIoError(m) && m@ == reason@,
{
    TcpServerError::ClientIoError(reason)
}


// ---------------------------------------------------------------------------
// A connection
// ---------------------------------------------------------------------------

/// Something that happened on a connection, as its handler sees it. Times are
/// milliseconds on a clock that does not go back, counted from when the
/// connection was accepted.
pub enum ConnEvent {
    /// A line arrived at `now_ms`.
    Line { text: String, now_ms: u64 },
    /// The peer closed the connection.
    Closed,
    /// A read timed out at `now_ms` with nothing received.
    Idle { now_ms: u64 },
    /// Reading failed for another reason.
    ReadFailed,
    /// The stream asked for has been registered under `id`.
    Registered(u64),
}

/// What the handler does next.
pub enum ConnAction {
    /// Nothing; read on.
    Nothing,
    /// Write this reply; read on.
    Reply(String),
    /// Register a stream of `tickers` to the UDP address `addr`, then report
    /// the id with `ConnEvent::Registered`.
    Register { addr: String, tickers: Vec<String> },
    /// End the connection with this error.
    Abort(TcpServerError),
    /// Remove the registered client, if any, then write `stop_ok_reply`.
    Unregister(Option<u64>),
    /// Wait one polling tick; read on.
    Wait,
    /// Remove the client, if any, and end the connection normally.
    Close(Option<u64>),
    /// Remove the client, if any, and end the connection with the read error.
    Fail(Option<u64>),
}

/// An event over character sequences.
pub enum EventMeaning {
    Line(Seq<char>, u64),
    Closed,
    Idle(u64),
    ReadFailed,
    Registered(u64),
}

/// An action over character sequences.
pub enum ActionMeaning {
    Nothing,
    Reply(Seq<char>),
    Register(Seq<char>, Seq<Seq<char>>),
    Abort(Seq<char>),
    Unregister(Option<u64>),
    Wait,
    Close(Option<u64>),
    Fail(Option<u64>),
}

impl ConnEvent {
    /// The meaning of this event.
    pub open spec fn meaning(&self) -> EventMeaning {
        match self {
            ConnEvent::Line { text, now_ms } => EventMeaning::Line(text@, *now_ms),
            ConnEvent::Closed => EventMeaning::Closed,
            ConnEvent::Idle { now_ms } => EventMeaning::Idle(*now_ms),
            ConnEvent::ReadFailed => EventMeaning::ReadFailed,
            ConnEvent::Registered(id) => EventMeaning::Registered(*id),
        }
    }
}

impl ConnAction {
    /// The meaning of this action; an error is taken by its message.
    pub open spec fn meaning(&self) -> ActionMeaning {
        match self {
            ConnAction::Nothing => ActionMeaning::Nothing,
            ConnAction::Reply(r) => ActionMeaning::Reply(r@),
            ConnAction::Register { addr, tickers } => ActionMeaning::Register(
                addr@,
                tickers@.map_values(|t: String| t@),
            ),
            ConnAction::Abort(e) => ActionMeaning::Abort(e.text()),
            ConnAction::Unregister(id) => ActionMeaning::Unregister(*id),
            ConnAction::Wait => ActionMeaning::Wait,
            ConnAction::Close(id) => ActionMeaning::Close(*id),
            ConnAction::Fail(id) => ActionMeaning::Fail(*id),
        }
    }
}

/// Milliseconds from `last_ms` to `now_ms` (none if the clock reads
/// earlier).
pub open spec fn idle_ms(last_ms: u64, now_ms: u64) -> int {
    if now_ms >= last_ms {
        now_ms - last_ms
    } else {
        0
    }
}

/// The message of the error that ends a connection on a `STREAM` command
/// without enough arguments.
pub open spec fn stream_usage_text() -> Seq<char> {
    "Invalid command received: "@ + "STREAM host:port TICKER..."@
}

/// The decision on one event: from the registered client and the time of the
/// last line received, to the new client, the new time of the last line, and
/// the action.
///
/// - Every line counts as activity. A ping is answered `PONG`, an invalid
///   command `ERR Invalid command`; a stream request is registered; a `STREAM`
///   without arguments ends the connection with an error; a stop unregisters
///   the client (if any) and clears it.
/// - When the peer closes, the connection ends, leaving the client registered.
/// - A read that times out more than `CLIENT_KEEP_ALIVE_SEC` seconds after the
///   last line ends the connection and removes the client; an earlier one
///   just waits.
/// - A failed read ends the connection and removes the client.
/// - A registration records the client and answers `STREAM OK`; a client
///   registered earlier on the same connection is no longer tracked by it.
pub open spec fn connection_step(client: Option<u64>, last_ms: u64, event: EventMeaning) -> (Option<u64>, u64, ActionMeaning) {
    match event {
        EventMeaning::Line(text, now) => match command_of(text) {
            CommandMeaning::Empty => (client, now, ActionMeaning::Nothing),
            CommandMeaning::Ping => (client, now, ActionMeaning::Reply("PONG\n"@)),
            CommandMeaning::Stream(addr, tickers) => (client, now, ActionMeaning::Register(addr, tickers)),
            CommandMeaning::StreamUsage => (client, now, ActionMeaning::Abort(stream_usage_text())),
            CommandMeaning::Stop => (None, now, ActionMeaning::Unregister(client)),
            CommandMeaning::Invalid(_) => (client, now, ActionMeaning::Reply("ERR Invalid command\n"@)),
        },
        EventMeaning::Closed => (client, last_ms, ActionMeaning::Close(None)),
        EventMeaning::Idle(now) => if idle_ms(last_ms, now) > CLIENT_KEEP_ALIVE_SEC * 1000 {
            (None, last_ms, ActionMeaning::Close(client))
        } else {
            (client, last_ms, ActionMeaning::Wait)
        },
        EventMeaning::ReadFailed => (None, last_ms, ActionMeaning::Fail(client)),
        EventMeaning::Registered(id) => (Some(id), last_ms, ActionMeaning::Reply("STREAM OK\n"@)),
    }
}

/// The state of one client connection: the client it registered, if any,
/// and when it last sent a line.
pub struct Connection {
    client: Option<u64>,
    last_ms: u64,
}

impl Connection {
    /// The client this connection registered, if any.
    pub closed spec fn registered(&self) -> Option<u64> {
        self.client
    }

    /// When the last line arrived (or the connection was accepted).
    pub closed spec fn last_activity(&self) -> u64 {
        self.last_ms
    }

    /// A connection just accepted, at time zero, with no client.
    pub fn new() -> (c: Self)
        ensures
            c.registered() is None,
            c.last_activity() == 0,
    {
        Connection { client: None, last_ms: 0 }
    }

    /// The client this connection registered, if any.
    pub fn client(&self) -> (r: Option<u64>)
        ensures
            r == self.registered(),
    {
        self.client
    }

    /// Takes the decision on `event` and moves to the next state.
    pub fn step(&mut self, event: ConnEvent) -> (a: ConnAction)
        ensures
            (final(self).registered(), final(self).last_activity(), a.meaning())
                == connection_step(old(self).registered(), old(self).last_activity(), event.meaning()),
    {
        match event {
            ConnEvent::Line { text, now_ms } => {
                self.last_ms = now_ms;
                match parse_command(text.as_str()) {
                    Command::Empty => ConnAction::Nothing,
                    Command::Ping => ConnAction::Reply(pong_reply()),
                    Command::Stream { addr, tickers } => ConnAction::Register { addr, tickers },
                    Command::StreamUsage => {
                        let e = stream_usage_error();
                        let ghost t = e.text();
                        assert(t == stream_usage_text());
                        ConnAction::Abort(e)
                    },
                    Command::Stop => {
                        let id = self.client;
                        self.client = None;
                        ConnAction::Unregister(id)
                    },
                    Command::Invalid(_) => ConnAction::Reply(invalid_reply()),
                }
            },
            ConnEvent::Closed => ConnAction::Close(None),
            ConnEvent::Idle { now_ms } => {
                let idle: u64 = if now_ms >= self.last_ms { now_ms - self.last_ms } else { 0 };
                if idle > CLIENT_KEEP_ALIVE_SEC * 1000 {
                    let id = self.client;
                    self.client = None;
                    ConnAction::Close(id)
                } else {
                    ConnAction::Wait
                }
            },
            ConnEvent::ReadFailed => {
                let id = self.client;
                self.client = None;
                ConnAction::Fail(id)
            },
            ConnEvent::Registered(id) => {
                self.client = Some(id);
                ConnAction::Reply(stream_ok_reply())
            },
        }
    }
}


// ---------------------------------------------------------------------------
// Laws of the protocol
// ---------------------------------------------------------------------------

/// A ping is answered `PONG` and changes nothing but the time of the last
/// line.
pub proof fn law_ping_answers_pong(client: Option<u64>, last_ms: u64, line: Seq<char>, now: u64)
    requires
        command_of(line) == CommandMeaning::Ping,
    ensures
        connection_step(client, last_ms, EventMeaning::Line(line, now)) == (client, now, ActionMeaning::Reply("PONG\n"@)),
{
}

/// An invalid command is answered `ERR Invalid command` and changes nothing
/// but the time of the last line.
pub proof fn law_invalid_answers_err(client: Option<u64>, last_ms: u64, line: Seq<char>, now: u64)
    requires
        command_of(line) is Invalid,
    ensures
        connection_step(client, last_ms, EventMeaning::Line(line, now)) == (
            client,
            now,
            ActionMeaning::Reply("ERR Invalid command\n"@),
        ),
{
}

/// A stream registered under `id` is what a later stop removes, and a second
/// stop finds nothing to remove.
pub proof fn law_stop_removes_registered(client: Option<u64>, last_ms: u64, id: u64, stop: Seq<char>, t1: u64, t2: u64)
    requires
        command_of(stop) == CommandMeaning::Stop,
    ensures
        ({
            let (c1, l1, a1) = connection_step(client, last_ms, EventMeaning::Registered(id));
            let (c2, l2, a2) = connection_step(c1, l1, EventMeaning::Line(stop, t1));
            let (c3, l3, a3) = connection_step(c2, l2, EventMeaning::Line(stop, t2));
            &&& a1 == ActionMeaning::Reply("STREAM OK\n"@)
            &&& a2 == ActionMeaning::Unregister(Some(id))
            &&& c2 is None
            &&& a3 == ActionMeaning::Unregister(None)
        }),
{
}

/// Keep-alive: after a line at `t` (other than a stop, which clears the
/// client), a timed-out read at `t + d` waits, with the client kept, while `d`
/// is at most `CLIENT_KEEP_ALIVE_SEC` seconds, and otherwise ends the
/// connection and removes the client.
pub proof fn law_keep_alive(client: Option<u64>, last_ms: u64, line: Seq<char>, t: u64, d: u64)
    requires
        !(command_of(line) is Stop),
        t + d <= u64::MAX,
    ensures
        ({
            let (c1, l1, a1) = connection_step(client, last_ms, EventMeaning::Line(line, t));
            let (c2, l2, a2) = connection_step(c1, l1, EventMeaning::Idle((t + d) as u64));
            &&& d <= CLIENT_KEEP_ALIVE_SEC * 1000 ==> c2 == client && a2 == ActionMeaning::Wait
            &&& d > CLIENT_KEEP_ALIVE_SEC * 1000 ==> c2 is None && a2 == ActionMeaning::Close(client)
        }),
{
}

/// Only a line moves the time of the last activity, to the time the line
/// arrived; every other event (a registration, a timed-out read, a close, a
/// failure) leaves it where it was.
pub proof fn law_activity_clock(client: Option<u64>, last_ms: u64, event: EventMeaning)
    ensures
        connection_step(client, last_ms, event).1 == (match event {
            EventMeaning::Line(_, now) => now,
            _ => last_ms,
        }),
{
}

/// A timed-out read closes the connection and removes the client exactly when
/// more than 5000 ms have passed since the last line; otherwise it waits and
/// keeps the client.
pub proof fn law_idle_decision(client: Option<u64>, last_ms: u64, now: u64)
    ensures
        ({
            let (c, l, a) = connection_step(client, last_ms, EventMeaning::Idle(now));
            &&& l == last_ms
            &&& now >= last_ms && now - last_ms > 5000 ==> c is None && a == ActionMeaning::Close(client)
            &&& !(now >= last_ms && now - last_ms > 5000) ==> c == client && a == ActionMeaning::Wait
        }),
{
}

/// A `STREAM` line at `t` and its registration as `id`, followed by a
/// timed-out read at `t + d`: the client is registered, and the read waits
/// when `d` is at most 5000 ms and closes, removing `id`, otherwise.
pub proof fn law_stream_then_idle(client: Option<u64>, last_ms: u64, line: Seq<char>, id: u64, t: u64, d: u64)
    requires
        command_of(line) is Stream,
        t + d <= u64::MAX,
    ensures
        ({
            let (c1, l1, a1) = connection_step(client, last_ms, EventMeaning::Line(line, t));
            let (c2, l2, a2) = connection_step(c1, l1, EventMeaning::Registered(id));
            let (c3, l3, a3) = connection_step(c2, l2, EventMeaning::Idle((t + d) as u64));
            &&& c2 == Some(id)
            &&& l2 == t
            &&& d <= 5000 ==> c3 == Some(id) && a3 == ActionMeaning::Wait
            &&& d > 5000 ==> c3 is None && a3 == ActionMeaning::Close(Some(id))
        }),
{
}

/// How a line is classified by its trimmed text: nothing is ignored; a text
/// starting with `PING` is a ping and one starting with `STOP` a stop,
/// whatever follows; a text starting with none of `PING`, `STREAM ` and
/// `STOP` is invalid, carrying that text.
pub proof fn law_command_by_prefix(line: Seq<char>)
    ensures
        trimmed(line).len() == 0 ==> command_of(line) == CommandMeaning::Empty,
        has_prefix(trimmed(line), seq!['P', 'I', 'N', 'G']) ==> command_of(line) == CommandMeaning::Ping,
        has_prefix(trimmed(line), seq!['S', 'T', 'O', 'P']) ==> command_of(line) == CommandMeaning::Stop,
        trimmed(line).len() > 0 && !has_prefix(trimmed(line), seq!['P', 'I', 'N', 'G']) && !has_prefix(
            trimmed(line),
            seq!['S', 'T', 'R', 'E', 'A', 'M', ' '],
        ) && !has_prefix(trimmed(line), seq!['S', 'T', 'O', 'P']) ==> command_of(line) == CommandMeaning::Invalid(
            trimmed(line),
        ),
{
    let m = trimmed(line);
    assert(ping_word() =~= seq!['P', 'I', 'N', 'G']);
    assert(stop_word() =~= seq!['S', 'T', 'O', 'P']);
    assert(stream_word() =~= seq!['S', 'T', 'R', 'E', 'A', 'M', ' ']);
    if has_prefix(m, stop_word()) {
        assert(m[0] == m.subrange(0, 4)[0]);
        assert(m[2] == m.subrange(0, 4)[2]);
        if has_prefix(m, ping_word()) {
            assert(m.subrange(0, 4)[0] == 'P');
        }
        if has_prefix(m, stream_word()) {
            assert(m.subrange(0, 7)[2] == m[2]);
        }
    }
}

/// A line whose trimmed text starts with `STREAM ` and has at least three
/// whitespace-separated words asks to stream to the second word, with every
/// word after it, in order, as the tickers.
pub proof fn law_stream_tickers(line: Seq<char>)
    requires
        has_prefix(trimmed(line), seq!['S', 'T', 'R', 'E', 'A', 'M', ' ']),
        words(trimmed(line)).len() >= 3,
    ensures
        command_of(line) == CommandMeaning::Stream(
            words(trimmed(line))[1],
            words(trimmed(line)).subrange(2, words(trimmed(line)).len() as int),
        ),
        command_of(line) matches CommandMeaning::Stream(a, ts) && ts.len() + 2 == words(trimmed(line)).len()
            && forall|i: int| 0 <= i < ts.len() ==> ts[i] == words(trimmed(line))[i + 2],
{
    let m = trimmed(line);
    assert(m.subrange(0, 4)[0] == 'S');
    assert(!has_prefix(m, ping_word())) by {
        if has_prefix(m, ping_word()) {
            assert(m.subrange(0, 4) == ping_word());
            assert(m.subrange(0, 7)[0] == m[0]);
        }
    }
    assert(m.len() > 0);
    let w = words(m);
    assert(w.skip(2) =~= w.subrange(2, w.len() as int));
}

/// A failed read removes the registered client and ends the connection; a
/// close by the peer ends it without removing anything.
pub proof fn law_connection_end(client: Option<u64>, last_ms: u64)
    ensures
        connection_step(client, last_ms, EventMeaning::ReadFailed) == (None::<u64>, last_ms, ActionMeaning::Fail(client)),
        connection_step(client, last_ms, EventMeaning::Closed) == (client, last_ms, ActionMeaning::Close(None)),
{
}

} // verus!
