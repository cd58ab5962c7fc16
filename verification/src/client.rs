//! A streaming client: which quotes it receives on an update, and the
//! lifecycle of its command channel.
use vstd::prelude::*;
use crate::errors::ClientError;
use crate::quote_book::QuoteBook;
use crate::text::chars_of;

verus! {

/// Commands sent from the server to a client's loop.
#[derive(Clone, Copy, Debug, PartialEq, Eq, Structural)]
pub enum ClientCommand {
    /// Deliver the current quotes of the client's tickers.
    Update,
    /// Stop the client loop.
    Shutdown,
}

// ---------------------------------------------------------------------------
// Which quotes an update delivers
// ---------------------------------------------------------------------------

/// The quotes an update delivers to a client subscribed to `tickers`: for
/// each subscribed symbol in order, its quote when `quotes` has one.
pub open spec fn subscribed<Q>(tickers: Seq<Seq<char>>, quotes: Map<Seq<char>, Q>) -> Seq<Q>
    decreases tickers.len(),
{
    if tickers.len() == 0 {
        Seq::<Q>::empty()
    } else {
        let prev = subscribed(tickers.drop_last(), quotes);
        if quotes.contains_key(tickers.last()) {
            prev.push(quotes[tickers.last()])
        } else {
            prev
        }
    }
}

/// An update delivers, in subscription order, the quote of every subscribed
/// symbol that the book has, and nothing else: the subscribed symbols kept
/// when present in the book, each replaced by its quote.
pub proof fn law_subscribed_delivers_all_present<Q>(tickers: Seq<Seq<char>>, quotes: Map<Seq<char>, Q>)
    ensures
        subscribed(tickers, quotes) == tickers.filter(|t: Seq<char>| quotes.contains_key(t)).map_values(
            |t: Seq<char>| quotes[t],
        ),
    decreases tickers.len(),
{
    let p = |t: Seq<char>| quotes.contains_key(t);
    let f = |t: Seq<char>| quotes[t];
    if tickers.len() == 0 {
        assert(tickers.filter(p) =~= Seq::<Seq<char>>::empty()) by {
            reveal(Seq::filter);
        }
        assert(tickers.filter(p).map_values(f) =~= Seq::<Q>::empty());
    } else {
        let rest = tickers.drop_last();
        law_subscribed_delivers_all_present(rest, quotes);
        assert(rest.push(tickers.last()) == tickers);
        rest.lemma_filter_push(tickers.last(), p);
        if quotes.contains_key(tickers.last()) {
            assert(rest.filter(p).push(tickers.last()).map_values(f) =~= rest.filter(p).map_values(f).push(
                quotes[tickers.last()],
            ));
        }
    }
}

/// Every subscribed symbol that the book has is delivered: its quote is in
/// what an update hands the client.
pub proof fn law_subscribed_complete<Q>(tickers: Seq<Seq<char>>, quotes: Map<Seq<char>, Q>, j: int)
    requires
        0 <= j < tickers.len(),
        quotes.contains_key(tickers[j]),
    ensures
        subscribed(tickers, quotes).contains(quotes[tickers[j]]),
    decreases tickers.len(),
{
    let rest = tickers.drop_last();
    if j < tickers.len() - 1 {
        assert(rest[j] == tickers[j]);
        law_subscribed_complete(rest, quotes, j);
        let prev = subscribed(rest, quotes);
        let k = choose|k: int| 0 <= k < prev.len() && prev[k] == quotes[tickers[j]];
        if quotes.contains_key(tickers.last()) {
            assert(subscribed(tickers, quotes)[k] == prev[k]);
        }
    } else {
        let cur = subscribed(tickers, quotes);
        assert(cur[cur.len() - 1] == quotes[tickers[j]]);
    }
}

/// An update delivers only quotes of the client's own tickers: each quote
/// delivered is the book's quote of a subscribed symbol, and a client none of
/// whose symbols the book has receives nothing.
pub proof fn law_subscribed_only_own<Q>(tickers: Seq<Seq<char>>, quotes: Map<Seq<char>, Q>)
    ensures
        forall|i: int| 0 <= i < subscribed(tickers, quotes).len() ==> exists|j: int|
            0 <= j < tickers.len() && quotes.contains_key(#[trigger] tickers[j]) && quotes[tickers[j]]
                == #[trigger] subscribed(tickers, quotes)[i],
        (forall|j: int| 0 <= j < tickers.len() ==> !quotes.contains_key(#[trigger] tickers[j]))
            ==> subscribed(tickers, quotes).len() == 0,
        subscribed(tickers, quotes).len() <= tickers.len(),
    decreases tickers.len(),
{
    if tickers.len() > 0 {
        let rest = tickers.drop_last();
        law_subscribed_only_own(rest, quotes);
        let prev = subscribed(rest, quotes);
        let cur = subscribed(tickers, quotes);
        assert forall|i: int| 0 <= i < cur.len() implies exists|j: int|
            0 <= j < tickers.len() && quotes.contains_key(#[trigger] tickers[j]) && quotes[tickers[j]] == #[trigger] cur[i] by {
            if i < prev.len() {
                assert(cur[i] == prev[i]);
                let j = choose|j: int| 0 <= j < rest.len() && quotes.contains_key(#[trigger] rest[j]) && quotes[rest[j]] == prev[i];
                assert(tickers[j] == rest[j]);
            } else {
                assert(tickers[tickers.len() - 1] == tickers.last());
            }
        }
        if forall|j: int| 0 <= j < tickers.len() ==> !quotes.contains_key(#[trigger] tickers[j]) {
            assert forall|j: int| 0 <= j < rest.len() implies !quotes.contains_key(#[trigger] rest[j]) by {
                assert(rest[j] == tickers[j]);
            }
            assert(!quotes.contains_key(tickers[tickers.len() - 1]));
        }
    }
}

/// The quotes of `book` that a client subscribed to `tickers` receives on
/// an update, in the order of its subscription.
pub fn subscribed_quotes<'a, Q>(book: &'a QuoteBook<Q>, tickers: &Vec<String>) -> (r: Vec<&'a Q>)
    requires
        book.wf(),
    ensures
        r@.map_values(|q: &Q| *q) == subscribed(tickers@.map_values(|t: String| t@), book.view()),
{
    let ghost tv = tickers@.map_values(|t: String| t@);
    let mut out: Vec<&'a Q> = Vec::new();
    let n = tickers.len();
    for i in 0..n
        invariant
            n == tickers@.len(),
            tv == tickers@.map_values(|t: String| t@),
            book.wf(),
            out@.map_values(|q: &Q| *q) == subscribed(tv.take(i as int), book.view()),
    {
        assert(tv.take(i + 1).drop_last() == tv.take(i as int));
        assert(tv.take(i + 1).last() == tickers@[i as int]@);
        let ghost before = out@;
        match book.get(tickers[i].as_str()) {
            Some(q) => {
                out.push(q);
                assert(out@.map_values(|q: &Q| *q) =~= before.map_values(|q: &Q| *q).push(*q));
            },
            None => {},
        }
    }
    assert(tv.take(n as int) == tv);
    out
}

// ---------------------------------------------------------------------------
// The client loop
// ---------------------------------------------------------------------------

/// Whether the client loop goes on after receiving `received` (`None` when
/// the channel is closed): only an `Update` keeps it running.
pub open spec fn loop_continues(received: Option<ClientCommand>) -> bool {
    received == Some(ClientCommand::Update)
}

/// Decides whether the client loop goes on after a receive.
pub fn continue_after(received: Option<ClientCommand>) -> (b: bool)
    ensures
        b == loop_continues(received),
{
    match received {
        Some(ClientCommand::Update) => true,
        _ => false,
    }
}

// ---------------------------------------------------------------------------
// The command channel of a client, seen from the server
// ---------------------------------------------------------------------------

/// Whether a client's command channel is open: it opens when the client loop
/// starts, and closes once a `Shutdown` has been delivered.
pub struct ClientLink {
    open: bool,
}

impl ClientLink {
    /// Whether commands can be sent.
    pub closed spec fn is_open(&self) -> bool {
        self.open
    }

    /// The link of a client whose loop has not started.
    pub fn new() -> (l: Self)
        ensures
            !l.is_open(),
    {
        ClientLink { open: false }
    }

    /// Records that the client loop has started.
    pub fn started(&mut self)
        ensures
            final(self).is_open(),
    {
        self.open = true;
    }

    /// Whether commands can be sent.
    pub fn is_open_now(&self) -> (b: bool)
        ensures
            b == self.is_open(),
    {
        self.open
    }

    /// Checks that a command can be sent: an `InitializationError` when the
    /// loop has not started or has been shut down.
    pub fn check_send(&self) -> (r: Result<(), ClientError>)
        ensures
            r is Ok <==> self.is_open(),
            r matches Err(e) ==> e matches ClientError::InitializationError(m) && m@
                == "Client loop not started or already shutdown"@,
    {
        if self.open {
            Ok(())
        } else {
            Err(ClientError::InitializationError(
                crate::text::string_of(chars_of("Client loop not started or already shutdown").as_slice()),
            ))
        }
    }

    /// Records that `cmd` was delivered: after a `Shutdown` the channel is
    /// closed.
    pub fn delivered(&mut self, cmd: ClientCommand)
        ensures
            final(self).is_open() == open_after(old(self).is_open(), cmd),
    {
        if cmd == ClientCommand::Shutdown {
            self.open = false;
        }
    }

    /// The error for a command the channel would not take, with the
    /// channel's own reason.
    pub fn send_failed(reason: &str) -> (e: ClientError)
        ensures
            e matches ClientError::InitializationError(m) && m@ == "Failed to send command: "@ + reason@,
    {
        let mut cs = chars_of("Failed to send command: ");
        let rs = chars_of(reason);
        let ghost start = cs@;
        let n = rs.len();
        for i in 0..n
            invariant
                n == rs@.len(),
                cs@ == start + rs@.take(i as int),
        {
            cs.push(rs[i]);
            assert(rs@.take(i as int).push(rs@[i as int]) == rs@.take(i + 1));
        }
        assert(rs@.take(n as int) == rs@);
        ClientError::InitializationError(crate::text::string_of(cs.as_slice()))
    }
}

/// Whether the channel is open after `cmd` was delivered on a channel that
/// was open or not.
pub open spec fn open_after(open: bool, cmd: ClientCommand) -> bool {
    open && cmd != ClientCommand::Shutdown
}

/// Once a `Shutdown` has been delivered, every later send is refused (by
/// `ClientLink::check_send`) until the loop is started again, however many
/// further deliveries are recorded; an `Update` leaves the link as it was.
pub proof fn law_no_send_after_shutdown(open: bool, later: Seq<ClientCommand>)
    ensures
        !open_after(open, ClientCommand::Shutdown),
        open_after(open, ClientCommand::Update) == open,
        !later.fold_left(open_after(open, ClientCommand::Shutdown), |o: bool, c: ClientCommand| open_after(o, c)),
    decreases later.len(),
{
    if later.len() > 0 {
        law_no_send_after_shutdown(open, later.drop_last());
    }
}

} // verus!
