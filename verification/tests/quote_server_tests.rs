use quote_server::client::{subscribed_quotes, ClientCommand, ClientLink};
use quote_server::config::{book_from_config, read_tickers};
use quote_server::errors::{CliError, ClientError, QuoteServerError, TcpServerError};
use quote_server::quote_book::QuoteBook;
use quote_server::registry::Registry;

/// A quote as the tests hold it: ticker, price, volume, timestamp.
#[derive(Clone, Debug, PartialEq)]
struct TestQuote {
    ticker: String,
    price: f64,
    volume: u32,
    timestamp: u64,
}

fn quote(ticker: &str) -> TestQuote {
    TestQuote { ticker: ticker.to_string(), price: 100.0, volume: 0, timestamp: 0 }
}

#[test]
fn quote_server_test_from_config_valid_file() {
    // The file holds what `writeln!(file, "AAPL\nGOOG\nMSFT")` writes.
    let book = book_from_config("AAPL\nGOOG\nMSFT\n", quote);
    assert!(book.contains_key("AAPL"));
    assert!(book.contains_key("GOOG"));
    assert!(book.contains_key("MSFT"));
}

#[test]
fn config_trims_uppercases_and_skips_blank_lines() {
    let tickers = read_tickers("  aapl \r\n\n\t\nmsft\nAAPL");
    assert_eq!(tickers, vec!["AAPL".to_string(), "MSFT".to_string(), "AAPL".to_string()]);
    let book = book_from_config("  aapl \r\n\n\t\nmsft\nAAPL", quote);
    assert_eq!(book.len(), 2);
    assert_eq!(book.get("AAPL").unwrap().ticker, "AAPL");
    assert!(book.get("aapl").is_none());
}

#[test]
fn config_empty_text_has_no_tickers() {
    assert!(read_tickers("").is_empty());
    assert!(read_tickers("\n \n").is_empty());
}

#[test]
fn client_test_client_filters_unrelated_tickers() {
    let mut book = QuoteBook::new();
    book.insert("AAPL".to_string(), quote("AAPL"));
    book.insert("MSFT".to_string(), quote("MSFT"));
    let result = subscribed_quotes(&book, &vec!["MSFT".to_string()]);
    assert_eq!(result.len(), 1);
    assert_eq!(result[0].ticker, "MSFT");
}

#[test]
fn client_receives_only_known_tickers_in_subscription_order() {
    let mut book = QuoteBook::new();
    let mut aapl = quote("AAPL");
    aapl.price = 150.0;
    aapl.volume = 1000;
    aapl.timestamp = 123456;
    book.insert("AAPL".to_string(), aapl.clone());
    book.insert("GOOG".to_string(), quote("GOOG"));
    let subs = vec!["GOOG".to_string(), "NONE".to_string(), "AAPL".to_string()];
    let result = subscribed_quotes(&book, &subs);
    assert_eq!(result.len(), 2);
    assert_eq!(result[0].ticker, "GOOG");
    assert_eq!(*result[1], aapl);
}

#[test]
fn quote_book_insert_replaces() {
    let mut book = QuoteBook::new();
    book.insert("AAPL".to_string(), 1u32);
    book.insert("AAPL".to_string(), 2u32);
    assert_eq!(book.len(), 1);
    assert_eq!(book.get("AAPL"), Some(&2u32));
    assert_eq!(book.tickers(), &vec!["AAPL".to_string()]);
}

#[test]
fn client_link_refuses_sends_after_shutdown() {
    let mut link = ClientLink::new();
    assert!(link.check_send().is_err());
    link.started();
    assert!(link.check_send().is_ok());
    link.delivered(ClientCommand::Update);
    assert!(link.check_send().is_ok());
    link.delivered(ClientCommand::Shutdown);
    match link.check_send() {
        Err(ClientError::InitializationError(m)) => {
            assert_eq!(m, "Client loop not started or already shutdown")
        }
        other => panic!("unexpected {:?}", other),
    }
}

#[test]
fn client_send_failure_message() {
    match ClientLink::send_failed("sending on a closed channel") {
        ClientError::InitializationError(m) => {
            assert_eq!(m, "Failed to send command: sending on a closed channel")
        }
        other => panic!("unexpected {:?}", other),
    }
}

#[test]
fn registry_add_and_remove() {
    let mut reg: Registry<String> = Registry::new();
    let a = reg.add("first".to_string());
    let b = reg.add("second".to_string());
    assert_eq!(a, 0);
    assert_eq!(b, 1);
    assert_eq!(reg.len(), 2);
    assert!(reg.contains(a));
    if let Some(c) = reg.get_mut(b) {
        c.push('!');
    }
    assert_eq!(reg.remove(b), Some("second!".to_string()));
    assert_eq!(reg.remove(b), None);
    assert_eq!(reg.len(), 1);
    assert_eq!(reg.ids(), &vec![0u64]);
    let c = reg.add("third".to_string());
    assert_eq!(c, 2);
}

#[test]
fn errors_print_their_messages() {
    let e = QuoteServerError::InvalidConfig("No such file".to_string());
    assert_eq!(e.to_string(), "Invalid Quote Server config: No such file");
    let c = ClientError::CallbackFailed("boom".to_string());
    assert_eq!(c.to_string(), "Callback returned an error: boom");
    let s: QuoteServerError = ClientError::InitializationError("x".to_string()).into();
    match &s {
        QuoteServerError::ClientError(m) => assert_eq!(m, "Failed to initialize client loop: x"),
        other => panic!("unexpected {:?}", other),
    }
    assert_eq!(s.to_string(), "Failed to add/remove client: Failed to initialize client loop: x");
    let t: TcpServerError = s.into();
    assert_eq!(
        t.to_string(),
        "Quote server error: Failed to add/remove client: Failed to initialize client loop: x"
    );
    let cli: CliError =
        QuoteServerError::UpdateQuoteError("late".to_string()).into();
    assert_eq!(cli.to_string(), "Cli failed with error: Failed to update quotes: late");
}

#[test]
fn quote_book_values_change_in_place() {
    let mut book = QuoteBook::new();
    book.insert("AAPL".to_string(), quote("AAPL"));
    book.insert("GOOG".to_string(), quote("GOOG"));
    for q in book.values_mut().iter_mut() {
        q.volume = if q.ticker == "AAPL" { 5 } else { 7 };
    }
    assert_eq!(book.len(), 2);
    assert_eq!(book.get("AAPL").unwrap().volume, 5);
    assert_eq!(book.get("GOOG").unwrap().volume, 7);
}

#[test]
fn every_error_variant_prints_its_message() {
    let m = || "m".to_string();
    assert_eq!(QuoteServerError::InitializationError(m()).to_string(), "Failed to initialize Quote Server: m");
    assert_eq!(QuoteServerError::UpdateQuoteError(m()).to_string(), "Failed to update quotes: m");
    assert_eq!(QuoteServerError::ClientError(m()).to_string(), "Failed to add/remove client: m");
    assert_eq!(ClientError::InitializationError(m()).to_string(), "Failed to initialize client loop: m");
    assert_eq!(TcpServerError::BindError(m()).to_string(), "Failed to bind TCP listener: m");
    assert_eq!(TcpServerError::AcceptError(m()).to_string(), "Failed to accept TCP connection: m");
    assert_eq!(TcpServerError::ClientIoError(m()).to_string(), "Client IO error: m");
    assert_eq!(TcpServerError::InvalidCommand(m()).to_string(), "Invalid command received: m");
    assert_eq!(CliError::GeneralError(m()).to_string(), "Cli failed with error: m");
}
