use quote_server::cli::{classify_input, is_pong, parse_log_level, CliInput, LogLevel};
use quote_server::errors::TcpServerError;
use quote_server::generator::{next_volume, volume_from_draw, volume_range};
use quote_server::protocol::{parse_command, Command, ConnAction, ConnEvent, Connection};
use quote_server::errors::QuoteServerError;
use quote_server::server_control::{
    generator_init_error, keep_waiting_for_quotes, lock_clients_error, update_failed_error,
    update_timeout_error, ServerControl,
};

fn line(text: &str, now_ms: u64) -> ConnEvent {
    ConnEvent::Line { text: text.to_string(), now_ms }
}

fn reply_of(a: ConnAction) -> String {
    match a {
        ConnAction::Reply(r) => r,
        _ => panic!("expected a reply"),
    }
}

#[test]
fn test_ping_pong() {
    let mut conn = Connection::new();
    let r = reply_of(conn.step(line("PING\n", 10)));
    assert_eq!(r.trim(), "PONG");
    assert_eq!(r, "PONG\n");
}

#[test]
fn test_invalid_command() {
    let mut conn = Connection::new();
    let r = reply_of(conn.step(line("BLAH\n", 10)));
    assert_eq!(r.trim(), "ERR Invalid command");
}

#[test]
fn test_stream_registers_client() {
    let mut conn = Connection::new();
    match conn.step(line("STREAM 127.0.0.1:50000 AAPL MSFT\n", 5)) {
        ConnAction::Register { addr, tickers } => {
            assert_eq!(addr, "127.0.0.1:50000");
            assert_eq!(tickers, vec!["AAPL".to_string(), "MSFT".to_string()]);
        }
        _ => panic!("expected a registration"),
    }
    let r = reply_of(conn.step(ConnEvent::Registered(7)));
    assert_eq!(r.trim(), "STREAM OK");
    assert_eq!(conn.client(), Some(7));
}

#[test]
fn test_stop_removes_client() {
    let mut conn = Connection::new();
    assert!(matches!(conn.step(line("STREAM 127.0.0.1:50000 AAPL\n", 1)), ConnAction::Register { .. }));
    let _ = conn.step(ConnEvent::Registered(3));
    match conn.step(line("STOP\n", 2)) {
        ConnAction::Unregister(id) => assert_eq!(id, Some(3)),
        _ => panic!("expected an unregistration"),
    }
    assert_eq!(conn.client(), None);
    assert!(matches!(conn.step(line("STOP", 3)), ConnAction::Unregister(None)));
    assert_eq!(quote_server::protocol::stop_ok_reply().trim(), "STOP OK");
}

#[test]
fn stream_without_tickers_ends_connection() {
    let mut conn = Connection::new();
    match conn.step(line("STREAM 127.0.0.1:50000", 1)) {
        ConnAction::Abort(TcpServerError::InvalidCommand(m)) => {
            assert_eq!(m, "STREAM host:port TICKER...")
        }
        _ => panic!("expected an abort"),
    }
    // "STREAM" alone does not start with "STREAM " once trimmed.
    assert!(matches!(parse_command("  STREAM \n"), Command::Invalid(_)));
}

#[test]
fn commands_are_matched_by_prefix() {
    assert!(matches!(parse_command("PINGX"), Command::Ping));
    assert!(matches!(parse_command("STOPPED"), Command::Stop));
    assert!(matches!(parse_command("  \t \r\n"), Command::Empty));
    assert!(matches!(parse_command("ping"), Command::Invalid(_)));
    match parse_command("  STREAM   h:1\tA  B \n") {
        Command::Stream { addr, tickers } => {
            assert_eq!(addr, "h:1");
            assert_eq!(tickers, vec!["A".to_string(), "B".to_string()]);
        }
        _ => panic!("expected a stream"),
    }
    match parse_command(" hello there \n") {
        Command::Invalid(m) => assert_eq!(m, "hello there"),
        _ => panic!("expected invalid"),
    }
}

#[test]
fn keep_alive_timeout_removes_client() {
    let mut conn = Connection::new();
    let _ = conn.step(ConnEvent::Registered(9));
    let _ = conn.step(line("PING", 1000));
    assert!(matches!(conn.step(ConnEvent::Idle { now_ms: 6000 }), ConnAction::Wait));
    assert_eq!(conn.client(), Some(9));
    assert!(matches!(conn.step(ConnEvent::Idle { now_ms: 6001 }), ConnAction::Close(Some(9))));
    assert_eq!(conn.client(), None);
}

#[test]
fn closing_and_failures() {
    let mut conn = Connection::new();
    let _ = conn.step(ConnEvent::Registered(1));
    assert!(matches!(conn.step(ConnEvent::Closed), ConnAction::Close(None)));
    assert!(matches!(conn.step(ConnEvent::ReadFailed), ConnAction::Fail(Some(1))));
    assert!(matches!(conn.step(ConnEvent::ReadFailed), ConnAction::Fail(None)));
}

#[test]
fn client_prompt_input() {
    assert!(matches!(classify_input("   \n"), CliInput::Empty));
    assert!(matches!(classify_input(" exit\n"), CliInput::Exit));
    assert!(matches!(classify_input("ExIt"), CliInput::Exit));
    match classify_input(" STREAM 127.0.0.1:50000 AAPL MSFT \n") {
        CliInput::Send(c) => assert_eq!(c, "STREAM 127.0.0.1:50000 AAPL MSFT"),
        _ => panic!("expected a command"),
    }
    assert!(is_pong("PONG\n"));
    assert!(!is_pong("PONGS\n"));
    assert!(!is_pong(""));
}

#[test]
fn log_levels() {
    assert_eq!(parse_log_level("error"), LogLevel::Error);
    assert_eq!(parse_log_level("WARN"), LogLevel::Warn);
    assert_eq!(parse_log_level("Debug"), LogLevel::Debug);
    assert_eq!(parse_log_level("trace"), LogLevel::Trace);
    assert_eq!(parse_log_level("info"), LogLevel::Info);
    assert_eq!(parse_log_level("verbose"), LogLevel::Info);
}

#[test]
fn volumes() {
    assert_eq!(volume_range("AAPL"), (1000, 5000));
    assert_eq!(volume_range("GOOG"), (100, 1000));
    assert_eq!(volume_from_draw("TSLA", 4999), 5999);
    assert_eq!(volume_from_draw("GOOG", 0), 100);
    for _ in 0..200 {
        let v = next_volume("MSFT");
        assert!((1000..6000).contains(&v));
        let w = next_volume("IBM");
        assert!((100..1100).contains(&w));
    }
}

#[test]
fn server_lifecycle() {
    let mut c = ServerControl::new();
    assert!(c.keep_running());
    assert!(c.start());
    assert!(!c.start());
    assert!(c.shutdown());
    assert!(!c.keep_running());
    assert!(!c.shutdown());
    assert!(c.start());
    assert!(!c.keep_running());
    assert!(keep_waiting_for_quotes(999));
    assert!(!keep_waiting_for_quotes(1000));
}

#[test]
fn server_errors_carry_their_messages() {
    assert_eq!(update_timeout_error().to_string(), "Failed to update quotes: Timeout after 1s");
    assert_eq!(update_failed_error().to_string(), "Failed to update quotes: Failed to update quotes");
    assert!(matches!(generator_init_error(), QuoteServerError::InitializationError(m) if m == "Failed to create Quote Generator"));
    assert!(matches!(lock_clients_error(), QuoteServerError::ClientError(m) if m == "Failed to lock clients"));
    assert!(matches!(quote_server::protocol::bad_udp_address_error(), TcpServerError::InvalidCommand(m) if m == "Bad UDP address"));
}
