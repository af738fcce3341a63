//! Tests of the echo-server core: the connection state machine, the
//! bounded registry with its token allocator, and the event dispatch.

use echo_core::connection::ConnState;
use echo_core::connection::Connection;
use echo_core::registry::Registry;
use echo_core::Interest;
use echo_core::Token;
use echo_core::LISTENER_TOKEN;
use echo_core::MAX_CONN;
use echo_core::MAX_READ;

#[test]
fn connection_starts_awaiting_read() {
    let c: Connection<u32> = Connection::new(5);
    assert_eq!(c.state(), ConnState::AwaitingRead);
    assert_eq!(c.buffered_len(), 0);
    assert_eq!(*c.socket(), 5);
    assert_eq!(c.into_socket(), 5);
}

#[test]
fn read_zero_bytes_is_noop() {
    let mut c: Connection<u32> = Connection::new(1);
    let reaction = c.on_read(&[]);
    assert_eq!(reaction, None);
    assert_eq!(c.state(), ConnState::AwaitingRead);
    assert_eq!(c.buffered_len(), 0);
}

#[test]
fn read_then_full_write_round_trip() {
    let mut c: Connection<u32> = Connection::new(1);
    let reaction = c.on_read(b"ping");
    assert_eq!(reaction, Some(Interest::Writable));
    assert_eq!(c.state(), ConnState::AwaitingWrite);
    assert_eq!(c.outgoing(), b"ping".to_vec());
    let reaction = c.on_write(4);
    assert_eq!(reaction, Some(Interest::Readable));
    assert_eq!(c.state(), ConnState::AwaitingRead);
    assert_eq!(c.buffered_len(), 0);
}

#[test]
fn partial_write_keeps_remainder() {
    let mut c: Connection<u32> = Connection::new(1);
    c.on_read(b"hello");
    let mut client_got: Vec<u8> = Vec::new();

    // Two bytes go out; the rest must stay, in order.
    client_got.extend_from_slice(&c.outgoing()[..2]);
    let reaction = c.on_write(2);
    assert_eq!(reaction, None);
    assert_eq!(c.state(), ConnState::AwaitingWrite);
    assert_eq!(c.outgoing(), b"llo".to_vec());

    // A write that would block moves nothing and changes nothing.
    let reaction = c.on_write(0);
    assert_eq!(reaction, None);
    assert_eq!(c.state(), ConnState::AwaitingWrite);
    assert_eq!(c.outgoing(), b"llo".to_vec());

    // The next writable event resumes from the unwritten remainder.
    client_got.extend_from_slice(&c.outgoing());
    let reaction = c.on_write(3);
    assert_eq!(reaction, Some(Interest::Readable));
    assert_eq!(c.state(), ConnState::AwaitingRead);
    assert_eq!(c.buffered_len(), 0);

    // No byte lost, none duplicated.
    assert_eq!(client_got, b"hello".to_vec());
}

#[test]
fn closed_connection_keeps_socket() {
    let mut c: Connection<u32> = Connection::new(9);
    c.on_read(b"x");
    c.close();
    assert_eq!(c.state(), ConnState::Closed);
    assert_eq!(c.into_socket(), 9);
}

#[test]
fn ping_scenario_through_registry() {
    // A client connects, sends "ping" (4 bytes), and nothing else.
    let mut reg: Registry<u32> = Registry::new();
    let tok = reg.allocate().expect("empty registry must allocate");
    assert_eq!(tok, Token(1));
    reg.install(tok, 77);
    assert_eq!(reg.state_of(tok), Some(ConnState::AwaitingRead));

    // Readable event: the loop reads 4 bytes and hands them over.
    assert!(reg.wants_read(tok));
    let reaction = reg.on_readable(tok, b"ping");
    assert_eq!(reaction, Some(Interest::Writable));
    assert_eq!(reg.state_of(tok), Some(ConnState::AwaitingWrite));
    assert_eq!(reg.pending_len(tok), 4);

    // Writable event: the whole buffer goes out.
    assert!(reg.wants_write(tok));
    let out = reg.outgoing(tok);
    assert_eq!(out, b"ping".to_vec());
    let reaction = reg.on_writable(tok, out.len());
    assert_eq!(reaction, Some(Interest::Readable));
    assert_eq!(reg.state_of(tok), Some(ConnState::AwaitingRead));
    assert_eq!(reg.pending_len(tok), 0);
}

#[test]
fn burst_larger_than_read_chunk() {
    // 10 KB sent in one burst against a 1 KB read chunk: the loop sees
    // one readable event per chunk, echoes each in turn, and the client
    // receives all 10 KB unmodified.
    let sent: Vec<u8> = (0..10 * 1024).map(|i| (i % 251) as u8).collect();
    let mut reg: Registry<u32> = Registry::new();
    let tok = reg.allocate().unwrap();
    reg.install(tok, 1);

    let mut client_got: Vec<u8> = Vec::new();
    for chunk in sent.chunks(MAX_READ) {
        assert!(reg.wants_read(tok));
        let reaction = reg.on_readable(tok, chunk);
        assert_eq!(reaction, Some(Interest::Writable));
        // Flush in two partial writes, as a slow reader would force.
        while reg.wants_write(tok) {
            let out = reg.outgoing(tok);
            let n = (out.len() + 1) / 2;
            client_got.extend_from_slice(&out[..n]);
            reg.on_writable(tok, n);
        }
    }
    assert_eq!(client_got.len(), 10 * 1024);
    assert_eq!(client_got, sent);
    assert_eq!(reg.state_of(tok), Some(ConnState::AwaitingRead));
}

#[test]
fn occupancy_is_bounded() {
    // 1025 connection attempts against a token space of 1024: at most
    // 1023 are tracked at once; the rest are refused, and no existing
    // entry is disturbed.
    let mut reg: Registry<u32> = Registry::new();
    let mut accepted: Vec<Token> = Vec::new();
    let mut refused: usize = 0;
    for i in 0..(MAX_CONN + 1) {
        match reg.allocate() {
            Some(t) => {
                reg.install(t, i as u32);
                accepted.push(t);
            }
            None => refused += 1,
        }
    }
    assert_eq!(accepted.len(), MAX_CONN - 1);
    assert_eq!(refused, 2);
    assert_eq!(reg.allocate(), None);

    // Every issued token is distinct, in range, and never the listener's.
    let mut seen = vec![false; MAX_CONN];
    for t in &accepted {
        assert!(t.0 >= 1 && t.0 < MAX_CONN);
        assert_ne!(t.0, LISTENER_TOKEN);
        assert!(!seen[t.0], "token issued twice");
        seen[t.0] = true;
    }

    // The earlier entries were not corrupted by the refused attempts.
    assert_eq!(reg.state_of(Token(1)), Some(ConnState::AwaitingRead));
    assert_eq!(reg.state_of(Token(MAX_CONN - 1)), Some(ConnState::AwaitingRead));

    // Freeing one slot makes exactly that token available again.
    reg.on_hangup(Token(17));
    assert_eq!(reg.allocate(), Some(Token(17)));
}

#[test]
fn hangup_removes_entry_and_returns_socket() {
    let mut reg: Registry<u32> = Registry::new();
    let tok = reg.allocate().unwrap();
    reg.install(tok, 42);
    reg.on_readable(tok, b"bye");

    let conn = reg.on_hangup(tok).expect("live token must be removed");
    assert_eq!(conn.state(), ConnState::Closed);
    assert_eq!(conn.into_socket(), 42);

    assert!(!reg.is_live(tok));
    assert_eq!(reg.state_of(tok), None);
    assert_eq!(reg.pending_len(tok), 0);

    // A second hangup for the same token is a stale notification: skipped.
    assert!(reg.on_hangup(tok).is_none());

    // The token is free for reuse.
    assert_eq!(reg.allocate(), Some(tok));
}

#[test]
fn stale_events_are_skipped() {
    let mut reg: Registry<u32> = Registry::new();
    let dead = Token(3);
    assert!(!reg.wants_read(dead));
    assert!(!reg.wants_write(dead));
    assert!(reg.on_hangup(dead).is_none());
    assert!(reg.socket(dead).is_none());

    // A connection busy writing does not read, and vice versa.
    let tok = reg.allocate().unwrap();
    reg.install(tok, 8);
    assert!(reg.wants_read(tok));
    assert!(!reg.wants_write(tok));
    reg.on_readable(tok, b"a");
    assert!(!reg.wants_read(tok));
    assert!(reg.wants_write(tok));
}

#[test]
fn listener_token_is_never_issued() {
    assert_eq!(LISTENER_TOKEN, 0);
    let mut reg: Registry<u32> = Registry::new();
    assert!(!reg.is_live(Token(LISTENER_TOKEN)));
    for i in 0..5 {
        let t = reg.allocate().unwrap();
        assert_ne!(t.0, LISTENER_TOKEN);
        reg.install(t, i);
    }
    assert!(!reg.is_live(Token(LISTENER_TOKEN)));
}

#[test]
fn tokens_enumerates_live_connections_without_duplicates() {
    let mut reg: Registry<u32> = Registry::new();
    for i in 0..4 {
        let t = reg.allocate().unwrap();
        reg.install(t, i);
    }
    reg.on_hangup(Token(2));

    let ts = reg.tokens();
    assert_eq!(ts, vec![Token(1), Token(3), Token(4)]);
    for w in ts.windows(2) {
        assert!(w[0].0 < w[1].0, "tokens must be strictly increasing");
    }
    for t in &ts {
        assert!(reg.is_live(*t));
    }
}

#[test]
fn socket_borrow_matches_installed_handle() {
    let mut reg: Registry<u32> = Registry::new();
    let a = reg.allocate().unwrap();
    reg.install(a, 100);
    let b = reg.allocate().unwrap();
    reg.install(b, 200);
    assert_eq!(reg.socket(a), Some(&100));
    assert_eq!(reg.socket(b), Some(&200));
}
