use netfwd::config::{parse_rules, BindAddr};
use netfwd::listener::{AcceptOutcome, ForwardRule, Listener, ListenerAction};
use netfwd::session::{Action, EndReason, Event, Options, Phase, Session, Side};

fn session(buf_size: usize) -> Session<&'static str> {
    Session::begin(
        "127.0.0.1:50000",
        Options { buf_size, srv_addr: "127.0.0.1:9100" },
    )
}

/// Simulates one read on `from` that returns `data`, and runs the step.
fn read(s: &mut Session<&'static str>, from: Side, data: &[u8]) -> Action {
    let (cli, srv) = s.buffers_mut();
    let buf = match from {
        Side::Client => cli,
        Side::Server => srv,
    };
    assert!(data.len() <= buf.len());
    buf[..data.len()].copy_from_slice(data);
    s.step(Event::Received(from, data.len()))
}

/// Relays `data` from one side to the other, one buffer at a time, and
/// returns the bytes that went out, chunk by chunk.
fn relay(s: &mut Session<&'static str>, from: Side, data: &[u8]) -> Vec<Vec<u8>> {
    let mut chunks = Vec::new();
    let cap = s.buffer_len(from);
    for part in data.chunks(cap) {
        assert_eq!(read(s, from, part), Action::Forward(from.other(), part.len()));
        chunks.push(s.outgoing().to_vec());
        assert_eq!(s.step(Event::Delivered), Action::Wait);
    }
    chunks
}

#[test]
fn begin_allocates_two_zeroed_buffers() {
    let mut s = session(16);
    assert_eq!(s.phase(), Phase::Waiting);
    assert_eq!(s.buffer_len(Side::Client), 16);
    assert_eq!(s.buffer_len(Side::Server), 16);
    assert_eq!(s.client_address(), "127.0.0.1:50000");
    assert_eq!(s.server_address(), "127.0.0.1:9100");
    let (a, b) = s.buffers_mut();
    assert!(a.iter().all(|x| *x == 0));
    assert!(b.iter().all(|x| *x == 0));
}

#[test]
fn bytes_arrive_in_order_and_unchanged() {
    let mut s = session(4);
    let writes: Vec<&[u8]> = vec![b"ab", b"cdef", b"g", b"hijklmno"];
    let mut got = Vec::new();
    for w in &writes {
        for c in relay(&mut s, Side::Client, w) {
            got.extend_from_slice(&c);
        }
    }
    assert_eq!(got, b"abcdefghijklmno".to_vec());
    let back = relay(&mut s, Side::Server, b"xyz");
    assert_eq!(back, vec![b"xyz".to_vec()]);
}

#[test]
fn write_failure_ends_with_what_was_flushed() {
    let mut s = session(8);
    assert_eq!(relay(&mut s, Side::Client, b"first"), vec![b"first".to_vec()]);
    assert_eq!(read(&mut s, Side::Client, b"second"), Action::Forward(Side::Server, 6));
    assert_eq!(s.outgoing(), b"second");
    let a = s.step(Event::WriteFailed);
    assert_eq!(a, Action::Close(EndReason::WriteError(Side::Server)));
    assert!(EndReason::WriteError(Side::Server).is_error());
    assert_eq!(s.phase(), Phase::Closed(EndReason::WriteError(Side::Server)));
}

#[test]
fn two_sessions_do_not_see_each_other() {
    let mut a = session(8);
    let mut b = session(8);
    assert_eq!(read(&mut a, Side::Client, b"alpha"), Action::Forward(Side::Server, 5));
    assert_eq!(read(&mut b, Side::Client, b"beta"), Action::Forward(Side::Server, 4));
    assert_eq!(a.outgoing(), b"alpha");
    assert_eq!(b.outgoing(), b"beta");
    assert_eq!(a.step(Event::Delivered), Action::Wait);
    assert_eq!(
        read(&mut a, Side::Client, b""),
        Action::Close(EndReason::PeerClosed(Side::Client))
    );
    assert_eq!(b.outgoing(), b"beta");
    assert_eq!(b.step(Event::Delivered), Action::Wait);
    assert_eq!(relay(&mut b, Side::Server, b"reply"), vec![b"reply".to_vec()]);
    assert_eq!(b.phase(), Phase::Waiting);
}

#[test]
fn empty_read_from_client_is_a_clean_close() {
    let mut s = session(8);
    let a = read(&mut s, Side::Client, b"");
    assert_eq!(a, Action::Close(EndReason::PeerClosed(Side::Client)));
    assert!(!EndReason::PeerClosed(Side::Client).is_error());
    assert_eq!(s.phase(), Phase::Closed(EndReason::PeerClosed(Side::Client)));
}

#[test]
fn empty_read_from_server_is_a_clean_close() {
    let mut s = session(8);
    let a = read(&mut s, Side::Server, b"");
    assert_eq!(a, Action::Close(EndReason::PeerClosed(Side::Server)));
    assert!(!EndReason::PeerClosed(Side::Server).is_error());
}

#[test]
fn read_failure_ends_the_session() {
    let mut s = session(8);
    assert_eq!(
        s.step(Event::ReadFailed(Side::Server)),
        Action::Close(EndReason::ReadError(Side::Server))
    );
    assert!(EndReason::ReadError(Side::Server).is_error());
}

#[test]
fn wait_failure_is_an_internal_error() {
    let mut s = session(8);
    assert_eq!(s.step(Event::WaitFailed), Action::Close(EndReason::Internal));
    assert!(EndReason::Internal.is_error());
}

#[test]
fn full_buffer_is_one_iteration() {
    let mut s = session(8);
    let data: Vec<u8> = (1..=8).collect();
    let chunks = relay(&mut s, Side::Client, &data);
    assert_eq!(chunks, vec![data.clone()]);
}

#[test]
fn one_byte_over_the_buffer_is_two_iterations() {
    let mut s = session(8);
    let data: Vec<u8> = (1..=9).collect();
    let chunks = relay(&mut s, Side::Client, &data);
    assert_eq!(chunks, vec![(1..=8).collect::<Vec<u8>>(), vec![9]]);
}

#[test]
fn listener_spawns_with_the_rule_settings() {
    let rule = ForwardRule { bind_address: "127.0.0.1:9000", server_address: "127.0.0.1:9100", buffer_size: 8192 };
    let mut l = Listener::new(rule);
    assert!(l.is_accepting());
    match l.on_accept(AcceptOutcome::Accepted) {
        ListenerAction::Spawn(o) => {
            assert_eq!(o.buf_size, 8192);
            assert_eq!(o.srv_addr, "127.0.0.1:9100");
        }
        ListenerAction::Stop => panic!("a new client must get a session"),
    }
    assert!(l.is_accepting());
    assert_eq!(l.rule().bind_address, "127.0.0.1:9000");
}

#[test]
fn refused_dial_leaves_listener_accepting() {
    let rule = ForwardRule { bind_address: "127.0.0.1:9001", server_address: "127.0.0.1:1", buffer_size: 64 };
    let mut l = Listener::new(rule);
    // The first client's dial is refused: no session is begun for it.
    assert!(matches!(l.on_accept(AcceptOutcome::Accepted), ListenerAction::Spawn(_)));
    // The next client is accepted all the same.
    match l.on_accept(AcceptOutcome::Accepted) {
        ListenerAction::Spawn(o) => {
            let s = Session::begin("127.0.0.1:50001", o);
            assert_eq!(s.phase(), Phase::Waiting);
        }
        ListenerAction::Stop => panic!("listener stopped"),
    }
    assert!(l.is_accepting());
}

#[test]
fn failed_accept_stops_only_this_listener() {
    let mut a = Listener::new(ForwardRule { bind_address: 9000u16, server_address: 9100u16, buffer_size: 8 });
    let mut b = Listener::new(ForwardRule { bind_address: 9001u16, server_address: 9101u16, buffer_size: 8 });
    assert!(matches!(a.on_accept(AcceptOutcome::Failed), ListenerAction::Stop));
    assert!(!a.is_accepting());
    assert!(b.is_accepting());
    assert!(matches!(b.on_accept(AcceptOutcome::Accepted), ListenerAction::Spawn(_)));
}

#[test]
fn ping_is_echoed_through_the_relay() {
    let rules = parse_rules(&vec!["127.0.0.1:9000=127.0.0.1:9100".to_string()], "8192").unwrap();
    assert_eq!(rules.len(), 1);
    assert_eq!(rules[0].bind, BindAddr::Address("127.0.0.1:9000".to_string()));
    assert_eq!(rules[0].server, "127.0.0.1:9100");
    assert_eq!(rules[0].buffer_size, 8192);

    let rule = ForwardRule { bind_address: "127.0.0.1:9000", server_address: "127.0.0.1:9100", buffer_size: 8192 };
    let mut l = Listener::new(rule);
    let opts = match l.on_accept(AcceptOutcome::Accepted) {
        ListenerAction::Spawn(o) => o,
        ListenerAction::Stop => panic!("listener stopped"),
    };
    let mut s = Session::begin("127.0.0.1:50002", opts);
    assert_eq!(relay(&mut s, Side::Client, b"ping"), vec![b"ping".to_vec()]);
    // The upstream echoes what it got.
    assert_eq!(relay(&mut s, Side::Server, b"ping"), vec![b"ping".to_vec()]);
    assert_eq!(
        read(&mut s, Side::Client, b""),
        Action::Close(EndReason::PeerClosed(Side::Client))
    );
    assert!(l.is_accepting());
    assert!(matches!(l.on_accept(AcceptOutcome::Accepted), ListenerAction::Spawn(_)));
}
