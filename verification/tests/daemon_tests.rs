use fingered::daemon::{first_ready, step, Action, Event, LoopState};
use fingered::listener::{address_kind, AddressKind, Peer};

#[test]
fn running_loop_serves_and_reloads() {
    assert_eq!(step(LoopState::Running, Event::Connection), (LoopState::Running, Action::Serve));
    assert_eq!(step(LoopState::Running, Event::Reload), (LoopState::Running, Action::Reload));
}

#[test]
fn shutdown_stops_the_loop() {
    assert_eq!(step(LoopState::Running, Event::Shutdown), (LoopState::Stopped, Action::Stop));
}

#[test]
fn stopped_loop_stays_stopped() {
    for event in [Event::Connection, Event::Reload, Event::Shutdown] {
        assert_eq!(step(LoopState::Stopped, event), (LoopState::Stopped, Action::Nothing));
    }
}

#[test]
fn shutdown_goes_first() {
    assert_eq!(first_ready(&[Event::Connection, Event::Reload, Event::Shutdown]), Some(2));
    assert_eq!(first_ready(&[Event::Reload, Event::Shutdown, Event::Shutdown]), Some(1));
    assert_eq!(first_ready(&[Event::Shutdown]), Some(0));
}

#[test]
fn other_events_go_in_their_order() {
    assert_eq!(first_ready(&[Event::Connection, Event::Reload]), Some(0));
    assert_eq!(first_ready(&[Event::Reload, Event::Connection]), Some(0));
    assert_eq!(first_ready(&[]), None);
}

#[test]
fn paths_and_network_addresses() {
    assert_eq!(address_kind(b"/run/finger.sock"), AddressKind::Path);
    assert_eq!(address_kind(b"./finger.sock"), AddressKind::Path);
    assert_eq!(address_kind(b"../finger.sock"), AddressKind::Path);
    assert_eq!(address_kind(b"/"), AddressKind::Path);
    assert_eq!(address_kind(b"127.0.0.1"), AddressKind::Network);
    assert_eq!(address_kind(b"[::1]:79"), AddressKind::Network);
    assert_eq!(address_kind(b".../x"), AddressKind::Network);
    assert_eq!(address_kind(b".sock"), AddressKind::Network);
    assert_eq!(address_kind(b".."), AddressKind::Network);
    assert_eq!(address_kind(b""), AddressKind::Network);
}

#[test]
fn peers_by_name() {
    assert_eq!(Peer::Tcp(String::from("127.0.0.1:4000")).peer_display(), "127.0.0.1:4000");
    assert_eq!(Peer::Unix.peer_display(), "unix");
    assert_eq!(Peer::Inetd.peer_display(), "inetd");
}
