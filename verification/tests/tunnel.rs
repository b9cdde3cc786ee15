use proxy_server::error::ProxyError;
use proxy_server::tunnel::{Side, Step, Tunnel, IDLE_LIMIT, NANOS_PER_SEC, RELAY_BUFFER};

const SEC: u64 = 1_000_000_000;

#[test]
fn constants_have_their_values() {
    assert_eq!(IDLE_LIMIT, 2_000_000_000);
    assert_eq!(NANOS_PER_SEC, 1_000_000_000);
    assert_eq!(RELAY_BUFFER, 2000);
}

#[test]
fn sides_are_each_others_peer() {
    assert_eq!(Side::Client.peer(), Side::Target);
    assert_eq!(Side::Target.peer(), Side::Client);
}

#[test]
fn new_tunnel_is_alive_and_holds_its_sockets() {
    let tunnel = Tunnel::new("client", "target", 17);
    assert!(tunnel.is_alive());
    assert_eq!(tunnel.last_activity(), 17);
    assert_eq!(*tunnel.socket(Side::Client), "client");
    assert_eq!(*tunnel.socket(Side::Target), "target");
    assert_eq!(tunnel.into_sockets(), ("client", "target"));
}

#[test]
fn pass_begins_with_the_client() {
    let tunnel = Tunnel::new(1, 2, 0);
    assert_eq!(tunnel.begin(), Step::Read(Side::Client));
}

#[test]
fn bytes_from_the_client_go_to_the_target_unchanged() {
    let mut tunnel = Tunnel::new(1, 2, 0);
    let step = tunnel.on_read(Side::Client, Some(b"hello"));
    assert_eq!(step, Step::Write(Side::Target, b"hello"));
    assert!(tunnel.is_alive());
    assert_eq!(tunnel.last_activity(), 0);
}

#[test]
fn bytes_from_the_target_go_to_the_client_unchanged() {
    let mut tunnel = Tunnel::new(1, 2, 0);
    let step = tunnel.on_read(Side::Target, Some(&[0, 255, 7]));
    assert_eq!(step, Step::Write(Side::Client, &[0, 255, 7]));
}

#[test]
fn nothing_from_the_client_moves_on_to_the_target() {
    let mut tunnel = Tunnel::new(1, 2, 0);
    assert_eq!(tunnel.on_read(Side::Client, None), Step::Read(Side::Target));
    assert!(tunnel.is_alive());
}

#[test]
fn nothing_from_the_target_moves_on_to_settling() {
    let mut tunnel = Tunnel::new(1, 2, 0);
    assert_eq!(tunnel.on_read(Side::Target, None), Step::Settle);
    assert!(tunnel.is_alive());
}

#[test]
fn closed_client_closes_the_tunnel_at_once() {
    let mut tunnel = Tunnel::new(1, 2, 0);
    assert_eq!(tunnel.on_read(Side::Client, Some(&[])), Step::Done);
    assert!(!tunnel.is_alive());
}

#[test]
fn closed_target_closes_the_tunnel_at_once() {
    let mut tunnel = Tunnel::new(1, 2, 0);
    assert_eq!(tunnel.on_read(Side::Target, Some(&[])), Step::Done);
    assert!(!tunnel.is_alive());
}

#[test]
fn write_to_the_target_is_followed_by_reading_it() {
    let mut tunnel = Tunnel::new(1, 2, 0);
    let (step, warning) = tunnel.on_written(Side::Target, 5, Some(5), 40);
    assert_eq!(step, Step::Read(Side::Target));
    assert_eq!(warning, None);
    assert_eq!(tunnel.last_activity(), 40);
}

#[test]
fn write_to_the_client_is_followed_by_settling() {
    let mut tunnel = Tunnel::new(1, 2, 0);
    let (step, warning) = tunnel.on_written(Side::Client, 5, Some(5), 41);
    assert_eq!(step, Step::Settle);
    assert_eq!(warning, None);
    assert_eq!(tunnel.last_activity(), 41);
}

#[test]
fn short_write_is_reported_and_counts_as_activity() {
    let mut tunnel = Tunnel::new(1, 2, 0);
    let (step, warning) = tunnel.on_written(Side::Target, 5, Some(3), 9);
    assert_eq!(step, Step::Read(Side::Target));
    assert_eq!(warning, Some(ProxyError::WriteSizeMismatch));
    assert!(tunnel.is_alive());
    assert_eq!(tunnel.last_activity(), 9);
}

#[test]
fn failed_write_counts_as_nothing_written() {
    let mut tunnel = Tunnel::new(1, 2, 0);
    let (step, warning) = tunnel.on_written(Side::Client, 5, None, 9);
    assert_eq!(step, Step::Settle);
    assert_eq!(warning, Some(ProxyError::WriteSizeMismatch));
    assert!(tunnel.is_alive());
    assert_eq!(tunnel.last_activity(), 9);
    let (_, warning) = tunnel.on_written(Side::Client, 0, None, 9);
    assert_eq!(warning, None);
}

#[test]
fn write_that_accepted_more_than_was_sent_is_a_mismatch() {
    let mut tunnel = Tunnel::new(1, 2, 0);
    let (_, warning) = tunnel.on_written(Side::Target, 5, Some(6), 9);
    assert_eq!(warning, Some(ProxyError::WriteSizeMismatch));
}

#[test]
fn tunnel_survives_two_idle_seconds() {
    let mut tunnel = Tunnel::new(1, 2, 10);
    assert_eq!(tunnel.settle(10), Step::Done);
    assert!(tunnel.is_alive());
    assert_eq!(tunnel.settle(10 + SEC), Step::Done);
    assert!(tunnel.is_alive());
    assert_eq!(tunnel.settle(10 + 2 * SEC), Step::Done);
    assert!(tunnel.is_alive());
    assert_eq!(tunnel.last_activity(), 10);
}

#[test]
fn tunnel_closes_once_idle_for_more_than_two_seconds() {
    let mut tunnel = Tunnel::new(1, 2, 10);
    assert_eq!(tunnel.settle(10 + 2 * SEC + 1), Step::Done);
    assert!(!tunnel.is_alive());
}

#[test]
fn tunnel_closes_after_a_long_silence() {
    let mut tunnel = Tunnel::new(1, 2, 0);
    tunnel.settle(u64::MAX);
    assert!(!tunnel.is_alive());
}

#[test]
fn clock_that_runs_backwards_counts_as_no_time() {
    let mut tunnel = Tunnel::new(1, 2, 100 * SEC);
    tunnel.settle(0);
    assert!(tunnel.is_alive());
    tunnel.settle(100 * SEC - 1);
    assert!(tunnel.is_alive());
}

#[test]
fn activity_resets_the_idle_time() {
    let mut tunnel = Tunnel::new(1, 2, 0);
    tunnel.on_written(Side::Target, 1, Some(1), 2 * SEC);
    tunnel.settle(4 * SEC);
    assert!(tunnel.is_alive());
    tunnel.on_written(Side::Client, 1, Some(1), 4 * SEC);
    tunnel.settle(6 * SEC);
    assert!(tunnel.is_alive());
    tunnel.settle(6 * SEC + 1);
    assert!(!tunnel.is_alive());
}

#[test]
fn closed_tunnel_is_never_revived() {
    let mut tunnel = Tunnel::new(1, 2, 0);
    tunnel.on_read(Side::Client, Some(&[]));
    assert!(!tunnel.is_alive());
    assert_eq!(tunnel.begin(), Step::Done);
    assert_eq!(tunnel.on_read(Side::Client, Some(b"late")), Step::Done);
    assert_eq!(tunnel.on_read(Side::Target, None), Step::Done);
    assert_eq!(tunnel.on_written(Side::Target, 4, Some(4), 5), (Step::Done, None));
    assert_eq!(tunnel.on_written(Side::Target, 4, Some(1), 5).1, Some(ProxyError::WriteSizeMismatch));
    assert_eq!(tunnel.settle(0), Step::Done);
    assert!(!tunnel.is_alive());
    assert_eq!(tunnel.last_activity(), 0);
    assert_eq!(tunnel.into_sockets(), (1, 2));
}

#[test]
fn sockets_stay_with_the_tunnel_through_every_step() {
    let mut tunnel = Tunnel::new(11, 22, 0);
    tunnel.on_read(Side::Client, Some(b"x"));
    tunnel.on_written(Side::Target, 1, Some(1), 1);
    tunnel.on_read(Side::Target, None);
    tunnel.settle(2);
    assert_eq!(*tunnel.socket(Side::Client), 11);
    assert_eq!(*tunnel.socket(Side::Target), 22);
}
