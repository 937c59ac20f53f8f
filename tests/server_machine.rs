use osc_handshake::osc::OscError;
use osc_handshake::server::{Phase, ServerAction, ServerEvent};
use osc_handshake::start_server;

fn datagram(address: &str) -> Vec<u8> {
    let mut v: Vec<u8> = address.as_bytes().to_vec();
    v.push(0);
    while v.len() % 4 != 0 {
        v.push(0);
    }
    v.extend_from_slice(&[b',', b's', 0, 0]);
    v
}

#[test]
fn it_works() {
    start_server();
}

#[test]
fn start_server_uses_default_configuration() {
    let (machine, action) = start_server();
    assert_eq!(machine.phase, Phase::Starting);
    assert_eq!(machine.config.info.id, "test");
    assert_eq!(machine.config.info.friendly_name, "Test Server");
    assert_eq!(machine.config.info.version, "0.0.1");
    assert_eq!(machine.config.bind_addr, "127.0.0.1");
    assert_eq!(machine.config.listen_port, 25565);
    assert_eq!(machine.config.handshake_port, 9000);
    assert!(matches!(action, ServerAction::BindHandshake(9000)));
}

#[test]
fn startup_binds_both_endpoints_then_starts_loop() {
    let (mut machine, _) = start_server();
    assert!(matches!(machine.step(ServerEvent::Bound), ServerAction::BindData(25565)));
    assert_eq!(machine.phase, Phase::BindingData);
    assert!(matches!(machine.step(ServerEvent::Bound), ServerAction::StartCommander));
    assert_eq!(machine.phase, Phase::Listening);
}

#[test]
fn bind_failure_stops_before_loop() {
    let (mut machine, _) = start_server();
    assert!(matches!(machine.step(ServerEvent::BindFailed), ServerAction::Abort));
    assert_eq!(machine.phase, Phase::Stopped);
    assert!(matches!(machine.step(ServerEvent::Bound), ServerAction::Ignore));
    assert_eq!(machine.phase, Phase::Stopped);

    let (mut second, _) = start_server();
    second.step(ServerEvent::Bound);
    assert!(matches!(second.step(ServerEvent::BindFailed), ServerAction::Abort));
    assert_eq!(second.phase, Phase::Stopped);
}

#[test]
fn datagram_address_is_reported_and_loop_continues() {
    let (mut machine, _) = start_server();
    machine.step(ServerEvent::Bound);
    machine.step(ServerEvent::Bound);
    match machine.step(ServerEvent::Datagram(datagram("/avatar/test"))) {
        ServerAction::Report(address) => assert_eq!(address, "/avatar/test"),
        _ => panic!("expected a report"),
    }
    assert_eq!(machine.phase, Phase::Listening);
}

#[test]
fn malformed_datagram_is_skipped_and_loop_continues() {
    let (mut machine, _) = start_server();
    machine.step(ServerEvent::Bound);
    machine.step(ServerEvent::Bound);
    match machine.step(ServerEvent::Datagram(b"#hsop\0\0\0,\x01\0\0".to_vec())) {
        ServerAction::Skip(e) => assert_eq!(e, OscError::InvalidAddress),
        _ => panic!("expected a skip"),
    }
    assert_eq!(machine.phase, Phase::Listening);
    match machine.step(ServerEvent::Datagram(vec![1, 2, 3])) {
        ServerAction::Skip(e) => assert_eq!(e, OscError::TruncatedMessage),
        _ => panic!("expected a skip"),
    }
    assert_eq!(machine.phase, Phase::Listening);
    match machine.step(ServerEvent::Datagram(datagram("/next"))) {
        ServerAction::Report(address) => assert_eq!(address, "/next"),
        _ => panic!("expected a report"),
    }
}

#[test]
fn receive_failure_halts_loop() {
    let (mut machine, _) = start_server();
    machine.step(ServerEvent::Bound);
    machine.step(ServerEvent::Bound);
    assert!(matches!(machine.step(ServerEvent::ReceiveFailed), ServerAction::Halt));
    assert_eq!(machine.phase, Phase::Stopped);
    assert!(matches!(machine.step(ServerEvent::Datagram(datagram("/late"))), ServerAction::Ignore));
}

#[test]
fn datagram_before_listening_is_ignored() {
    let (mut machine, _) = start_server();
    assert!(matches!(machine.step(ServerEvent::Datagram(datagram("/early"))), ServerAction::Ignore));
    assert_eq!(machine.phase, Phase::Starting);
}
