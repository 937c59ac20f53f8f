//! A discovery server speaking OSC-framed handshake messages over UDP.

pub mod bytes;
pub mod handshake;
pub mod osc;
pub mod server;
pub mod text;

use vstd::prelude::*;
use crate::handshake::AppInfo;
use crate::server::{Phase, ServerAction, ServerConfig, ServerMachine};

verus! {

/// Handshake port of the default server.
pub const DEFAULT_HANDSHAKE_PORT: u16 = 9000;

/// Data port of the default server.
pub const DEFAULT_LISTEN_PORT: u16 = 25565;

/// Starts the default server: app `test` ("Test Server", version 0.0.1) on 127.0.0.1, data
/// port 25565, handshake port 9000. Returns the server and its first action, binding the
/// handshake endpoint.
pub fn start_server() -> (r: (ServerMachine, ServerAction))
    ensures
        r.0.phase == Phase::Starting,
        r.0.config.info.id@ == "test"@,
        r.0.config.info.friendly_name@ == "Test Server"@,
        r.0.config.info.version@ == "0.0.1"@,
        r.0.config.bind_addr@ == "127.0.0.1"@,
        r.0.config.listen_port == DEFAULT_LISTEN_PORT,
        r.0.config.handshake_port == DEFAULT_HANDSHAKE_PORT,
        r.1 == ServerAction::BindHandshake(DEFAULT_HANDSHAKE_PORT),
{
    let info = AppInfo {
        id: String::from_str("test"),
        friendly_name: String::from_str("Test Server"),
        version: String::from_str("0.0.1"),
    };
    ServerMachine::new(
        ServerConfig {
            info,
            bind_addr: String::from_str("127.0.0.1"),
            listen_port: DEFAULT_LISTEN_PORT,
            handshake_port: DEFAULT_HANDSHAKE_PORT,
        },
    )
}

} // verus!
