//! The relay's configuration.

use crate::distribution::Policy;
use crate::text::same_text;
use vstd::prelude::*;
use vstd::string::*;

verus! {

/// What the relay is started with.
#[derive(Debug, PartialEq, Eq)]
pub struct Config {
    /// The address the relay binds for the socket protocol.
    pub socket_host_port: String,
    /// The address the endpoint for the viewer's files binds.
    pub asset_host_port: String,
    /// How many serialized samples may wait between producer and fan-out.
    pub capacity: usize,
    /// What happens to a sample that finds no room: by default the producer
    /// waits, so that no accepted sample is ever given up.
    pub policy: Policy,
}

/// The name of the option for the socket address.
pub open spec fn socket_option() -> Seq<char> {
    "socket_host_port"@
}

/// The name of the option for the address of the viewer's files.
pub open spec fn asset_option() -> Seq<char> {
    "asset_host_port"@
}

impl Default for Config {
    /// The relay on port 9001 of the local host, the viewer's files on port
    /// 8000, room for five samples, and a producer that waits.
    fn default() -> (config: Config)
        ensures
            config.socket_host_port@ == "127.0.0.1:9001"@,
            config.asset_host_port@ == "localhost:8000"@,
            config.capacity == 5,
            config.policy == Policy::Block,
    {
        Config {
            socket_host_port: String::from_str("127.0.0.1:9001"),
            asset_host_port: String::from_str("localhost:8000"),
            capacity: 5,
            policy: Policy::Block,
        }
    }
}

impl Config {
    /// Sets an address by the name of its option. Returns whether the name
    /// is one of the two recognized options; any other name changes nothing.
    pub fn set(&mut self, option: &str, value: String) -> (recognized: bool)
        ensures
            recognized == (option@ == socket_option() || option@ == asset_option()),
            final(self).capacity == old(self).capacity,
            final(self).policy == old(self).policy,
            final(self).socket_host_port@ == (if option@ == socket_option() {
                value@
            } else {
                old(self).socket_host_port@
            }),
            final(self).asset_host_port@ == (if option@ == asset_option() {
                value@
            } else {
                old(self).asset_host_port@
            }),
    {
        proof {
            reveal_strlit("socket_host_port");
            reveal_strlit("asset_host_port");
            assert("socket_host_port"@.len() == 16);
            assert("asset_host_port"@.len() == 15);
        }
        if same_text(option, "socket_host_port") {
            self.socket_host_port = value;
            true
        } else if same_text(option, "asset_host_port") {
            self.asset_host_port = value;
            true
        } else {
            false
        }
    }
}

} // verus!
