use vstd::prelude::*;

pub mod association;
pub mod bytes;
pub mod carrier;
pub mod client;
pub mod connect;
pub mod console;
pub mod crypto;
pub mod datagram;
pub mod engine;
pub mod enrollment;
pub mod fake_dns;
pub mod forest;
pub mod frame;
pub mod handles;
pub mod helper;
pub mod host;
pub mod issuance;
pub mod lifecycle;
pub mod net;
pub mod packet;
pub mod node;
pub mod operator;
pub mod options;
pub mod policy;
pub mod profile;
pub mod protocol;
pub mod proxy;
pub mod routing;
pub mod server;
pub mod settings;
pub mod text;
pub mod tun;

verus! {

} // verus!
