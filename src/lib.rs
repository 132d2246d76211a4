//! Transport core for exchanging datagram-style packets with a remote peer
//! over an unordered, unreliable carrier.
//!
//! The library holds the parts of a socket that make decisions: the
//! time-ordered delivery scheduler, the network condition simulator that
//! delays and drops inbound traffic, the peer-address discovery rule, the
//! send-retry queue, and the value types that flow between them. Carriers
//! themselves (UDP sockets, browser data channels) plug in through the
//! `PacketReceiverTrait` and `PacketTransmit` traits.

mod address;
mod bridge;
mod candidate;
mod ipv6;
pub mod discovery;
mod error;
pub mod link_conditioner;
mod packet;
pub mod packet_receiver;
pub mod packet_sender;
pub mod server;
pub mod server_receiver;
pub mod time_queue;
mod url_parse;
mod timestamp;

pub use address::{IpAddress, PeerAddress, ServerAddr};
pub use bridge::HostBridgeReceiver;
pub use candidate::candidate_to_addr;
pub use discovery::PeerDiscovery;
pub use error::{NaiaClientSocketError, NaiaServerSocketError};
pub use link_conditioner::{process_packet, LinkConditionerConfig, LOSS_SCALE};
pub use packet::Packet;
pub use packet_sender::{PacketSender, PacketTransmit};
pub use packet_receiver::{ConditionedPacketReceiver, PacketReceiver, PacketReceiverTrait};
pub use time_queue::TimeQueue;
pub use url_parse::{check_server_url, get_url, parse_server_url, UrlError};
pub use timestamp::{millis_since, Timestamp};
