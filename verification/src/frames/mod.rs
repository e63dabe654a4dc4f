//! The frame kinds as typed records, and what the handshake negotiates.

pub mod ack;
pub mod agent_disconnect;
pub mod agent_hello;
pub mod capabilities;
pub mod haproxy_disconnect;
pub mod haproxy_hello;
pub mod notify;
pub mod version;

pub use self::ack::Ack;
pub use self::agent_disconnect::AgentDisconnect;
pub use self::agent_hello::AgentHello;
pub use self::capabilities::FrameCapabilities;
pub use self::haproxy_disconnect::HaproxyDisconnect;
pub use self::haproxy_hello::HaproxyHello;
pub use self::notify::NotifyFrame;
pub use self::version::Version;
