//! Native implementation of the D-Bus wire protocol: the marshal / demarshal
//! engine, framed messages, server addresses, the connection's decisions and a
//! small message dispatcher.
pub mod value;
pub mod marshal;
pub mod demarshal;
pub mod message;
pub mod hex;
pub mod address;
pub mod connection;
pub mod dispatch;
pub mod laws;
