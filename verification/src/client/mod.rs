pub mod connection;
pub mod outgoing;
