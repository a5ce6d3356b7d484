//! A small chat server: clients connect with a random token, the first one
//! is the administrator, and every accepted chat line is relayed to all the
//! other connected clients.
pub mod roles;
pub mod text;
pub mod token;
pub mod messages;
pub mod client;
pub mod server;
pub mod echo;
