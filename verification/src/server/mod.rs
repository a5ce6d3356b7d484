pub mod client_map;
pub mod manager;
pub mod listener;
