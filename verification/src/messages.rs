//! The control messages, one module each.

pub mod connected_ping;
pub mod connected_pong;
pub mod connection_request;
pub mod connection_request_accepted;
pub mod disconnect_notification;
pub mod incompatible_protocol_version;
pub mod new_incoming_connection;
pub mod open_connection_reply_1;
pub mod open_connection_reply_2;
pub mod open_connection_request_1;
pub mod open_connection_request_2;
pub mod unconnected_ping;
pub mod unconnected_pong;
pub mod unknown;
