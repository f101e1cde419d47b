//! A minimal HTTP endpoint: address parsing, listen-address construction,
//! request reading, response building and the server loop's decisions.
pub mod decimal;
pub mod ip;
pub mod socket;
pub mod http;
pub mod server;
