//! An IMAP front that validates a client's LOGIN against a web single sign-on chain.
//!
//! `message` decodes client lines, `sso` holds the decisions between the sign-on
//! hops, and `connection` decides, line by line, what a connection answers.
pub mod connection;
pub mod message;
pub mod sso;
