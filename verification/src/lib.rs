//! A Finger (RFC 1288) directory service: the request grammar, the user
//! directory with its line-ending normalisation, and the rules that turn one
//! received line into one reply.

pub mod config;
pub mod daemon;
pub mod listener;
pub mod request;
pub mod server;
pub mod text;
