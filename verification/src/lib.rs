//! Core of a small chat service: the length-prefixed wire frames that
//! clients and servers exchange, account and message bookkeeping, the
//! server's request and event handling, and the console command language.

pub mod frame;
pub mod text;
pub mod account;
pub mod user;
pub mod laws;
pub mod queue;
pub mod session;
pub mod console;
pub mod client;
pub mod layout;
pub mod chat;
pub mod exchange;
