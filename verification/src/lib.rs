//! An in-memory user directory behind a small HTTP-style routing table.
//!
//! A request is a method and a path; the answer is a status and a body.
//! [`route`] classifies the path, [`store`] keeps the user records under
//! compact integer handles in a slab (see [`slots`]), and [`dispatch`]
//! combines method, route and store into the response. [`decimal`] writes
//! and reads handles as text, and [`laws`] states what holds of the store
//! over every history of calls.
//!
//! The crate does no I/O and takes no lock: the store's methods ask for
//! exclusive access where they change it, and a server that shares one
//! store among its handlers puts it behind a lock of its own.

pub mod decimal;
pub mod dispatch;
pub mod laws;
pub mod route;
pub mod slots;
pub mod store;
