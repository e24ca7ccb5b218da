//! An in-memory store of price records, each identified by a generated
//! 128-bit identifier, together with the request/response layer of a small
//! CRUD service over it: canonical identifier strings, JSON bodies, and the
//! four operations (create, get, delete, list).

pub mod body;
pub mod ids;
pub mod json;
pub mod price;
pub mod service;
