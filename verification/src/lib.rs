//! Authentication and session subsystem of a multi-tenant administrative
//! backend: salted credential hashing, revocable server-side sessions, signed
//! time-bound bearer tokens, and permission-based request guards.
pub mod award;
pub mod cli;
pub mod codec;
pub mod config;
pub mod converters;
pub mod domain;
pub mod dto;
pub mod errors;
pub mod filter;
pub mod hash;
pub mod laws;
pub mod model;
pub mod random;
pub mod repository;
pub mod roles;
pub mod session;
pub mod token;
pub mod users;
