//! Password hashing service core: cost resolution from an algorithm
//! identifier, and bcrypt-backed computation and verification of artifacts.

pub mod artifact;
pub mod cost;
pub mod engine;
pub mod service;
