//! Trust core of a self-certifying identity and verifiable-credential
//! protocol: self-addressing data, credential construction, credential and
//! status verification, and the dispatcher of pipelined message streams.

pub mod acdc;
pub mod codes;
pub mod creder;
pub mod data;
pub mod error;
pub mod event;
pub mod json;
pub mod keys;
pub mod laws;
pub mod parsing;
pub mod primitives;
pub mod said;
pub mod said_laws;
pub mod store;
pub mod verification;
pub mod visited;
