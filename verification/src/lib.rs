//! Short-link router core: a rule cache mapping (host, source pattern) to
//! redirect rules, a resolver that matches request paths against the cache
//! (exact, parameterized, progressive-suffix), and a mutation coordinator
//! that keeps the cache consistent with a durable rule store.

pub mod cache;
pub mod coordinator;
pub mod encode;
pub mod laws;
pub mod models;
pub mod redirector;
pub mod text;
