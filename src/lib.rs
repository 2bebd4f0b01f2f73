//! A verified engine for the development-tool daemon protocol: request
//! correlation, event classification and fan-out, per-application session
//! lifecycles, and the reducer-driven state store.

pub mod correlator;
pub mod engine;
pub mod framing;
pub mod dispatcher;
pub mod json;
pub mod protocol;
pub mod request;
pub mod session;
pub mod store;
