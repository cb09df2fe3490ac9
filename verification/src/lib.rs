//! Verified core of an OPC-UA address-space explorer.
//!
//! The remote namespace is reachable only through a "browse one node"
//! request/response primitive.  This crate holds everything that can be
//! reasoned about locally: the textual node-identifier codec, the
//! depth-bounded traversal engine with cycle avoidance, the progressive
//! name search with early termination, method-by-name resolution, and
//! argument coercion.  The network transport itself lives outside the
//! crate; callers drive the engines here by performing one browse call
//! per request and feeding the outcome back in.

pub mod ids;
pub mod text;
pub mod codec;
pub mod matching;
pub mod walk;
pub mod tree;
pub mod search;
pub mod resolve;
pub mod coerce;
pub mod display;
pub mod cli;
