//! Chat with a local `llama-server`, verified.
//!
//! The library holds everything that `llamadeck` decides: what is sent to the
//! model server, how its answers and event streams are read, what the tool-using
//! agent may do next, how conversations are named and listed, and what the
//! counters say. Sockets, files, processes and the clock belong to the program
//! around it.

pub mod agent;
pub mod backend;
pub mod chronicle;
pub mod engine;
pub mod history;
pub mod json;
pub mod order;
pub mod repl;
pub mod server;
pub mod session;
pub mod session_laws;
pub mod sse;
pub mod stats;
pub mod text;
pub mod tools;
