//! The verified core of an MCP server for SuperCollider: recognising
//! SuperCollider processes and rendering their reports, the reply of the ping
//! tool, the normalisation of Streamable HTTP `Accept` headers, the startup
//! messages and the model of the server's node tree.
pub mod sc_process;
pub mod server;
pub mod server_stats;
pub mod startup;
pub mod streamable_http;
pub mod supercollider_model;
pub mod text;
