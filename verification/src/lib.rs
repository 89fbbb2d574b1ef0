//! Decision logic of the mail server's HTTP management endpoints: log viewing,
//! custom domains, pending actions, the diagnostic terminal and the service topology.

pub mod custom_domains;
pub mod http;
pub mod ids;
pub mod log;
pub mod pending_actions;
pub mod terminal;
pub mod text;
pub mod topology;
pub mod url;
