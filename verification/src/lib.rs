//! Status derivation for a static status page.
//!
//! Incidents are issue threads of a tracker. Their labels give each incident a
//! severity and name the components it touches; from these the crate derives
//! every component's status and the order in which incidents and their updates
//! are shown.

pub mod aggregator;
pub mod components;
pub mod config;
pub mod github;
pub mod labels;
pub mod order;
pub mod provider;
pub mod ranking;
pub mod status;
pub mod text;
pub mod time;
pub mod types;
pub mod utils;
