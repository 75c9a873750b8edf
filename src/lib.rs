//! Fleet-monitoring cockpit library. Its core is the rate-limit forecaster
//! (`forecast`): usage samples per account become a velocity, a projected
//! time to exhaustion, a confidence and a recommended action. Around it
//! stand role-based access to the web API (`auth`), the watch-stream filter
//! (`watch`), autopilot modes (`autopilot`), the schema registry (`schema`)
//! and display helpers (`display`).

pub mod alert;
pub mod auth;
pub mod autopilot;
mod clock;
pub mod display;
pub mod executor;
pub mod forecast;
pub mod guardian;
pub mod knowledge;
pub mod query;
pub mod schema;
pub mod screens;
pub mod text;
pub mod watch;
pub mod web;
