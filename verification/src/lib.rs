//! Decision logic of the GiggleTech OSC router, verified with Verus.

pub mod config;
pub mod device_actor;
pub mod device_socket;
pub mod device_table;
pub mod device_uri;
pub mod osc_actor;
pub mod queue;
pub mod router;
pub mod twitch;
pub mod text;
