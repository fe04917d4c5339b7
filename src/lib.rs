//! Network simulation and scenario playback engine: topology state, node
//! registry decisions, scenario timeline player and force-directed layout.

pub mod admin;
pub mod api;
pub mod assoc;
pub mod event_log;
pub mod layout;
pub mod player;
pub mod registry;
pub mod scenario;
pub mod text;
pub mod topology;
