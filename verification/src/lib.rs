//! Verified policy core of a BEACN Studio bridge: mixer profile validation and
//! reconciliation planning, write gates, the microphone comparison engine, and
//! the refresh and status rules of the desktop client.

pub mod text;
pub mod order;
pub mod model;
pub mod comparison;
pub mod worker;
pub mod client;
pub mod desktop;
pub mod dsp;
pub mod write_gate;
pub mod profile;
pub mod reconcile;
pub mod apply;
pub mod daemon;
pub mod pipeweaver;
pub mod mock_state;
pub mod view;
pub mod refresh;
