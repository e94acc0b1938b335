//! A terminal first-person game's core: the procedural voxel world, the
//! difficulty table, the menu state machine, the wire protocol, and the
//! integer parts of the renderer.
pub mod world;
pub mod sim;
pub mod ui;
pub mod net;
pub mod render;
