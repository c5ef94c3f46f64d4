//! Receiving half of an optical file transfer: camera frames in, decoded QR payloads out.

pub mod awake;
pub mod camera;
pub mod camera_choice;
pub mod coordinator;
pub mod decimal;
pub mod decoder;
pub mod dedup;
pub mod desktop;
pub mod encoding;
pub mod frames;
pub mod header;
pub mod image;
pub mod naming;
pub mod payload;
pub mod permissions;
pub mod plane;
pub mod preview;
pub mod queue;
pub mod raster;
pub mod saving;
pub mod sender;
pub mod session;
pub mod tuning;
pub mod watchdog;
pub mod worker;
