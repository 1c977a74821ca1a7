//! A keyboard and mouse shared across machines.
pub mod batch;
pub mod chord;
pub mod client;
pub mod command_line;
pub mod connection;
pub mod delivery;
pub mod destinations;
pub mod device;
pub mod error;
pub mod event;
pub mod fleet;
pub mod handshake;
pub mod held_inputs;
pub mod hid;
pub mod inject;
pub mod keymap;
pub mod layout;
pub mod outbox;
pub mod protocol;
pub mod recorder;
pub mod registry;
pub mod repeat;
pub mod server;
pub mod service;
pub mod shared;
pub mod slots;
pub mod suppression;
pub mod update;
pub mod updates;
pub mod writer;
