//! Core of an in-game chat-command helper overlay.
//!
//! The library discovers the chat commands registered inside a running game
//! client and groups them into a categorized snapshot for an overlay to
//! render. It contains the logic that can be reasoned about on plain values:
//! a binary version resolver keyed on executable entry points, decoders for
//! foreign C++ ABI structures, the arithmetic of call-site patching, the
//! command registry aggregator, and the polling initialization state machine.
//! The surrounding process plumbing (raw memory access, Win32 calls, D3D
//! hooks, rendering) lives outside this crate and feeds it plain values.

pub mod cmd_storage;
pub mod cppstd;
pub mod errors;
pub mod moonloader;
pub mod plugin;
pub mod samp;
pub mod sampfuncs;
pub mod utils;
