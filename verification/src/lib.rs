//! The rules of a Spotify track recorder.
//!
//! Everything that the recorder decides or computes is a function here: what a
//! link names, what a reply from the desktop client says, which commands are
//! run and in which order, when a recording is over, how files are named and
//! tagged. Running processes, talking to the network and touching files is left
//! to the program around it.
pub mod auth;
pub mod capture;
pub mod codec;
pub mod events;
pub mod extract;
pub mod json;
pub mod links;
pub mod metadata;
pub mod output;
pub mod pattern;
pub mod pipewire_capture;
pub mod spotify_dbus;
pub mod text;
