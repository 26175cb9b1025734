//! ani-dl: search hianime.at, pick a show and episodes, resolve the HLS
//! streams and download them, with an optional minter sidecar for signed
//! requests.
pub mod text;
pub mod scan;
pub mod api;
pub mod providers;
pub mod titles;
pub mod naming;
pub mod hls;
pub mod minter;
pub mod recipe;
pub mod sidecar;
pub mod config;
pub mod version;
pub mod cli;
pub mod sync;
pub mod tui;
pub mod laws;
