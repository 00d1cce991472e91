//! Reconciles a local TV-episode library against a remote library reached
//! over a shell session: parses episode filenames, resolves messy local
//! folder names to canonical show identities, computes the set of episodes
//! missing remotely, and plans crash-safe temp-then-rename transfers.

pub mod certainty;
pub mod client;
pub mod config;
pub mod episode;
pub mod inventory;
pub mod local;
pub mod log;
pub mod osmc;
pub mod resolver;
pub mod strsim;
pub mod sync;
pub mod text;
pub mod tmdb;
pub mod upload;
