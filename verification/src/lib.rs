//! Verified decisions behind a note-taking application's file tree:
//! name validation, collision-free naming, path arithmetic on `/`-separated
//! strings, planning of create / rename / move / copy / delete, discovery of
//! note files in a directory snapshot, and classification of watcher events.
//!
//! Nothing here touches the disk. Callers hand in what they observed (entry
//! kinds, directory snapshots, an existence probe) and carry out the returned
//! plans themselves.

pub mod text;
pub mod error;
pub mod names;
pub mod paths;
pub mod resolve;
pub mod entry;
pub mod mutate;
pub mod tree;
pub mod watch;
