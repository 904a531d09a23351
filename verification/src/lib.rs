//! Repackaging of Android application artifacts: the layout of a build's
//! working directory, the command lines of the external build tools, the
//! stage sequences of the two build flows, and the archive and file-tree
//! transformations that the stages between the tools perform.
//!
//! Nothing in this library touches the disk or starts a process. Callers hand
//! it plain values (a configuration, a snapshot of a directory, the bytes of
//! an archive) and carry out what it hands back: a [`pipeline::Build`] hands
//! out one stage at a time, each with its [`stage::Work`], and takes the
//! report on how the stage went.

pub mod archive;
pub mod config;
pub mod file_path;
pub mod pipeline;
pub mod resources;
pub mod stage;
pub mod transfer;
pub mod tree;

pub use crate::config::{Apk, BuildApk, Config, ConfigInfo, Jar, Sign};
pub use crate::pipeline::{build_aab, build_apk};
