//! A tool for quickly switching between different file configurations.
//!
//! A config names target slots on disk and loadouts. Each loadout says
//! which file it wants at which target, and may have a parent from which it
//! takes over what it does not say itself. Loading a loadout resolves the
//! chain of its ancestors, merges their files into one mapping, and puts a
//! symbolic link to each file at its target.
//!
//! - [`config`] holds the config and its loadouts, [`files`] the table from
//!   targets to paths that both are made of, [`error`] the ways in which
//!   loading fails.
//! - [`resolve`] builds the chain of ancestors and [`merge`] flattens it.
//!   [`load`] does both and sets up the reconciler of [`reconcile`], which
//!   says step by step what is to be done on the filesystem. The library
//!   itself never touches the filesystem: its caller does what the
//!   reconciler asks for, and reports back.
//! - [`model`] runs the reconciler on an idealised filesystem and proves
//!   what applying a mapping does and never does.
//! - [`select`] and [`options`] decide what the user asked for; [`text`] and
//!   [`util`] hold what they need of text.

pub mod config;
pub mod error;
pub mod files;
pub mod load;
pub mod merge;
pub mod model;
pub mod options;
pub mod reconcile;
pub mod resolve;
pub mod select;
pub mod text;
pub mod util;
