//! On-demand resolution of missing build dependencies.
//!
//! A command is run with its search paths pointing into a mounted directory
//! tree. When it looks up a file that is not there, the resolver asks the
//! package index which packages hold such a file, lets the user or an
//! automatic policy choose one, records the choice, and answers with a link
//! into the package. This crate holds what is decided on the way; reading
//! files, running the store helper and talking to the kernel is left to the
//! program around it, which does what a step names and comes back with the
//! outcome.
//!
//! - [`fs`]: the resolver and its tables, step by step, and what holds of
//!   every lookup.
//! - [`resolution`], [`format`], [`document`]: the recorded decisions, their
//!   order of priority, and their textual form.
//! - [`index`], [`ranking`], [`popcount`]: what the index is asked, which
//!   of its rows count, and in which order they are proposed.
//! - [`interactive`]: what is put to the user and what an answer means.
//! - [`shadow`]: which entries of a package are mirrored in the shadow tree.
//! - [`runner`], [`launcher`], [`nix`]: the environment of the command, the
//!   requests to stop it, and the calls of the store helper.
//! - [`cache`], [`attr`], [`assoc`], [`text`]: the data that all of these
//!   speak of.

pub mod assoc;
pub mod attr;
pub mod cache;
pub mod document;
pub mod format;
pub mod fs;
pub mod index;
pub mod interactive;
pub mod launcher;
pub mod nix;
pub mod popcount;
pub mod ranking;
pub mod resolution;
pub mod runner;
pub mod shadow;
pub mod text;
