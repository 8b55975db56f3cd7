//! Scans a directory tree for software project roots, computes the on-disk
//! size of each project's dependency/build-artifact directories, and plans
//! their removal.
//!
//! All logic here works on an in-memory snapshot of a directory tree
//! ([`fs_model::FsTree`]); reading the real filesystem, printing, and the
//! actual removal calls live outside the library.

pub mod delete;
pub mod fs_model;
pub mod language;
pub mod repo;
pub mod report;
pub mod scan;
