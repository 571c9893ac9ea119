//! Core of a directory image browser: a bounded least-recently-used cache of
//! decoded images, a single-flight load coordinator, a neighbor-preload
//! scheduler, and a navigation/delete state machine, all specified and
//! verified over plain values. Decoding, the filesystem, and rendering are
//! outside collaborators; the surrounding binary drives this core and
//! performs the actual I/O.

pub mod cache;
pub mod coordinator;
pub mod entry;
pub mod geometry;
pub mod pipeline;
pub mod scan;
pub mod schedule;
pub mod viewer;
