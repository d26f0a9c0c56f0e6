//! A detection-and-cleanup planning engine for JavaScript project trees.
//!
//! The library scans a directory snapshot for project roots, classifies each
//! project through a priority-ordered chain of detectors, derives the list of
//! disposable artifact directories (dependency caches, build outputs, tool
//! caches, coverage reports), and turns that list into an execution plan whose
//! aggregated results are computed here.  Everything that touches the real
//! filesystem — reading directories, deleting targets — lives outside the
//! library and communicates with it through plain values.

pub mod cleaner;
pub mod cli;
pub mod config;
pub mod fs_model;
pub mod idempotence;
pub mod plugins;
pub mod project;
pub mod scanner;
