//! In-memory domain model of a qualitative-data-coding tool.
//!
//! A `CodeBook` owns the coding vocabulary (code definitions, themes) and the
//! applied codes (`QualCode`), while a `FileList` owns the source files and
//! their text blocks.  The two collections are deliberately decoupled:
//! file-scoped queries on the `CodeBook` take an explicit block-to-file
//! lookup table built by the caller.

pub mod ids;
pub mod strorder;
pub mod sorting;
pub mod highlight;
pub mod entities;
pub mod blockmap;
pub mod codebook;
pub mod files;
pub mod project;
pub mod actions;
pub mod laws;
