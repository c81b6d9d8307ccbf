//! Reconciles a persisted document of notebooks and notes with the set of
//! note files found in a source directory: files with no entry in the
//! document are gathered into one fresh notebook, and top-level notes whose
//! file is gone are pruned.

pub mod clock;
pub mod delta;
pub mod document;
pub mod numerals;
pub mod prune;
pub mod reconcile;
pub mod synth;
