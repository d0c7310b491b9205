//! Batch renaming of files by extension: the matching rule, the scan of a
//! directory tree, the computation of new names, the command-line options
//! and the decisions of a run, all verified.
pub mod args;
pub mod extension;
pub mod run;
pub mod scan;
