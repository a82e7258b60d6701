//! Build-log to compilation-database pipeline.
//!
//! The crate turns the raw text log of a native build into a structured
//! compilation database: for every source file compiled during the build,
//! the set of compiler flags used to compile it.  The pieces are
//!
//! * [`tokenize`]: shell-style tokenization of one invocation line,
//! * [`flags`]: extraction of the canonical flag set of an invocation,
//! * [`command`]: the block parser producing one [`command::CompilationCommand`],
//! * [`dispatch`]: the scan over the log that recognizes invocation lines,
//! * [`db`]: expansion of file lists and the merge into one file-to-flags map.
//!
//! Reading file lists from disk is input/output and stays with the caller:
//! the resolved contents are handed in as a [`db::FileListStore`].

pub mod command;
pub mod db;
pub mod dispatch;
pub mod flags;
pub mod genfile;
pub mod strutil;
pub mod tokenize;
