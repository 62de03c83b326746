//! Captures, persists and queries snapshots of directory trees.
//!
//! A snapshot records every reachable entry under one root — the directory
//! structure, each entry's kind, per-inode size and timestamp, symlink
//! targets — in a compact binary form that can be reloaded later, filtered
//! with a small boolean expression language, and printed as a listing or an
//! indented tree.  The traversal pipeline, the predicate language and the
//! cap-enforcing limiter carry exact contracts; what each traversal does is
//! stated by spec functions over the observer protocol in `watcher` and
//! proved of the walker in `dumper`.

pub mod basic_printer;
pub mod boolean;
pub mod codec;
pub mod counter;
pub mod dates;
pub mod dumper;
pub mod entry_collector;
pub mod errors;
pub mod examiner_cli;
pub mod fsexpr;
pub mod fsmap;
pub mod fsparser;
pub mod fstok;
pub mod indent;
pub mod limiter;
pub mod list_printer;
pub mod render;
pub mod scanner;
pub mod watcher;
