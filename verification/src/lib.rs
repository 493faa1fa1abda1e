//! Core of a debugger front end: the derived views a rendering surface
//! iterates, and the coordination that feeds and invalidates them. The
//! session layer that owns the adapter connection stays outside: events
//! arrive here one at a time as plain values, and anything the core wants
//! asked of the adapter it returns as a typed request.
//!
//! - `console` turns a flat stream of output notifications, some of which
//!   open or close (possibly collapsed) groups, into an ordered, indented,
//!   collapsible transcript.
//! - `variables` turns server-assigned container references into a
//!   flattened, depth-annotated, independently expandable display list,
//!   with lazy fetch-on-expand, caching, and invalidation on every resume.
//! - `evaluate` sends a user expression to the adapter and routes the
//!   result either to the transcript or to a targeted patch of a cached
//!   variable.
//! - `debug_core` assembles the three behind the one delivery point the
//!   session layer drives, and latches on termination.
//! - `protocol` holds the typed requests the core asks its session layer
//!   to issue.
//! - `debug_format` holds the plain configuration records that describe
//!   how a debug adapter is reached and started.

pub mod console;
pub mod debug_core;
pub mod debug_format;
pub mod evaluate;
pub mod protocol;
pub mod variables;
