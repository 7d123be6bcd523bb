//! Filesystem-event job dispatcher: the verified core.
//!
//! A job declares a watched directory tree, a set of interesting event
//! kinds, and a command template.  For each change notification whose kind
//! is declared interesting, the template is rendered (placeholder tokens
//! substituted with the watched root, the changed file and the event kind)
//! and the resulting command line is handed to a process runner.  This
//! crate holds the decision logic — filtering, templating, the per-job
//! state machine and the supervisor bookkeeping — on plain values; the
//! surrounding process (watch registration, subprocess spawning,
//! daemonization) performs the actions it is handed.

pub mod dispatch;
pub mod engine;
pub mod pid;
pub mod template;
