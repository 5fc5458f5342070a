//! Application catalog engine for a launcher: desktop-descriptor parsing,
//! history-weighted fuzzy ranking, and the shown/hidden partition that keeps
//! the visible list consistent as the query changes.

/// Little-endian packing of launch counters.
pub mod bytes;
/// String helpers for parsing, ordering and display.
pub mod text;
/// Descriptor parsing into launchable entries.
pub mod xdg;
/// Ranking and the shown/hidden partition.
pub mod ui;
/// The persisted launch-history store.
pub mod history;
/// The merged input event stream's event type.
pub mod input;
