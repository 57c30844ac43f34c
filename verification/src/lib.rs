//! Derives personalized calendar artifacts (one file per subscriber) from a
//! shared pool of timetabled event occurrences plus per-subscriber
//! customizations, and keeps the artifacts in sync as either source changes.
//!
//! - [`time`]: the civil date-time model and the timestamp grammar.
//! - [`events`]: raw occurrences as read from the shared event-group files.
//! - [`userconfig`]: per-subscriber configuration with timed overrides.
//! - [`apply_changes`]: applies one override to the working set.
//! - [`apply_details`]: merges reminder lead time and notes into an event.
//! - [`sorting`]: the stable sort of the working set by start time.
//! - [`generate_ics`]: the working event and the artifact renderer.
//! - [`changestatus`]: outcome classification and the batch summary.
//! - [`output_dir`]: the output directory as a value.
//! - [`output_files`]: the reconciliation engine over that model.
//! - [`watchcat`]: distinct changed-file names from debounced events.
//! - [`strutil`]: character-level string helpers and decimal formatting.

pub mod apply_changes;
pub mod apply_details;
pub mod changestatus;
pub mod events;
pub mod generate_ics;
pub mod output_dir;
pub mod output_files;
pub mod sorting;
pub mod strutil;
pub mod time;
pub mod userconfig;
pub mod watchcat;
