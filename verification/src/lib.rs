//! Maps flat byte offsets to zero-based (line, column) positions in a text
//! buffer.
//!
//! Two components share one data model (a byte buffer and the positions of
//! its line-feed bytes):
//!
//! - [`LineCache`]: a precomputed index of line-ending offsets, built in one
//!   pass over the whole buffer, answering random-access lookups.
//! - [`PosTrackerExtern`]: an incremental cursor that advances to
//!   monotonically increasing offsets by scanning only the delta;
//!   [`PosTrackerDatRef`] binds a fixed buffer reference to it for
//!   convenience.

mod laws;
mod line_cache;
mod model;
mod tracker;

pub use laws::lemma_cr_neutral;
pub use laws::lemma_fresh_tracker_tracks;
pub use laws::lemma_lookup_first_line;
pub use laws::lemma_lookup_idempotent;
pub use laws::lemma_lookup_interval;
pub use laws::lemma_tracker_index_agree;
pub use line_cache::LineCache;
pub use line_cache::is_index_for;
pub use line_cache::last_le;
pub use line_cache::lookup_of;
pub use model::CR;
pub use model::NL;
pub use model::column_after;
pub use model::count_newlines;
pub use model::newline_offsets;
pub use tracker::PosTrackerDatRef;
pub use tracker::PosTrackerExtern;
pub use tracker::advance_result;
