//! Trimming and whitespace-normalization primitives for byte and
//! character sequences, with verified contracts.
//!
//! The library extends the usual trimming vocabulary in three directions:
//! match-based trimming of slices by flexible patterns, in-place trimming
//! of owned buffers, and a `trim_and_normalize` operation that trims the
//! edges and collapses every interior whitespace run to a single canonical
//! space, borrowing its input whenever no rewrite is needed.

mod cow;
mod iter;
mod laws;
mod normal;
mod pattern;
mod scan;
mod trim_mut;
mod trim_normal;
mod trim_slice;
mod unit;

pub use cow::TrimCow;
pub use iter::NormalizeWhiteSpaceIter;
pub use iter::NormalizeWhitespace;
pub use laws::law_matcher_forms_agree;
pub use laws::law_modes_agree;
pub use laws::law_normalize_borrows_clean;
pub use laws::law_normalize_idempotent;
pub use laws::law_scan_mutate_agree;
pub use laws::law_whitespace_collapsed;
pub use normal::collapsed_shape;
pub use normal::lemma_norm_ctl_superset;
pub use normal::lemma_norm_idempotent;
pub use normal::lemma_norm_shape;
pub use normal::lemma_norm_trim;
pub use normal::norm_from;
pub use normal::normal_shape;
pub use normal::normalized;
pub use normal::normalized_ctl;
pub use pattern::IsControl;
pub use pattern::IsWhitespace;
pub use pattern::MatchPattern;
pub use pattern::pat_fn;
pub use scan::first_keep;
pub use scan::keep_end;
pub use scan::lemma_trim_composes;
pub use scan::lemma_trim_extensional;
pub use scan::lemma_trim_idempotent;
pub use scan::trim_end_spec;
pub use scan::trim_spec;
pub use scan::trim_start_spec;
pub use trim_mut::TrimMatchesMut;
pub use trim_mut::TrimMut;
pub use trim_normal::TrimNormal;
pub use trim_normal::TrimNormalBytes;
pub use trim_normal::TrimNormalChars;
pub use trim_normal::TrimNormalIter;
pub use trim_normal::trim_and_normalize_fixup;
pub use trim_normal::trim_and_normalize_mut;
pub use trim_normal::trim_and_normalize_slice;
pub use trim_slice::TrimSliceMatches;
pub use unit::TrimUnit;
pub use unit::ws_ctl_fn;
pub use unit::ws_fn;
