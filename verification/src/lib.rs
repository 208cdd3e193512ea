//! A small batch text-templating library.
//!
//! Text is scanned for two fixed literal placeholder markers,
//! `{{TEMPLATE}}` and `{{STEM}}`, which are replaced by file contents and
//! file stems.  Two modes are offered: rendering one output per input file
//! ("translate") and aggregating all inputs into a single output through a
//! per-item fragment template ("reduce").

mod engine;
mod filter;
mod laws;
mod modes;

pub use laws::lemma_count_zero_iff_absent;
pub use laws::lemma_reduce_deterministic;
pub use laws::lemma_self_exclusion;
pub use laws::lemma_substitute_absent;
pub use laws::lemma_substitute_count;
pub use laws::lemma_substitute_exhaustive;
pub use laws::lemma_translate_deterministic;

pub use modes::MatchedFile;
pub use modes::MatchedFileView;
pub use modes::aggregate_spec;
pub use modes::file_views;
pub use modes::fragment_spec;
pub use modes::output_name;
pub use modes::reduce_spec;
pub use modes::render_reduce;
pub use modes::render_translate;
pub use modes::translate_one;
pub use modes::translate_spec;

pub use filter::extension_of;
pub use filter::extension_pred;
pub use filter::filter_by_extension;
pub use filter::last_dot;
pub use filter::lemma_last_dot;
pub use filter::name_views;
pub use filter::split_filename;
pub use filter::stem_of;

pub use engine::Marker;
pub use engine::count_matches;
pub use engine::marker_text;
pub use engine::occurs_at;
pub use engine::replace_all;
pub use engine::substitute;
