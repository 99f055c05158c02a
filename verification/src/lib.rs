//! Per-language source-code statistics: the aggregation model, its read-only
//! projections, and the resolution of ignore rules.
//!
//! A scan hands over what it classified, file by file; the store folds the
//! files into one aggregate per language and answers every question about
//! them from that state alone.

pub mod consistency;
pub mod ignore;
pub mod languages_view;
pub mod pylanguage;
pub mod pylanguage_type;
pub mod pylanguages;
pub mod report;
pub mod scanning;
pub mod text;
