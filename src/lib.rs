//! Build-time core of a semantic-HTML styling framework: a colour engine that
//! normalises colour literals and derives tonal scales, a CSS optimiser that
//! parses, deduplicates, hoists and re-serialises stylesheets, and the
//! language-specific typography filters.
pub mod text;
pub mod optimizer;
pub mod color;
pub mod typography;
pub mod parser;
pub mod breakpoints;
pub mod config;
pub mod builder;
