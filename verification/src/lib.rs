//! Sinter: a static-site content compiler.
//!
//! The library turns source documents (front matter + body), a site
//! configuration and a theme registry into a deterministic plan of output
//! files: site metadata, paginated listing pages, one file per post, and a
//! CSS bundle path per theme.  All text is handled as UTF-8 byte sequences.
//! File discovery, atomic writes and logging live outside the library; the
//! compiler itself is a pure function of its inputs.

pub mod compile;
pub mod date;
pub mod front_matter;
pub mod json;
pub mod laws;
pub mod order;
pub mod paginate;
pub mod post;
pub mod render;
pub mod routes;
pub mod site;
pub mod text;
pub mod themes;

use vstd::prelude::*;

verus! {

/// Fallback number of post summaries per listing page when the site
/// configuration does not set one.
pub const DEFAULT_PAGINATION_SIZE: usize = 10;

/// Fallback number of body bytes used for a derived excerpt when the site
/// configuration does not set one.
pub const DEFAULT_EXCERPT_LENGTH: usize = 200;

} // verus!
