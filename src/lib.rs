//! File tags and the filter expressions that select files by them: the
//! tag-list codec, the search-term grammar and compiler, and the evaluator.
pub mod canonical;
pub mod codec;
pub mod compile;
pub mod error;
pub mod grammar;
pub mod pattern;
pub mod rename;
pub mod searcher;
pub mod tags;
pub mod text;

pub use crate::codec::{csl_to_map, map_to_csl, tags_from_blob};
pub use crate::compile::{bookmark_to_resolve, compile_search, compile_search_with};
pub use crate::error::XTagError;
pub use crate::pattern::expand_regex;
pub use crate::rename::rename;
pub use crate::searcher::Searcher;
pub use crate::tags::XTags;
