//! Verified core of a course scraper: URL discovery, retry policy, field
//! extraction and the record that they fill.

pub mod course_laws;
pub mod discovery;
pub mod dom;
pub mod duration;
pub mod english;
pub mod english_laws;
pub mod extractor;
pub mod fetch_laws;
pub mod fetcher;
pub mod fallback_laws;
pub mod field_laws;
pub mod fields;
pub mod intake_laws;
pub mod intakes;
pub mod json;
pub mod json_laws;
pub mod label_laws;
pub mod layer1;
pub mod layer2;
pub mod level;
pub mod number;
pub mod order;
pub mod page;
pub mod pattern;
pub mod record_laws;
pub mod schema;
pub mod score_laws;
pub mod scores;
pub mod sentence_laws;
pub mod sitemap;
pub mod summary;
pub mod text;
pub mod text_laws;
pub mod unicode;
pub mod url_laws;
pub mod urls;
