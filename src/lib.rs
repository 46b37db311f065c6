//! Site URL discovery and status checking: a crawl engine, a sitemap reader and a
//! verification engine, with the pure decisions of each stated and proved here.

pub mod checker;
pub mod config;
pub mod crawler;
pub mod export;
pub mod extractor;
pub mod fetcher;
pub mod sitemap;
pub mod sitemap_parser;
pub mod text;
pub mod urls;

pub use checker::UrlStatus;
pub use config::{is_sitemap_url, AppConfig};
pub use extractor::extract_links;
pub use sitemap::generate_sitemap_xml;
