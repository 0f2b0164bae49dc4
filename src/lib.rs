//! Scraping core for a retail catalogue: link discovery on the landing page,
//! record extraction from product cards, deduplication by product identity
//! and grouping by discount label.
pub mod record;
pub mod dedup;
pub mod price;
pub mod html;
pub mod links;
pub mod page;
pub mod crawl;
pub mod group;
