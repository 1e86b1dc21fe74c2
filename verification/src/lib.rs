//! A web crawler that stays on the domain it starts from: what it fetches, what
//! it records, when it stops, and how its answers and logs read.
pub mod api;
pub mod better_logging;
pub mod crawl_laws;
pub mod crawl_model;
pub mod crawler;
pub mod html;
pub mod http_client;
pub mod link_extractor;
pub mod operation_laws;
pub mod page_laws;
pub mod prod_crawler;
pub mod robots;
pub mod robots_laws;
pub mod serializers;
pub mod text;
pub mod urls;
