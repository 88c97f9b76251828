//! A web crawler's core: the URL reservoir that feeds the clients, the
//! classification of what the clients fetch, the extraction of links from
//! HTML pages, the choice of files to store and the statistics that every component keeps.

pub mod stats;
pub mod text;
pub mod config;
pub mod url_reservoir;
pub mod links;
pub mod worker;
pub mod client;
pub mod murmur;
pub mod bloom_filter;
pub mod file_store;
