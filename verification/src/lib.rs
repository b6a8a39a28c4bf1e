//! A declarative web scraper framework: pipelines of steps that narrow down
//! the elements extracted from a page and decide which Slack alerts to send.
pub mod text;
pub mod str_map;
pub mod number;
pub mod template;
pub mod element;
pub mod step;
pub mod pattern;
pub mod ops;
pub mod config;
pub mod records;
pub mod lines;
pub mod stages;
pub mod urls;
pub mod alerts;
pub mod scraper;
pub mod pipeline;
pub mod cli;
pub mod obscura;
pub mod fijjit;
pub mod state_file;
pub mod fijit_cli;
pub mod bike_discount;
