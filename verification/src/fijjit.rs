//! The earlier `fijjit` flavour of the framework: steps as flat records with
//! an `action` tag, elements without extra attributes, and a pipeline that
//! reports a single alert on its own.
pub mod config;
pub mod element;
pub mod pipeline;
pub mod scraper;
pub mod step;
