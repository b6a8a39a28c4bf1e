//! Step records of the `fijit` command line: flat records tagged by `action`,
//! with a single `alert` action whose trigger is chosen by `on`.
pub mod step;
