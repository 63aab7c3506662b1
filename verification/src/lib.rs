//! Harvesting and loading of speedway match results.
//!
//! The crate covers the two halves of the pipeline: extraction of one
//! match page's markup into a canonical record (teams, players, runs,
//! date, venue), and the ingestion side that resolves reference
//! entities and plans the transactional load of each record.

pub mod date;
pub mod extract;
pub mod game;
pub mod html;
pub mod json;
pub mod limiter;
pub mod num;
pub mod records;
pub mod result_code;
pub mod season;
pub mod store;
pub mod text;
