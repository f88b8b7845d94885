//! A per-owner store of book records with reading progress, chapter notes,
//! derived reading statistics and a follow relation between owners.
pub mod error;
pub mod laws;
pub mod model;
pub mod record;
pub mod stats;
pub mod store;
