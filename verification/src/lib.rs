//! Tables of an authority that outlive an epoch.

pub mod base_types;
pub mod batch;
pub mod codec;
pub mod comparison_laws;
pub mod compatibility;
pub mod config;
pub mod error;
pub mod framework;
pub mod keys;
pub mod live_laws;
pub mod live_set;
pub mod lock_laws;
pub mod lock_table_laws;
pub mod locks;
pub mod object;
pub mod ordered_table;
pub mod package_laws;
pub mod reading_laws;
pub mod rollback;
pub mod rollback_effects;
pub mod rollback_laws;
pub mod rollback_prologue;
pub mod rollback_table_laws;
pub mod row_laws;
pub mod rows;
pub mod seq_facts;
pub mod state;
pub mod store_types;
pub mod table_laws;
pub mod tables;
pub mod text;
pub mod text_laws;
