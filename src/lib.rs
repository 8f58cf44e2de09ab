//! A versioned schema-migration runner for the receipt store.
//!
//! The store's schema version lives inside the store itself. `migrate` reads
//! it, applies every registered migration that is newer, each as one atomic
//! unit, and records the new version after each.
pub mod laws;
pub mod model;
pub mod registry;
pub mod runner;
pub mod state;
pub mod store;

pub use model::VersionProbe;
pub use registry::{first_outstanding, receipt_migrations, registry_is_valid, Migration};
pub use runner::{migrate, starting_version, MigrationError};
pub use state::State;
pub use store::Store;
