//! A package registry's store: authentication tokens, modules and their
//! releases, with lookups by key, an upsert, a download counter and a
//! ranked full-text search.

pub mod auth_tokens;
pub mod errors;
pub mod laws;
pub mod modules;
pub mod outcome;
pub mod records;
pub mod releases;
pub mod search;
pub mod stem;
pub mod store;
pub mod text;

pub use records::AuthToken;
pub use records::Module;
pub use records::NewModule;
pub use records::NewRelease;
pub use records::Release;
pub use errors::RegistryError;
pub use store::Registry;
