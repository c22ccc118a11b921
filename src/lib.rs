//! Show and edit the dependency sections of a package manifest.
pub mod value;
pub mod dependency;
pub mod merge;
pub mod errors;
pub mod manifest;
pub mod upgrade;
pub mod manifest_new;
pub mod args;

pub use dependency::Dependency;
pub use errors::ManifestError;
pub use manifest::Manifest;
