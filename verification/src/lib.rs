//! Scaffolding of server-side projects, as far as it is a matter of
//! deciding and not of doing.
//!
//! Three things are decided here. Which dependencies a project gets: the
//! tokens that a suggestion service answered, or a default, merged with those
//! that the user asks for ([`resolve`], [`scaffold`]). What the suggestion
//! service is asked ([`suggest`]). And how the build descriptor of the
//! scaffold comes to declare the plugins that the project requires
//! ([`manifest`]). Beside them stands the table of the known dependencies
//! ([`catalog`]), and the plan of what is run to set a project up
//! ([`steps`]). All of it works on texts ([`text`]).
//!
//! Reading files, fetching, and running the build tool are left to the
//! caller.

pub mod catalog;
pub mod manifest;
pub mod resolve;
pub mod scaffold;
pub mod steps;
pub mod suggest;
pub mod text;

pub use catalog::{listing, CatalogSource, DependencyCatalogEntry};
pub use manifest::{ManifestDocument, PluginCoordinate, SyncError, SyncFailure};
pub use resolve::{merge, ResolvedDependencySet};
pub use scaffold::{dependency_list, ProjectConfig};
pub use suggest::{prepare, Mode, SuggestionRequest};
