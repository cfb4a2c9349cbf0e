//! Keeps the version declared in a build configuration file (a build number
//! and a semantic version) in step with an authoritative version, rewriting
//! only the lines that declare it.

pub mod error;
pub mod text;
pub mod version;
pub mod pattern;
pub mod buildgradle;
pub mod properties;
pub mod document;
pub mod reload;
pub mod locality;

pub use error::{Error, GradleResult};
pub use version::{sem_version_parse, GradleVersion, SemanticVersion};
pub use document::{BuildGradleContent, ConfigDocument, Dialect, PropertiesContent};
pub use buildgradle::{
    parse_version_code_line, parse_version_name_line, replace_version_code, replace_version_name,
};
pub use properties::{parse_project_version_from_line, replace_project_version_from_line};
