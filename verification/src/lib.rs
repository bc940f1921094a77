//! Reads and patches the YAML front matter of Markdown files.

pub mod classify;
pub mod cli;
pub mod clock;
pub mod convert;
pub mod document;
pub mod entries;
pub mod error;
pub mod flow;
pub mod frontmatter;
pub mod json;
pub mod laws;
pub mod layout;
pub mod meta;
pub mod number;
pub mod path;
pub mod probe;
pub mod request;
pub mod semver;
pub mod splice;
pub mod text;
pub mod tools;
pub mod value;
pub mod windows;
pub mod yaml;
pub mod zone;

pub use classify::infer_type;
pub use document::{join, split};
pub use meta::{bump_version, read_meta, read_meta_typed, write_meta};
pub use path::path_of;
pub use probe::intercept_probe;
pub use semver::bump_semver;
