//! Generates the configuration that clangd needs to analyse an openFrameworks project
//! in the Zed editor: a compilation database and a `.clangd` file.
//!
//! The library decides and computes; it reads and writes no file. What was found on
//! disk is handed to it as plain values:
//!
//! - [`project::Project`], from which [`collect_include_directories`] gives the search
//!   path, following the patterns in the configuration files of the addons
//!   ([`excludes`]);
//! - [`sources::SourceDir`], from which [`collect_source_files`] gives the sources.
//!
//! [`generate_compile_commands`] turns the two lists into the entries of the database, and
//! [`generate_clangd_config`] the search path into the text of the `.clangd` file.

pub mod clangd;
pub mod commands;
pub mod config;
pub mod dirs;
pub mod excludes;
pub mod joins;
pub mod listing;
pub mod order;
pub mod path_set;
pub mod paths;
pub mod places;
pub mod platform;
pub mod project;
pub mod sources;
pub mod text;
pub mod versions;

pub use crate::clangd::generate_clangd_config;
pub use crate::commands::{generate_compile_commands, CompileCommand};
pub use crate::config::{is_affirmative, Check, Config};
pub use crate::dirs::{add_directories_recursively, DirTree};
pub use crate::excludes::{
    covering_pattern, exclude_rules, is_excluded_dir, parse_addon_excludes, ExcludePattern,
};
pub use crate::path_set::PathSet;
pub use crate::paths::{normalize_windows_path, resolve_path};
pub use crate::places::{
    addon_places, addon_reference, apps_place, library_places, locate_addon, mac_header_place,
    project_files, project_places, windows_places, AddonPlace, AddonPlaces, LibraryPlaces,
    ProjectFiles, ProjectPlaces,
};
pub use crate::platform::{MAC_SDK_ROOT, OS};
pub use crate::project::{
    collect_include_directories, is_other_library, search_directories, Addon, AddonLibrary,
    Library, ListedAddon, Project,
};
pub use crate::sources::{
    collect_source_files, is_source_file, scan_sources_recursively, SourceDir,
};
pub use crate::versions::latest;
