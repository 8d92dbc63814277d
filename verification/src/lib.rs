//! Core logic of `git-ignore`: choosing root templates of github/gitignore,
//! resolving a requested name, caching decisions, and what gets appended
//! to a `.gitignore` file.

pub mod text;
pub mod template;
pub mod urls;
pub mod completion;
pub mod config;
pub mod cache;
pub mod installer;
pub mod version;
pub mod service;
