//! A badge service for repository statistics: the request handling, the
//! interpretation of `git ls-remote` output, language statistics, and the
//! badge contents are decided here; the HTTP server, the git and file system
//! work, and the SVG rendering live in the application around it.
pub mod text;
pub mod ls_remote;
pub mod repo;
pub mod languages;
pub mod config;
pub mod badge;
pub mod handler;
