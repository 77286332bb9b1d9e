//! Verified core of a local video library organiser.
pub mod archive;
pub mod browser;
pub mod codes;
pub mod download;
pub mod fspath;
pub mod html;
pub mod library;
pub mod order;
pub mod patterns;
pub mod report;
pub mod session;
pub mod text;
pub mod url;
