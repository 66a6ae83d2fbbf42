//! Provisioning of standalone Python interpreters: reading versions, choosing a release
//! from the catalog for this platform, deciding the steps of an install, and creating a
//! virtual environment with the result.

pub mod catalog;
pub mod error;
pub mod fetch;
pub mod github;
pub mod install;
pub mod platform;
pub mod text;
pub mod venv;
pub mod version;

pub use github::{Asset, GithubResp};
pub use platform::MachineSuffix;
pub use version::Version;
