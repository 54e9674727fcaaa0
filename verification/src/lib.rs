//! Hangar's application rules: what each use case of the registry decides, given what the
//! stores and remotes answered, with contracts proved by Verus.

pub mod text;
pub mod error;
pub mod model;
pub mod ids;
pub mod crypto;
pub mod json;
pub mod quota;
pub mod email_templates;
pub mod invitation;
pub mod api_token;
pub mod sso;
pub mod mfa;
pub mod branding;
pub mod semver_req;
pub mod dependency_scan;
pub mod group_resolve;
pub mod access;
pub mod docker;
pub mod docker_catalog;
pub mod npm;
pub mod package_tree;
pub mod package_details;
pub mod retention;
pub mod smtp;
pub mod admin;
