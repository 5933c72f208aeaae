//! Policy engine of the AXIS agent sandbox.
//!
//! A policy says what a sandboxed agent may touch. This crate holds the rules:
//! what a valid policy is, how hosts and credential paths are brought into
//! canonical form, which backend runs a sandbox, what command line and
//! environment the backend gets, and how a sandbox moves through its life.
//! Every rule is a function on plain values with a contract.

pub mod agents;
pub mod backend;
pub mod base64;
pub mod config;
pub mod credential_path;
pub mod credentials;
pub mod endpoint;
pub mod grants;
pub mod host;
pub mod ipc;
pub mod ipv6;
pub mod json;
pub mod managed_home;
pub mod paths;
pub mod policy;
pub mod report;
pub mod sandbox;
pub mod sandbox_env;
pub mod sandbox_error;
pub mod socket_address;
pub mod standalone;
pub mod text;
pub mod trace;
pub mod validation;
pub mod verdict;
pub mod vxn;
pub mod workspace;
