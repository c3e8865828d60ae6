//! Core logic of the proto toolchain manager: identifier validation,
//! config trust, shim ownership, versioned binary buckets, lockfile
//! records, checksum verification, and executable location.

pub mod text;
pub mod captures;
pub mod assoc;

pub mod id;
pub mod paths;
pub mod hashing;
pub mod trust;
pub mod context;
pub mod shims;
pub mod bins;
pub mod order;
pub mod lock;
pub mod checksum;
pub mod gpg;
pub mod locate;
pub mod link;
pub mod install;
pub mod detect;
pub mod human;
pub mod expand;
pub mod config;
pub mod validate;
pub mod helpers;
pub mod manifest;
pub mod manage;
pub mod store;
pub mod registry;
pub mod sensitive;
pub mod files;
pub mod environment;
pub mod tool;
