pub mod artifact;
pub mod audit;
pub mod auth;
pub mod capability;
pub mod claims;
pub mod config;
pub mod daemon;
pub mod diff;
pub mod health;
pub mod keys;
pub mod landlock;
pub mod lcs;
pub mod metrics;
pub mod migrations;
pub mod openapi;
pub mod osmosis;
pub mod provenance;
pub mod sandbox;
pub mod seccomp;
pub mod server;
pub mod tenant;
pub mod text;
pub mod tls;
pub mod types;
pub mod validation;
