//! WireMesh's verified rules: addressing, access policy, gateway state, rendering,
//! authentication and the decisions of the controller and its agents.

pub mod access;
pub mod acl;
pub mod agent;
pub mod audit;
pub mod auth;
pub mod config;
pub mod crypto;
pub mod db;
pub mod desired;
pub mod devices;
pub mod drift;
pub mod error;
pub mod federated;
pub mod fingerprint;
pub mod fleet;
pub mod groups;
pub mod grpc;
pub mod identity;
pub mod ids;
pub mod ipv4;
pub mod json;
pub mod keys;
pub mod laws;
pub mod lines;
pub mod linux;
pub mod linux_plan;
pub mod mail;
pub mod migration;
pub mod mikrotik;
pub mod models;
pub mod network;
pub mod policy;
pub mod protocol;
pub mod providers;
pub mod router;
pub mod router_plan;
pub mod router_target;
pub mod rows;
pub mod runtime;
pub mod scrub;
pub mod secrets;
pub mod sets;
pub mod settings;
pub mod sites;
pub mod sort;
pub mod state;
pub mod text;
pub mod time;
pub mod unambiguous;
pub mod urls;
pub mod user_import;
pub mod users;
pub mod walk;
pub mod wire;
