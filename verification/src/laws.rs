//! What the library promises as a whole: each law is stated of what goes into an operation and
//! what comes out of it.

pub mod agents;
pub mod backends;
pub mod directories;
pub mod errors;
pub mod federation;
pub mod forms;
pub mod imports;
pub mod mail;
pub mod messages;
pub mod migrations;
pub mod observations;
pub mod people;
pub mod plans;
pub mod profiles;
pub mod reading;
pub mod routers;
pub mod rows;
pub mod secrecy;
pub mod sessions;
pub mod sites;
pub mod states;
pub mod tables;
pub mod texts;
