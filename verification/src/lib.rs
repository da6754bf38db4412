//! Monitoring of TLS certificates.
pub mod acme;
pub mod certificate;
pub mod challenge;
pub mod clock;
pub mod commands;
pub mod config;
pub mod deploy;
pub mod der;
pub mod network;
pub mod notify;
pub mod ocsp;
pub mod order;
pub mod report;
pub mod scanner;
pub mod signing;
pub mod state;
pub mod terminal;
pub mod text;
pub mod types;
