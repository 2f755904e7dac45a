//! A small library behind a command-line utility that moves data between a
//! Kafka-compatible message broker, Azure Blob Storage and HTTP data APIs.
//!
//! The verified part holds the data types the commands share, the lookup of
//! API credentials, the consumer polling state machine, the producer delivery
//! report, and the JSON encoding used when forwarding consumed messages to
//! blob storage.  The network calls themselves live outside this crate.

pub mod blob;
pub mod cli;
pub mod config;
pub mod consumer;
pub mod errors;
pub mod forward;
pub mod producer;
pub mod request;
pub mod response;
