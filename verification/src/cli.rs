//! Command-line argument data.
//!
//! The executable parses its arguments into these types; the library only
//! carries them.  Every subcommand performs a single call-through to the
//! broker, the blob store or an HTTP API.

use vstd::prelude::*;

verus! {

/// Parsed command line: the action that should be performed.
pub struct Cli {
    pub subcommand: Command,
}

/// The subcommands of the utility.
/// - `Produce`: push data via a producer to the local broker
/// - `Consume`: read data via a consumer from the local broker
/// - `Write`: write data to blob storage
/// - `Read`: read data from blob storage
/// - `Request`: request data from an external API
/// - `Ingest`: request from an API, then produce to the broker
/// - `Forward`: consume from the broker, then write to blob storage
/// - `Config`: edit a configuration file
/// - `Version`: print version information
pub enum Command {
    Produce { topic: String, file: String },
    Consume { topic: String, ttl: u8 },
    Read { container_name: String, file: String },
    Write { container_name: String, file: String },
    Request { api_name: String },
    Ingest { api_name: String, topic: String },
    Forward { topic: String, container_name: String, filename: String },
    Config { config_file: String },
    Version,
}

/// Arguments of the `produce` subcommand.
#[derive(Debug)]
pub struct Produce {
    pub topic: String,
    pub message: String,
}

/// Arguments of the `consume` subcommand.
pub struct Consume {
    pub topic: String,
    pub ttl: u8,
}

/// Arguments of the `write` subcommand.
pub struct Write {
    pub container_name: String,
    pub file: String,
}

/// Arguments of the `read` subcommand.
pub struct Read {
    pub container_name: String,
    pub file: String,
}

} // verus!
