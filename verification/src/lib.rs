//! The decision logic of `dnsglobe`, a DNS propagation checker: it asks many
//! public resolvers for one record, groups their answers and watches until
//! they agree.
//!
//! Everything here is pure. Sockets, the terminal and the clock belong to the
//! program around this library, which hands in plain values and acts on the
//! plain values it gets back.

pub mod args;
pub mod consensus;
pub mod csv_reader;
pub mod csv_report;
pub mod escape;
pub mod json_reader;
pub mod json_report;
pub mod model;
pub mod once;
pub mod record;
pub mod rows;
pub mod state;
pub mod table;
pub mod text;
pub mod text_report;
pub mod watch;
