//! A binding to Cyclone DDS: what is decided and computed between an application
//! and DDS.
//!
//! Everything here works on plain values. Calls into DDS are handed in as
//! functions, or their answers as arguments; callbacks, handles and clocks are
//! type parameters and numbers. The programs that talk to DDS, to files and to
//! other processes stand around this library.
pub mod bench;
pub mod common;
pub mod dds_builtin;
pub mod dds_domain;
pub mod dds_listener;
pub mod dds_participant;
pub mod dds_qos;
pub mod dds_reader;
pub mod dds_writer;
pub mod error;
pub mod futures;
pub mod interface_gen;
pub mod match_watch;
pub mod serdata;
pub mod sertype;
pub mod shared_registry;
pub mod stats;
pub mod text;
pub mod time;
pub mod untyped;
pub mod util;
