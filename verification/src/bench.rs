//! The benchmark: its cases, its messages and what is made of a run.
pub mod arguments;
pub mod cases;
pub mod cdr_run;
pub mod clock;
pub mod config;
pub mod control;
pub mod error;
pub mod host;
pub mod latency;
pub mod matching;
pub mod message;
pub mod publish;
pub mod receive;
pub mod record;
