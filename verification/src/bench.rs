//! Benchmark jobs: what a submission is answered with, how a job moves from
//! queued to done, and what is kept of it.
pub mod commands;
pub mod event;
pub mod job;
pub mod machine;
pub mod config;
pub mod reply;
pub mod host;
pub mod child;
pub mod journal;
pub mod lease;
pub mod records;
pub mod runner;
pub mod ports_std;
pub mod nodeinfo;
