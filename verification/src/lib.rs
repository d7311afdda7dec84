//! The decisions of a fleet agent: who it answers, who it trusts, which link
//! and which route it takes, how a cluster launch and a bench job move from
//! one state to the next. Everything here computes on plain values; sockets,
//! files, processes and clocks belong to the program around it.
pub mod text;
pub mod keyed;
pub mod node;
pub mod digest;
pub mod bench;
pub mod order;
pub mod json;
pub mod fabric;
pub mod guard;
pub mod joining;
pub mod pairing;
pub mod error;
pub mod identity;
pub mod discovery;
pub mod fleet;
pub mod net;
pub mod rendezvous;
pub mod cluster;
pub mod clusterdriver;
pub mod launcher;
pub mod launchstats;
pub mod control;
pub mod daemon;
pub mod name;
