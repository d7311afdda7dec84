//! What a frame from another machine is answered with.
pub mod bench_serve;
pub mod join;
pub mod peer_serve;
