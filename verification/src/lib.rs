//! A Game of Life engine whose grid is split into independently advancing
//! sections. Each section owns a board plus a one-cell halo that mirrors its
//! neighbours' edges; sections exchange edges over channels without a global
//! barrier, tolerating a bounded generation skew between neighbours.

pub mod board;
pub mod channel;
pub mod section;
pub mod view;
pub mod whole;
