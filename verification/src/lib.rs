//! Verified logic of a small collection of web puzzles: a cookie-and-milk
//! connect-four board, dotted-quad address arithmetic, manifest order
//! extraction, a milk rate limiter and gift tokens.

pub mod address;
pub mod day12;
pub mod day16;
pub mod day9;
pub mod entry;
pub mod manifest;
pub mod reply;
pub mod text;
