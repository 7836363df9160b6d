//! Verified core of a directory fixity tool: it maintains per-directory
//! digest databases (`<algorithm>sum.txt` files of `digest  path` lines),
//! plans incremental updates, and judges verification runs.

pub mod filter;
pub mod pattern;
pub mod progress;
pub mod task;
pub mod text;
pub mod update;
pub mod util;
pub mod verify;
