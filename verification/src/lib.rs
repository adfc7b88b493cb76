//! A range-partitioned file downloader core: planning byte ranges, accumulating
//! the bytes of each range, coordinating the fetches and assembling the result.

pub mod assembler;
pub mod chunk;
pub mod coordinator;
pub mod descriptor;
pub mod download;
pub mod error;
pub mod header;
pub mod range;
pub mod session;
