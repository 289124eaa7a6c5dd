//! Token-budgeted output for agent tools, the channel factory registry, and
//! git checkpoint planning.
pub mod text;
pub mod budget;
pub mod markdown;
pub mod channels;
pub mod json;
pub mod emit;
pub mod compact;
pub mod raw;
pub mod git;
