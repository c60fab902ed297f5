//! Parser for a line-oriented configuration format that lists filesystem
//! paths to include and exclude:
//!
//! ```text
//! include /etc/passwd
//! include /home/user
//! exclude /home/user/.local
//! ```
pub mod config;
pub mod grammar;
pub mod laws;
pub mod text;
