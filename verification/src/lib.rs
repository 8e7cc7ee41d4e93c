//! Verified core of the sealbox command-line tool and server: secret input
//! trimming, server configuration checks, password policies and password
//! generation, and the credential payloads and listings.

pub mod config;
pub mod credential;
pub mod input;
pub mod json;
pub mod password;
pub mod random;
pub mod text;
