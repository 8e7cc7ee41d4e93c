//! The server's configuration.

use crate::text::{is_blank, is_blank_spec, trim_newlines, trim_trailing_newlines};
use vstd::prelude::*;

verus! {

/// The settings the server runs with.
#[derive(Debug, Clone)]
pub struct SealboxConfig {
    pub auth_token: String,
    pub store_path: String,
    pub listen_addr: String,
}

/// A setting that is present and not blank.
pub open spec fn usable(value: Option<String>) -> bool {
    value matches Some(v) && !is_blank_spec(v@)
}

/// The error for a missing or blank authentication token.
pub open spec fn auth_token_error() -> Seq<char> {
    "AUTH_TOKEN or AUTH_TOKEN_FILE is missing or empty"@
}

/// The error for a missing or blank store path.
pub open spec fn store_path_error() -> Seq<char> {
    "STORE_PATH is missing or empty"@
}

/// The error for a missing or blank listen address.
pub open spec fn listen_addr_error() -> Seq<char> {
    "LISTEN_ADDR is missing or empty"@
}

impl Default for SealboxConfig {
    /// The configuration for tests: a fixed token, an in-memory store, and
    /// the local port 8080.
    fn default() -> (res: Self)
        ensures
            res.auth_token@ == "test-token"@,
            res.store_path@ == ":memory:"@,
            res.listen_addr@ == "127.0.0.1:8080"@,
    {
        SealboxConfig {
            auth_token: "test-token".to_string(),
            store_path: ":memory:".to_string(),
            listen_addr: "127.0.0.1:8080".to_string(),
        }
    }
}

impl SealboxConfig {
    /// The configuration made of the three settings as they were found
    /// (`None` where a setting could not be read). A setting that is
    /// missing or holds only whitespace is refused, the token first, then
    /// the store path, then the listen address; accepted settings are kept
    /// as they are, untrimmed.
    pub fn from_values(
        auth_token: Option<String>,
        store_path: Option<String>,
        listen_addr: Option<String>,
    ) -> (res: Result<SealboxConfig, String>)
        ensures
            !usable(auth_token) ==> (res matches Err(e) && e@ == auth_token_error()),
            usable(auth_token) && !usable(store_path) ==> (res matches Err(e) && e@
                == store_path_error()),
            usable(auth_token) && usable(store_path) && !usable(listen_addr) ==> (res matches Err(
                e,
            ) && e@ == listen_addr_error()),
            usable(auth_token) && usable(store_path) && usable(listen_addr) ==> (res matches Ok(
                config,
            ) && Some(config.auth_token) == auth_token && Some(config.store_path) == store_path
                && Some(config.listen_addr) == listen_addr),
    {
        let auth_token = match auth_token {
            Some(value) if !is_blank(value.as_str()) => value,
            _ => return Err("AUTH_TOKEN or AUTH_TOKEN_FILE is missing or empty".to_string()),
        };
        let store_path = match store_path {
            Some(value) if !is_blank(value.as_str()) => value,
            _ => return Err("STORE_PATH is missing or empty".to_string()),
        };
        let listen_addr = match listen_addr {
            Some(value) if !is_blank(value.as_str()) => value,
            _ => return Err("LISTEN_ADDR is missing or empty".to_string()),
        };
        Ok(SealboxConfig { auth_token, store_path, listen_addr })
    }

    /// The value of a secret setting that can come from a variable or from a
    /// file: `from_file` is `None` when no file is named, and otherwise the
    /// file's contents or the error of reading it; `from_variable` is the
    /// variable's value or the error of reading it. A named file wins, with
    /// its trailing line endings removed, and an unreadable file is an error
    /// with no fallback to the variable.
    pub fn secret_from_sources(
        from_file: Option<Result<String, String>>,
        from_variable: Result<String, String>,
    ) -> (res: Result<String, String>)
        ensures
            match from_file {
                Some(Ok(contents)) => res matches Ok(value) && value@ == trim_newlines(contents@),
                Some(Err(e)) => res == Err::<String, String>(e),
                None => res == from_variable,
            },
    {
        match from_file {
            Some(Ok(contents)) => Ok(SealboxConfig::trim_secret_file_value(contents)),
            Some(Err(e)) => Err(e),
            None => from_variable,
        }
    }

    /// A secret read from a file, without the line endings that end it.
    pub fn trim_secret_file_value(value: String) -> (res: String)
        ensures
            res@ == trim_newlines(value@),
    {
        trim_trailing_newlines(value.as_str())
    }
}

} // verus!
