//! API credentials: where they may come from, and which source wins.

use crate::error::CoreError;
use crate::text::{chars_of, is_blank, parse_i64_chars, parse_i64_text, string_of, trim, trim_chars};
use vstd::prelude::*;

verus! {

/// The credentials of the application with the messaging platform.
#[derive(Debug)]
pub struct TgCredentials {
    pub api_id: i32,
    pub api_hash: String,
}

impl Clone for TgCredentials {
    fn clone(&self) -> (r: Self)
        ensures
            r == *self,
    {
        TgCredentials { api_id: self.api_id, api_hash: self.api_hash.clone() }
    }
}

/// Where credentials may come from.
#[derive(Clone, Copy, Debug, PartialEq, Eq)]
pub enum CredentialsSource {
    Runtime,
    Keychain,
    EncryptedFile,
    Env,
}

/// The name of a source, as the user interface knows it.
pub open spec fn source_name(source: CredentialsSource) -> Seq<char> {
    match source {
        CredentialsSource::Runtime => "runtime"@,
        CredentialsSource::Keychain => "keychain"@,
        CredentialsSource::EncryptedFile => "encrypted"@,
        CredentialsSource::Env => "env"@,
    }
}

impl CredentialsSource {
    /// The name of the source, as the user interface knows it.
    pub fn as_str(&self) -> (r: &'static str)
        ensures
            r@ == source_name(*self),
    {
        match self {
            CredentialsSource::Runtime => "runtime",
            CredentialsSource::Keychain => "keychain",
            CredentialsSource::EncryptedFile => "encrypted",
            CredentialsSource::Env => "env",
        }
    }
}

/// What is known of the credentials without showing them.
#[derive(Clone, Copy, Debug, PartialEq, Eq)]
pub struct CredentialsStatus {
    pub available: bool,
    pub source: Option<CredentialsSource>,
    pub keychain_available: bool,
    pub encrypted_present: bool,
    /// Credentials exist, but only in the encrypted file, which is closed.
    pub locked: bool,
}

/// Checks credentials as entered: the id must be positive, and the hash,
/// once trimmed, must not be empty.
pub fn normalize_credentials(api_id: i32, api_hash: String) -> (r: Result<TgCredentials, CoreError>)
    ensures
        api_id <= 0 ==> r matches Err(CoreError::InvalidApiId),
        api_id > 0 && is_blank(api_hash@) ==> r matches Err(CoreError::InvalidApiHash),
        api_id > 0 && !is_blank(api_hash@) ==> (r matches Ok(c) && c.api_id == api_id
            && c.api_hash@ == trim(api_hash@)),
{
    if api_id <= 0 {
        return Err(CoreError::InvalidApiId);
    }
    let hash = trim_chars(&chars_of(api_hash.as_str()));
    if hash.len() == 0 {
        return Err(CoreError::InvalidApiHash);
    }
    Ok(TgCredentials { api_id, api_hash: string_of(&hash) })
}

/// The API id that a variable of the environment gives: a positive number
/// that an `i32` holds.
pub open spec fn env_api_id(raw: Option<Seq<char>>) -> Option<i32> {
    match raw {
        Some(t) => match parse_i64_text(t) {
            Some(n) => if 0 < n <= i32::MAX {
                Some(n as i32)
            } else {
                None
            },
            None => None,
        },
        None => None,
    }
}

/// The credentials that the environment gives, if it gives both an id and
/// a hash that is not blank.
pub fn env_credentials(raw_api_id: Option<&str>, raw_api_hash: Option<&str>) -> (r: Option<
    TgCredentials,
>)
    ensures
        match r {
            Some(c) => env_api_id(
                match raw_api_id {
                    Some(t) => Some(t@),
                    None => None,
                },
            ) == Some(c.api_id) && raw_api_hash is Some && !is_blank(raw_api_hash->0@)
                && c.api_hash@ == trim(raw_api_hash->0@),
            None => env_api_id(
                match raw_api_id {
                    Some(t) => Some(t@),
                    None => None,
                },
            ) is None || raw_api_hash is None || is_blank(raw_api_hash->0@),
        },
{
    let id: i32 = match raw_api_id {
        Some(t) => match parse_i64_chars(&chars_of(t)) {
            Some(n) => {
                if 0 < n && n <= 2147483647 {
                    n as i32
                } else {
                    return None;
                }
            },
            None => {
                return None;
            },
        },
        None => {
            return None;
        },
    };
    let hash = match raw_api_hash {
        Some(t) => trim_chars(&chars_of(t)),
        None => {
            return None;
        },
    };
    if hash.len() == 0 {
        return None;
    }
    Some(TgCredentials { api_id: id, api_hash: string_of(&hash) })
}

/// What the keychain answered.
pub enum KeychainAnswer {
    Found(TgCredentials),
    Empty,
    Unavailable,
}

/// Chooses the credentials to use: those given at run time, else those of
/// the keychain, else those of the environment. When none is there but an
/// encrypted file is, the credentials are locked.
pub fn resolve_credentials(
    runtime: Option<&TgCredentials>,
    keychain: KeychainAnswer,
    env: Option<TgCredentials>,
    encrypted_present: bool,
) -> (r: (Option<TgCredentials>, CredentialsStatus))
    ensures
        r.1.encrypted_present == encrypted_present,
        r.1.available == r.0 is Some,
        runtime is Some ==> r.0 == Some(*runtime->0) && r.1.source == Some(
            CredentialsSource::Runtime,
        ) && r.1.keychain_available && !r.1.locked,
        runtime is None ==> match keychain {
            KeychainAnswer::Found(c) => r.0 == Some(c) && r.1.source == Some(
                CredentialsSource::Keychain,
            ) && r.1.keychain_available && !r.1.locked,
            other => r.1.keychain_available == (other is Empty) && match env {
                Some(c) => r.0 == Some(c) && r.1.source == Some(CredentialsSource::Env)
                    && !r.1.locked,
                None => r.0 is None && r.1.source is None && r.1.locked == encrypted_present,
            },
        },
{
    let mut status = CredentialsStatus {
        available: false,
        source: None,
        keychain_available: true,
        encrypted_present,
        locked: false,
    };
    match runtime {
        Some(creds) => {
            status.available = true;
            status.source = Some(CredentialsSource::Runtime);
            return (Some(creds.clone()), status);
        },
        None => {},
    }
    match keychain {
        KeychainAnswer::Found(creds) => {
            status.available = true;
            status.source = Some(CredentialsSource::Keychain);
            return (Some(creds), status);
        },
        KeychainAnswer::Empty => {},
        KeychainAnswer::Unavailable => {
            status.keychain_available = false;
        },
    }
    match env {
        Some(creds) => {
            status.available = true;
            status.source = Some(CredentialsSource::Env);
            return (Some(creds), status);
        },
        None => {},
    }
    if encrypted_present {
        status.locked = true;
    }
    (None, status)
}

} // verus!
