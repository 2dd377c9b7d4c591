//! Settings of the connection, as the store keeps them and the environment
//! may supply them.

use crate::error::CoreError;
use crate::text::{
    chars_of, is_blank, parse_i64_chars, parse_i64_text, string_of, trim, trim_chars,
};
use vstd::prelude::*;

verus! {

/// The settings to connect with.
#[derive(Debug)]
pub struct TgSettings {
    pub api_id: i32,
    pub api_hash: String,
}

/// The settings as they are shown; a part that is not known is left out.
#[derive(Debug)]
pub struct TgSettingsView {
    pub api_id: Option<i32>,
    pub api_hash: Option<String>,
    pub tdlib_path: Option<String>,
}

/// The number that a stored API id denotes, if an `i32` holds it.
pub open spec fn stored_id(text: Seq<char>) -> Option<i32> {
    match parse_i64_text(text) {
        Some(n) => if i32::MIN <= n <= i32::MAX {
            Some(n as i32)
        } else {
            None
        },
        None => None,
    }
}

/// Reads the API id that the store keeps: nothing kept is no id; what is
/// kept must be a number.
pub fn parse_stored_api_id(raw: Option<&str>) -> (r: Result<Option<i32>, CoreError>)
    ensures
        match raw {
            None => r matches Ok(None),
            Some(t) => match stored_id(t@) {
                Some(n) => r matches Ok(Some(m)) && m == n,
                None => r matches Err(CoreError::InvalidStoredApiId),
            },
        },
{
    match raw {
        None => Ok(None),
        Some(t) => match parse_i64_chars(&chars_of(t)) {
            Some(n) => {
                if -2147483648 <= n && n <= 2147483647 {
                    Ok(Some(n as i32))
                } else {
                    Err(CoreError::InvalidStoredApiId)
                }
            },
            None => Err(CoreError::InvalidStoredApiId),
        },
    }
}

/// The settings to connect with: those of the store when it keeps both an id
/// and a hash, else those of the environment.
pub fn get_tg_settings(
    api_id: Option<i32>,
    api_hash: Option<String>,
    env: Option<TgSettings>,
) -> (r: Option<TgSettings>)
    ensures
        r == match (api_id, api_hash) {
            (Some(id), Some(hash)) => Some(TgSettings { api_id: id, api_hash: hash }),
            _ => env,
        },
{
    match (api_id, api_hash) {
        (Some(id), Some(hash)) => Some(TgSettings { api_id: id, api_hash: hash }),
        _ => env,
    }
}

/// The settings as they are shown: what the store does not keep is filled
/// in from the environment.
pub fn get_tg_settings_view(
    api_id: Option<i32>,
    api_hash: Option<String>,
    tdlib_path: Option<String>,
    env: Option<TgSettings>,
) -> (r: TgSettingsView)
    ensures
        r.tdlib_path == tdlib_path,
        r.api_id == match (api_id, env) {
            (None, Some(e)) => Some(e.api_id),
            _ => api_id,
        },
        r.api_hash == match (api_hash, env) {
            (None, Some(e)) => Some(e.api_hash),
            _ => api_hash,
        },
{
    match env {
        Some(e) => TgSettingsView {
            api_id: match api_id {
                Some(id) => Some(id),
                None => Some(e.api_id),
            },
            api_hash: match api_hash {
                Some(hash) => Some(hash),
                None => Some(e.api_hash),
            },
            tdlib_path,
        },
        None => TgSettingsView { api_id, api_hash, tdlib_path },
    }
}

/// The path of the client library as it is to be kept: trimmed, and not
/// kept at all when blank.
pub fn tdlib_path_to_keep(tdlib_path: Option<&str>) -> (r: Option<String>)
    ensures
        match r {
            Some(p) => tdlib_path is Some && !is_blank(tdlib_path->0@) && p@ == trim(
                tdlib_path->0@,
            ),
            None => tdlib_path is None || is_blank(tdlib_path->0@),
        },
{
    match tdlib_path {
        Some(p) => {
            let t = trim_chars(&chars_of(p));
            if t.len() == 0 {
                None
            } else {
                Some(string_of(&t))
            }
        },
        None => None,
    }
}

} // verus!
