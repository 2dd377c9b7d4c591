//! The stages of signing in to the messaging platform.

use vstd::prelude::*;

verus! {

/// The stage that signing in has reached.
#[derive(Clone, Copy, Debug, PartialEq, Eq)]
pub enum AuthState {
    Unknown,
    WaitConfig,
    WaitPhone,
    WaitCode,
    WaitPassword,
    Ready,
    Closed,
}

/// The name of a stage, as the user interface knows it.
pub open spec fn auth_state_name(state: AuthState) -> Seq<char> {
    match state {
        AuthState::Unknown => "unknown"@,
        AuthState::WaitConfig => "wait_config"@,
        AuthState::WaitPhone => "wait_phone"@,
        AuthState::WaitCode => "wait_code"@,
        AuthState::WaitPassword => "wait_password"@,
        AuthState::Ready => "ready"@,
        AuthState::Closed => "closed"@,
    }
}

/// The name of a stage.
pub fn auth_state_to_str(state: &AuthState) -> (r: &'static str)
    ensures
        r@ == auth_state_name(*state),
{
    match state {
        AuthState::Unknown => "unknown",
        AuthState::WaitConfig => "wait_config",
        AuthState::WaitPhone => "wait_phone",
        AuthState::WaitCode => "wait_code",
        AuthState::WaitPassword => "wait_password",
        AuthState::Ready => "ready",
        AuthState::Closed => "closed",
    }
}

} // verus!
