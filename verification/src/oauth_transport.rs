//! OAuth recovery state shared between the MCP transport and the session owner.
//!
//! Transport paths that run without a public client operation (SSE reconnects, session cleanup,
//! responses to server requests) report the exact access token the server rejected and stop the
//! SSE reconnect loop. The session owner refreshes and rebuilds the session, then finishes the
//! recovery for that token. Tokens are handled as their secret text.

use vstd::prelude::*;

use rmcp::transport::common::client_side_sse::SseRetryPolicy;

use crate::text::{chars_eq, chars_of};

verus! {

/// The delay, in milliseconds, of reconnect attempt `current_times` under the transport's
/// default exponential backoff: one second doubled per attempt, the multiplier saturating at
/// `u32::MAX` (the attempt count is taken modulo 2^32).
pub open spec fn default_backoff_ms(current_times: usize) -> nat {
    let e = (current_times as u32) as nat;
    if e < 32 {
        1000 * vstd::arithmetic::power2::pow2(e)
    } else {
        1000 * 0xffff_ffff
    }
}

/// Calls `SseRetryPolicy::retry` on `ExponentialBackoff::default()` of `rmcp` and reports the
/// delay in milliseconds. Claimed: the default policy has no attempt limit, so it always gives
/// a delay, of one second times `2^current_times` with the multiplier saturating at `u32::MAX`.
#[verifier::external_body]
fn default_backoff_retry_ms(current_times: usize) -> (r: Option<u128>)
    ensures
        r == Some(default_backoff_ms(current_times) as u128),
{
    match rmcp::transport::common::client_side_sse::ExponentialBackoff::default().retry(current_times) {
        Some(delay) => Some(delay.as_millis()),
        None => None,
    }
}

/// The pending rejection after finishing the recovery for `token`.
pub open spec fn after_recovery(pending: Option<Seq<char>>, token: Seq<char>) -> Option<Seq<char>> {
    match pending {
        Some(p) => if p == token {
            None
        } else {
            Some(p)
        },
        None => None,
    }
}

/// The SSE reconnect delay for attempt `current_times` given the pending rejection.
pub open spec fn retry_delay(pending: Option<Seq<char>>, current_times: usize) -> Option<u128> {
    if pending is Some {
        None
    } else {
        Some(default_backoff_ms(current_times) as u128)
    }
}

/// The access token the server rejected and whose recovery is still pending.
#[derive(Clone, Debug, PartialEq, Eq)]
pub struct OAuthTransportFailureState {
    pending_rejected_access_token: Option<String>,
}

impl View for OAuthTransportFailureState {
    type V = Option<Seq<char>>;

    closed spec fn view(&self) -> Option<Seq<char>> {
        match self.pending_rejected_access_token {
            Some(t) => Some(t@),
            None => None,
        }
    }
}

impl Default for OAuthTransportFailureState {
    fn default() -> (r: Self)
        ensures
            r@ is None,
    {
        Self::new()
    }
}

impl OAuthTransportFailureState {
    /// A state with no pending rejection.
    pub fn new() -> (r: Self)
        ensures
            r@ is None,
    {
        OAuthTransportFailureState { pending_rejected_access_token: None }
    }

    /// Records that the server rejected `rejected_access_token`.
    pub fn record_rejected_access_token(&mut self, rejected_access_token: String)
        ensures
            final(self)@ == Some(rejected_access_token@),
    {
        self.pending_rejected_access_token = Some(rejected_access_token);
    }

    /// Records the outcome of a transport call that runs without a public client operation.
    ///
    /// `runs_unattended` says whether the call is such a path: session cleanup and SSE streams
    /// always are, a POST only when it carries the client's response to a server request.
    /// `rejected_access_token` is the token the server rejected, when the call failed for that
    /// reason. Only an unattended call with a rejected token records it.
    pub fn record_transport_failure(
        &mut self,
        runs_unattended: bool,
        rejected_access_token: Option<String>,
    )
        ensures
            final(self)@ == match rejected_access_token {
                Some(t) => if runs_unattended {
                    Some(t@)
                } else {
                    old(self)@
                },
                None => old(self)@,
            },
    {
        if runs_unattended {
            if let Some(token) = rejected_access_token {
                self.record_rejected_access_token(token);
            }
        }
    }

    /// The rejected token whose recovery is pending, if any.
    pub fn pending_rejected_access_token(&self) -> (r: Option<String>)
        ensures
            match r {
                Some(t) => self@ == Some(t@),
                None => self@ is None,
            },
    {
        match &self.pending_rejected_access_token {
            Some(t) => Some(t.clone()),
            None => None,
        }
    }

    /// Ends the recovery for `rejected_access_token`: the pending rejection is cleared when it is
    /// that token, and kept when another token was rejected since.
    pub fn finish_recovery(&mut self, rejected_access_token: &str)
        ensures
            final(self)@ == after_recovery(old(self)@, rejected_access_token@),
    {
        let same = match &self.pending_rejected_access_token {
            Some(p) => {
                let pending = chars_of(p.as_str());
                let rejected = chars_of(rejected_access_token);
                chars_eq(&pending, &rejected)
            },
            None => false,
        };
        if same {
            self.pending_rejected_access_token = None;
        }
    }

    /// The delay before SSE reconnect attempt `current_times`, in milliseconds: none while a
    /// rejection is pending, else the default exponential backoff.
    pub fn sse_retry_delay_ms(&self, current_times: usize) -> (r: Option<u128>)
        ensures
            r == retry_delay(self@, current_times),
    {
        if self.pending_rejected_access_token.is_some() {
            None
        } else {
            default_backoff_retry_ms(current_times)
        }
    }
}

/// Recording a rejection stops SSE reconnects until the recovery for that same token finishes;
/// then the default backoff applies again. Finishing the recovery of another token keeps the
/// reconnects stopped.
pub proof fn lemma_rejection_pauses_retry_until_recovery(
    token: Seq<char>,
    other: Seq<char>,
    current_times: usize,
)
    requires
        other != token,
    ensures
        retry_delay(Some(token), current_times) is None,
        after_recovery(Some(token), other) == Some(token),
        retry_delay(after_recovery(Some(token), other), current_times) is None,
        after_recovery(Some(token), token) is None,
        retry_delay(after_recovery(Some(token), token), current_times) == Some(
            default_backoff_ms(current_times) as u128,
        ),
{
}

} // verus!
