//! Cancellation of the running agent loop.
use tokio_util::sync::CancellationToken;

use vstd::prelude::*;

verus! {

#[verifier::external_type_specification]
#[verifier::external_body]
pub struct ExCancellationToken(CancellationToken);

/// Calls `CancellationToken::new`, which makes a token that is not
/// cancelled; nothing is claimed of it here.
#[verifier::external_body]
fn new_token() -> CancellationToken {
    CancellationToken::new()
}

/// Calls `CancellationToken::clone`, which makes another handle to the same
/// token: cancelling either cancels both, so the clone stands for the same
/// token.
#[verifier::external_body]
fn clone_token(token: &CancellationToken) -> (r: CancellationToken)
    ensures
        r == *token,
{
    token.clone()
}

/// Calls `CancellationToken::cancel`, which cancels the token and every
/// handle to it; its effect is not stated here.
#[verifier::external_body]
fn cancel_token(token: &CancellationToken) {
    token.cancel()
}

/// Starts a cancellable run: a new token becomes the active one, and a
/// handle to it is returned to the run.
pub fn begin(active: &mut Option<CancellationToken>) -> (r: CancellationToken)
    ensures
        *final(active) == Some(r),
{
    let token = new_token();
    *active = Some(clone_token(&token));
    token
}

/// Cancels the active run, if there is one.
pub fn cancel(active: &Option<CancellationToken>) {
    if let Some(token) = active {
        cancel_token(token);
    }
}

} // verus!
