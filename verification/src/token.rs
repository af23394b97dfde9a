//! The stop signal, a `CancellationToken` of `tokio_util`.
//!
//! Tokens of one signal are made here and nowhere else: two for a new signal, and one more for each
//! clone of a handle. What has a token but no handle cannot cancel its signal unseen.

use tokio::task::JoinHandle;
use tokio_util::sync::CancellationToken;
use vstd::prelude::*;

use crate::channel::clone_registry_sender;
use crate::common::runtime::{same_registry, Handle, HandleInterface};

verus! {

/// `tokio_util::sync::CancellationToken`, taken as a whole.
#[verifier::external_type_specification]
#[verifier::external_body]
pub struct ExCancellationToken(CancellationToken);

/// Whether `token` is known to be cancelled.
pub uninterp spec fn stop_requested(token: CancellationToken) -> bool;

/// Whether the cancellation was asked for through `token` itself.
pub uninterp spec fn asked(token: CancellationToken) -> bool;

/// Whether `one` and `other` are cancelled together.
pub uninterp spec fn same_signal(one: CancellationToken, other: CancellationToken) -> bool;

/// Whether `after` is cancelled together with all that `before` is.
pub open spec fn keeps_signal(after: CancellationToken, before: CancellationToken) -> bool {
    forall|other: CancellationToken|
        #![trigger same_signal(after, other)]
        #![trigger same_signal(other, after)]
        same_signal(after, other) == same_signal(before, other) && same_signal(other, after)
            == same_signal(other, before)
}

/// The name that a function opens which may cancel a signal. No invariant is kept under it. It sets
/// apart the functions that may cancel a signal, be it through a token that they make and drop,
/// from those that cannot: a function that does not open it cannot call one that does.
pub open spec fn cancelling() -> int {
    0
}

/// What a function opens that may cancel a signal if `stops`, and cannot otherwise.
pub open spec fn cancels(stops: bool) -> Set<int> {
    if stops {
        set![cancelling()]
    } else {
        Set::empty()
    }
}

/// `CancellationToken::new`: a token that is not cancelled.
#[verifier::external_body]
fn new_token() -> (token: CancellationToken)
    ensures
        !stop_requested(token),
        !asked(token),
{
    CancellationToken::new()
}

/// `CancellationToken::clone`: a token that is cancelled together with `token` and with all that
/// `token` is, so that as much is known of it.
#[verifier::external_body]
fn clone_token(token: &CancellationToken) -> (r: CancellationToken)
    ensures
        stop_requested(r) == stop_requested(*token),
        !asked(r),
        same_signal(*token, r),
        same_signal(r, *token),
        keeps_signal(r, *token),
{
    token.clone()
}

/// `CancellationToken::cancel`: the token is cancelled, for good. It is borrowed mutably so that
/// this can be recorded.
#[verifier::external_body]
pub(crate) fn cancel(token: &mut CancellationToken)
    ensures
        stop_requested(*final(token)),
        asked(*final(token)),
        keeps_signal(*final(token), *old(token)),
    opens_invariants [ cancelling() ]
{
    token.cancel()
}

/// `CancellationToken::is_cancelled`: a token that was cancelled answers that it is, and one that
/// answers so is cancelled for good. Any other may have been cancelled through a clone, which other
/// threads decide. The token is borrowed mutably so that the answer can be recorded.
#[verifier::external_body]
pub(crate) fn is_cancelled(token: &mut CancellationToken) -> (r: bool)
    ensures
        r == stop_requested(*final(token)),
        stop_requested(*old(token)) ==> r,
        asked(*final(token)) == asked(*old(token)),
        keeps_signal(*final(token), *old(token)),
    opens_invariants none
{
    token.is_cancelled()
}

/// `CancellationToken::eq`: whether cancelling one token always cancels the other. Then a token is
/// cancelled where the other is known to be. It is borrowed mutably so that this can be recorded.
#[verifier::external_body]
pub(crate) fn is_same_signal(token: &mut CancellationToken, other: &CancellationToken) -> (r: bool)
    ensures
        r == same_signal(*old(token), *other),
        stop_requested(*final(token)) == (stop_requested(*old(token)) || r && stop_requested(
            *other,
        )),
        asked(*final(token)) == asked(*old(token)),
        keeps_signal(*final(token), *old(token)),
    opens_invariants none
{
    *token == *other
}

/// Two tokens of a new signal, which is not cancelled.
pub(crate) fn signal_pair() -> (r: (CancellationToken, CancellationToken))
    ensures
        !stop_requested(r.0),
        !asked(r.0),
        !stop_requested(r.1),
        !asked(r.1),
        same_signal(r.0, r.1),
        same_signal(r.1, r.0),
        keeps_signal(r.1, r.0),
{
    let token = new_token();
    let other = clone_token(&token);
    (token, other)
}

impl Clone for Handle {
    fn clone(&self) -> (r: Self)
        ensures
            r.stopping() == self.stopping(),
            !r.asked(),
            same_signal(self.stop_token, r.stop_token),
            same_signal(r.stop_token, self.stop_token),
            keeps_signal(r.stop_token, self.stop_token),
            r.launched() == Seq::<JoinHandle<()>>::empty(),
            same_registry(r.async_handle_tx, self.async_handle_tx),
    {
        Handle {
            stop_token: clone_token(&self.stop_token),
            async_handle_tx: clone_registry_sender(&self.async_handle_tx),
        }
    }
}

}
