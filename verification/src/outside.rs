//! What the library takes on trust from tokio, tokio-util and the standard library.

use crate::context::TurnDiffTracker;
use tokio::sync::{Barrier, Mutex};
use tokio_util::sync::CancellationToken;
use vstd::prelude::*;

verus! {

/// `tokio::sync::Barrier`, carried through and never looked into.
#[verifier::external_type_specification]
#[verifier::external_body]
pub struct ExBarrier(Barrier);

/// `tokio_util::sync::CancellationToken`, a handle on a flag that any clone may raise at any
/// time.
#[verifier::external_type_specification]
#[verifier::external_body]
pub struct ExCancellationToken(CancellationToken);

/// `CancellationToken::new` makes a token whose flag is down. The flag is shared with every
/// clone and changes behind `&`, so no clause speaks of it.
pub assume_specification[ CancellationToken::new ]() -> (token: CancellationToken)
;

/// `CancellationToken::is_cancelled` reads the flag as it stands at the moment of the call.
/// Another task may raise it at any time, so the answer is left open.
pub assume_specification[ CancellationToken::is_cancelled ](token: &CancellationToken) -> (cancelled:
    bool)
;

/// `tokio::sync::Mutex`, a lock that tasks share.
#[verifier::external_type_specification]
#[verifier::external_body]
#[verifier::reject_recursive_types(T)]
pub struct ExMutex<T: ?Sized>(Mutex<T>);

/// The tracker that a lock was made with.
pub uninterp spec fn locked_at_first(lock: Mutex<TurnDiffTracker>) -> TurnDiffTracker;

/// `Mutex::new` makes an unlocked lock that holds `tracker`. Whoever takes the lock may change
/// what it holds, so the clause speaks only of what it was made with.
#[verifier::external_body]
pub(crate) fn new_lock(tracker: TurnDiffTracker) -> (lock: Mutex<TurnDiffTracker>)
    ensures
        locked_at_first(lock) == tracker,
{
    Mutex::new(tracker)
}

/// `String::push` puts a character behind the others.
pub assume_specification[ String::push ](string: &mut String, c: char)
    ensures
        final(string)@ == old(string)@.push(c),
;

/// `char::from_u32` gives the character with the code `i`, and nothing where no character has it.
pub assume_specification[ char::from_u32 ](i: u32) -> (c: Option<char>)
    ensures
        c is Some == (i < 0xd800 || 0xe000 <= i <= 0x10ffff),
        c matches Some(c) ==> c == i as char,
;

} // verus!
