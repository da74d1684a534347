//! Deadlines, in nanoseconds on a clock of the caller's.

use vstd::prelude::*;

verus! {

/// The time from `now` to the deadline, if there is one; an error once it is reached.
pub open spec fn time_left(deadline: Option<u128>, now: u128) -> Result<Option<u128>, ()> {
    match deadline {
        None => Ok(None),
        Some(end) => if now < end {
            Ok(Some((end - now) as u128))
        } else {
            Err(())
        },
    }
}

/// How much time is left until the deadline, if there is one. Once it is reached,
/// returns `Err(())`.
pub fn check_timeout(deadline: Option<u128>, now: u128) -> (left: Result<Option<u128>, ()>)
    ensures
        left == time_left(deadline, now),
{
    if let Some(end) = deadline {
        if now < end {
            return Ok(Some(end - now));
        } else {
            return Err(());
        }
    }
    Ok(None)
}

/// What is left is the time by which the deadline comes after now; nothing is left from the
/// deadline on; and without a deadline there is no end.
pub proof fn law_time_left(deadline: Option<u128>, now: u128)
    ensures
        deadline is None ==> time_left(deadline, now) == Ok::<Option<u128>, ()>(None),
        deadline is Some && deadline->0 <= now ==> time_left(deadline, now) is Err,
        deadline is Some && deadline->0 > now ==> match time_left(deadline, now) {
            Ok(Some(left)) => left > 0 && now + left == deadline->0,
            _ => false,
        },
{
}

} // verus!
