//! How long the two sides of a channel back off before they wait, by how many
//! they are and how much of the machine there is.

use vstd::prelude::*;

use crate::backoff::BackoffConfig;

verus! {

/// The backoff of a side of `mine` threads against `other` on a machine that
/// runs `avail` at once.
pub open spec fn chosen_backoff(mine: usize, other: usize, avail: usize) -> BackoffConfig {
    let total = mine + other;
    let (limit, spin): (u16, u16) = if total > avail + 1 {
        (4, 2)
    } else if total >= avail {
        (5, 4)
    } else if mine == other {
        (7, 7)
    } else {
        (6, 6)
    };
    let spin_limit: u16 = if avail <= 1 {
        0
    } else if mine > (other << 2usize) {
        0
    } else if (mine << 2usize) < other && (mine << 1usize) < avail {
        limit
    } else {
        spin
    };
    BackoffConfig { spin_limit, limit }
}

/// Chooses the backoff of a side and publishes it, packed, in `global`.
///
/// The more threads there are for the machine, the sooner they stop spinning. A
/// side that outnumbers the other by far does not spin at all, to leave the
/// processor to the other; one that is outnumbered by far spins all the time. On
/// a machine that runs one thread at a time nobody spins.
pub fn determine_backoff(
    global: &mut u32,
    my_count: usize,
    other_count: usize,
    avail: usize,
) -> (config: BackoffConfig)
    requires
        my_count + other_count <= usize::MAX,
        avail < usize::MAX,
    ensures
        config == chosen_backoff(my_count, other_count, avail),
        *final(global) == config.packed(),
{
    let mut limit: u16 = 6;
    let mut spin_limit: u16 = 6;
    let total: usize = my_count + other_count;
    if total > avail + 1 {
        limit = 4;
        spin_limit = 2;
    } else if total >= avail {
        limit = 5;
        spin_limit = 4;
    } else if my_count == other_count {
        spin_limit = 7;
        limit = 7;
    }
    if my_count > (other_count << 2usize) {
        spin_limit = 0;
    } else if (my_count << 2usize) < other_count && (my_count << 1usize) < avail {
        spin_limit = limit;
    }
    if avail <= 1 {
        spin_limit = 0;
    }
    let config = BackoffConfig { spin_limit, limit };
    *global = config.to_u32();
    config
}

/// Reads a published backoff.
pub fn load_backoff(global: u32) -> (config: BackoffConfig)
    ensures
        config == BackoffConfig::unpacked(global),
{
    BackoffConfig::from_u32(global)
}

/// What is published is what was chosen.
pub proof fn law_published_backoff(mine: usize, other: usize, avail: usize)
    ensures
        BackoffConfig::unpacked(chosen_backoff(mine, other, avail).packed()) == chosen_backoff(
            mine,
            other,
            avail,
        ),
{
    crate::backoff::law_config_round_trip(chosen_backoff(mine, other, avail), 0);
}

/// How long a side backs off: for fewer steps the more threads there are for the machine,
/// and for most where both sides are as many and the machine has threads to spare. It spins
/// for so many of these steps as its place among the sides allows.
pub proof fn law_backoff_chosen(mine: usize, other: usize, avail: usize)
    ensures
        ({
            let total = mine + other;
            let c = chosen_backoff(mine, other, avail);
            &&& total > avail + 1 ==> c.limit == 4
            &&& avail <= total <= avail + 1 ==> c.limit == 5
            &&& total < avail && mine == other ==> c.limit == 7
            &&& total < avail && mine != other ==> c.limit == 6
            &&& avail <= 1 || mine > (other << 2usize) ==> c.spin_limit == 0
            &&& avail > 1 && mine <= (other << 2usize) ==> if (mine << 2usize) < other && (mine
                << 1usize) < avail {
                c.spin_limit == c.limit
            } else if total > avail + 1 {
                c.spin_limit == 2
            } else if total >= avail {
                c.spin_limit == 4
            } else {
                c.spin_limit == c.limit
            }
        }),
{
}

/// A task of a runtime with one worker does not back off, so as to leave the worker to the
/// other side; else a task backs off for longer if a few messages fill the channel.
pub proof fn law_task_backoff(bound: Option<usize>, workers: Option<usize>)
    ensures
        workers is Some && workers->0 <= 1 ==> async_steps_tx(bound, workers) == 0
            && async_steps_rx(bound, workers) == 0,
        !(workers is Some && workers->0 <= 1) ==> {
            let tiny = bound is Some && 1 <= bound->0 <= 2;
            &&& tiny ==> async_steps_tx(bound, workers) == 6 && async_steps_rx(bound, workers) == 5
            &&& !tiny ==> async_steps_tx(bound, workers) == 1 && async_steps_rx(bound, workers)
                == 1
        },
{
}

/// A side never spins past the end of its wait, every wait ends at a step that a
/// backoff reaches, and on a machine that runs one thread at a time nobody spins.
pub proof fn law_backoff_in_range(mine: usize, other: usize, avail: usize)
    ensures
        chosen_backoff(mine, other, avail).spin_limit <= chosen_backoff(mine, other, avail).limit,
        4 <= chosen_backoff(mine, other, avail).limit <= 7,
        avail <= 1 ==> chosen_backoff(mine, other, avail).spin_limit == 0,
{
}

/// As long as the counts take at most a quarter of a word, a side that is more than
/// four times the other never spins. One that is outnumbered more than four times, and takes
/// less than half of the machine, spins for all of its wait.
pub proof fn law_outnumbered(mine: usize, other: usize, avail: usize)
    requires
        mine <= usize::MAX / 4,
        other <= usize::MAX / 4,
    ensures
        mine > 4 * other ==> chosen_backoff(mine, other, avail).spin_limit == 0,
        4 * mine < other && 2 * mine < avail && avail > 1 ==> chosen_backoff(
            mine,
            other,
            avail,
        ).spin_limit == chosen_backoff(mine, other, avail).limit,
{
    vstd::arithmetic::power2::lemma2_to64();
    vstd::bits::lemma_usize_shl_is_mul(other, 2);
    vstd::bits::lemma_usize_shl_is_mul(mine, 2);
    vstd::bits::lemma_usize_shl_is_mul(mine, 1);
}

/// Calls `tokio::runtime::Handle::try_current`, and on the handle `metrics` and
/// `num_workers`: the number of worker threads of the runtime that the caller runs
/// in, or nothing outside of any. Nothing is claimed of the number: it rests on
/// where the caller runs.
#[verifier::external_body]
pub(crate) fn runtime_workers() -> (workers: Option<usize>) {
    match tokio::runtime::Handle::try_current() {
        Ok(handle) => Some(handle.metrics().num_workers()),
        Err(_) => None,
    }
}

/// The number of steps that a sending task backs off in a runtime of so many
/// workers, if the number is known: none where it would keep the only worker from the
/// other side; more for a bound that a few messages reach.
pub open spec fn async_steps_tx(bound: Option<usize>, workers: Option<usize>) -> i8 {
    if workers is Some && workers->0 <= 1 {
        0
    } else if bound == Some(1usize) || bound == Some(2usize) {
        6
    } else {
        1
    }
}

/// The number of steps that a receiving task backs off, chosen alike.
pub open spec fn async_steps_rx(bound: Option<usize>, workers: Option<usize>) -> i8 {
    if workers is Some && workers->0 <= 1 {
        0
    } else if bound == Some(1usize) || bound == Some(2usize) {
        5
    } else {
        1
    }
}

fn is_tiny(bound: Option<usize>) -> (tiny: bool)
    ensures
        tiny == (bound == Some(1usize) || bound == Some(2usize)),
{
    match bound {
        Some(size) => size > 0 && size <= 2,
        None => false,
    }
}

/// Chooses the number of steps for which a sending task backs off.
pub fn async_backoff_tx(bound: Option<usize>, workers: Option<usize>) -> (steps: i8)
    ensures
        steps == async_steps_tx(bound, workers),
{
    if let Some(n) = workers {
        if n <= 1 {
            return 0;
        }
    }
    if is_tiny(bound) {
        6
    } else {
        1
    }
}

/// Chooses the number of steps for which a receiving task backs off.
pub fn async_backoff_rx(bound: Option<usize>, workers: Option<usize>) -> (steps: i8)
    ensures
        steps == async_steps_rx(bound, workers),
{
    if let Some(n) = workers {
        if n <= 1 {
            return 0;
        }
    }
    if is_tiny(bound) {
        5
    } else {
        1
    }
}

} // verus!
