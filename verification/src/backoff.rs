//! Exponential backoff for threads that wait on each other.

use vstd::prelude::*;

verus! {

/// Steps during which a default backoff spins instead of yielding.
pub const SPIN_LIMIT: u16 = 6;

/// Step from which a default backoff counts as completed.
pub const DEFAULT_LIMIT: u16 = 6;

/// Step at which a backoff stops growing.
pub const MAX_LIMIT: u16 = 10;

/// Radix of the packed form of a [`BackoffConfig`].
const HALF: u32 = 65536;

/// How long a [`Backoff`] spins before it yields, and when it has waited enough.
#[derive(Debug, Clone, Copy, PartialEq, Eq, Structural)]
pub struct BackoffConfig {
    pub spin_limit: u16,
    pub limit: u16,
}

impl Default for BackoffConfig {
    fn default() -> (config: Self)
        ensures
            config == BackoffConfig::spec_default(),
    {
        BackoffConfig { spin_limit: SPIN_LIMIT, limit: DEFAULT_LIMIT }
    }
}

impl BackoffConfig {
    pub open spec fn spec_default() -> BackoffConfig {
        BackoffConfig { spin_limit: SPIN_LIMIT, limit: DEFAULT_LIMIT }
    }

    /// What a pause at a step comes to.
    pub open spec fn pause_at(self, step: nat) -> Pause {
        if step < self.spin_limit {
            Pause::Spun(hints_at(step) as u32)
        } else {
            Pause::Yield
        }
    }

    /// The packed form: the spin limit in the low half, the limit in the high half.
    pub open spec fn packed(self) -> u32 {
        (self.limit * 65536 + self.spin_limit) as u32
    }

    /// The configuration whose packed form is `config`.
    pub open spec fn unpacked(config: u32) -> BackoffConfig {
        BackoffConfig { spin_limit: (config % 65536) as u16, limit: (config / 65536) as u16 }
    }

    /// Packs both limits into one word, so that they can be published together.
    pub fn to_u32(&self) -> (config: u32)
        ensures
            config == self.packed(),
            config == self.limit * 65536 + self.spin_limit,
    {
        self.limit as u32 * HALF + self.spin_limit as u32
    }

    /// Unpacks what [`BackoffConfig::to_u32`] packed.
    pub fn from_u32(config: u32) -> (unpacked: Self)
        ensures
            unpacked == BackoffConfig::unpacked(config),
            config == unpacked.limit * 65536 + unpacked.spin_limit,
    {
        BackoffConfig { spin_limit: (config % HALF) as u16, limit: (config / HALF) as u16 }
    }

    /// Spins during the first `limit` steps, and waits no longer than before.
    pub fn set_async_limit(&mut self, limit: u16)
        ensures
            final(self).spin_limit == limit,
            final(self).limit == (if limit < old(self).limit {
                limit
            } else {
                old(self).limit
            }),
    {
        if limit < self.limit {
            self.limit = limit;
        }
        self.spin_limit = limit;
    }
}

/// What one pause of a [`Backoff`] came to.
#[derive(Debug, Clone, Copy, PartialEq, Eq, Structural)]
pub enum Pause {
    /// The pause was spent spinning: so many processor hints were issued.
    Spun(u32),
    /// The thread has to give up its time slice: the caller yields.
    Yield,
}

/// Calls `std::hint::spin_loop`, which tells the processor that the thread is
/// spinning. Nothing is claimed of it: it has no effect that a program can see.
#[verifier::external_body]
fn spin_hint() {
    std::hint::spin_loop();
}

/// The number of hints that are issued at a step.
pub open spec fn hints_at(step: nat) -> nat {
    vstd::arithmetic::power2::pow2(step)
}

/// The step that follows `step`.
pub open spec fn step_after(step: nat) -> nat {
    if step < MAX_LIMIT {
        step + 1
    } else {
        step
    }
}

/// Issues the hints of one step, and says how many there were.
fn spin_for(step: u16) -> (hints: u32)
    requires
        step <= MAX_LIMIT,
    ensures
        hints == hints_at(step as nat),
{
    proof {
        vstd::arithmetic::power2::lemma2_to64();
        vstd::bits::lemma_u32_shl_is_mul(1, step as u32);
        vstd::arithmetic::power2::lemma_pow2_strictly_increases(step as nat, 32);
    }
    let rounds: u32 = 1u32 << step;
    let mut hints: u32 = 0;
    while hints < rounds
        invariant
            hints <= rounds,
        decreases rounds - hints,
    {
        spin_hint();
        hints = hints + 1;
    }
    hints
}

/// A wait that grows with every pause.
pub struct Backoff {
    /// How many pauses there were so far, as far as they are counted.
    pub step: u16,
    pub config: BackoffConfig,
}

impl Backoff {
    /// How many pauses there were so far, as far as they are counted.
    pub open spec fn steps(self) -> nat {
        self.step as nat
    }

    /// The configuration that governs the wait.
    pub open spec fn conf(self) -> BackoffConfig {
        self.config
    }

    pub open spec fn wf(self) -> bool {
        self.step <= MAX_LIMIT
    }

    pub fn new(config: BackoffConfig) -> (backoff: Self)
        ensures
            backoff.wf(),
            backoff.steps() == 0,
            backoff.conf() == config,
    {
        Backoff { step: 0, config }
    }

    /// Spins, twice as long as the pause before. Returns the number of hints
    /// that were issued.
    pub fn spin(&mut self) -> (hints: u32)
        requires
            old(self).wf(),
        ensures
            final(self).wf(),
            final(self).conf() == old(self).conf(),
            final(self).steps() == step_after(old(self).steps()),
            hints == hints_at(old(self).steps()),
    {
        let hints: u32 = spin_for(self.step);
        if self.step < MAX_LIMIT {
            self.step = self.step + 1;
        }
        hints
    }

    /// Spins below the spin limit; from there on, has the caller yield.
    pub fn snooze(&mut self) -> (pause: Pause)
        requires
            old(self).wf(),
        ensures
            final(self).wf(),
            final(self).conf() == old(self).conf(),
            final(self).steps() == step_after(old(self).steps()),
            pause == old(self).next_pause(),
    {
        let pause = if self.step < self.config.spin_limit {
            Pause::Spun(spin_for(self.step))
        } else {
            Pause::Yield
        };
        if self.step < MAX_LIMIT {
            self.step = self.step + 1;
        }
        pause
    }

    /// What the next pause comes to.
    pub open spec fn next_pause(self) -> Pause {
        self.conf().pause_at(self.steps())
    }

    /// Whether the wait has reached its limit.
    pub fn is_completed(&self) -> (completed: bool)
        ensures
            completed == self.completed(),
    {
        self.step >= self.config.limit
    }

    pub open spec fn completed(self) -> bool {
        self.steps() >= self.conf().limit
    }

    pub fn step(&self) -> (step: usize)
        ensures
            step == self.steps(),
    {
        self.step as usize
    }

    /// Starts over.
    pub fn reset(&mut self)
        ensures
            final(self).wf(),
            final(self).conf() == old(self).conf(),
            final(self).steps() == 0,
    {
        self.step = 0;
    }
}

/// The step of a fresh backoff after `pauses` pauses.
pub open spec fn step_after_pauses(pauses: nat) -> nat
    decreases pauses,
{
    if pauses == 0 {
        0
    } else {
        step_after(step_after_pauses((pauses - 1) as nat))
    }
}

/// Packing a configuration and unpacking it gives the configuration back, and
/// every word is the packed form of the configuration it unpacks to.
pub proof fn law_config_round_trip(config: BackoffConfig, word: u32)
    ensures
        BackoffConfig::unpacked(config.packed()) == config,
        BackoffConfig::unpacked(word).packed() == word,
{
    let packed = config.packed();
    assert(packed == config.limit * 65536 + config.spin_limit);
    assert(packed % 65536 == config.spin_limit && packed / 65536 == config.limit);
}

/// A backoff counts its pauses one by one, up to its greatest step, and stays there.
pub proof fn law_step_counts_pauses(pauses: nat)
    ensures
        step_after_pauses(pauses) == (if pauses < MAX_LIMIT {
            pauses
        } else {
            MAX_LIMIT as nat
        }),
    decreases pauses,
{
    if pauses > 0 {
        law_step_counts_pauses((pauses - 1) as nat);
    }
}

/// A wait is completed after as many pauses as its limit says, and not before.
/// With a limit above the greatest step it never is.
pub proof fn law_completed_after_limit(limit: u16, pauses: nat)
    ensures
        step_after_pauses(pauses) >= limit <==> (limit <= MAX_LIMIT && pauses >= limit),
{
    law_step_counts_pauses(pauses);
}

/// A pause below the spin limit is spent spinning, twice as long as the one before and at
/// first for one hint; from there on the thread yields.
pub proof fn law_pauses_double(config: BackoffConfig, step: nat)
    requires
        step < 31,
    ensures
        step >= config.spin_limit ==> config.pause_at(step) == Pause::Yield,
        config.spin_limit > 0 ==> config.pause_at(0) == Pause::Spun(1),
        step + 1 < config.spin_limit ==> config.pause_at(step) is Spun && config.pause_at(
            step + 1,
        ) is Spun && config.pause_at(step + 1)->Spun_0 == 2 * config.pause_at(step)->Spun_0,
        hints_at(0) == 1,
        hints_at(step + 1) == 2 * hints_at(step),
{
    vstd::arithmetic::power2::lemma2_to64();
    vstd::arithmetic::power2::lemma_pow2_unfold(step + 1);
    vstd::arithmetic::power2::lemma_pow2_strictly_increases(step + 1, 32);
    vstd::arithmetic::power2::lemma_pow2_strictly_increases(step, 32);
}

/// A configuration is packed with the limit above the spin limit, and so it is read. The
/// usual one has both at six.
pub proof fn law_packed_halves(config: BackoffConfig, word: u32)
    ensures
        config.packed() == config.limit * 65536 + config.spin_limit,
        word == BackoffConfig::unpacked(word).limit * 65536 + BackoffConfig::unpacked(
            word,
        ).spin_limit,
        BackoffConfig::spec_default().limit == 6,
        BackoffConfig::spec_default().spin_limit == 6,
{
}

} // verus!
