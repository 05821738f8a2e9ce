//! Retrying transport failures with exponential backoff.

use vstd::arithmetic::power2::pow2;
use vstd::prelude::*;

verus! {

/// How transport failures are retried.
#[derive(Debug, Clone, Copy, PartialEq, Eq, Structural)]
pub struct RetryConfig {
    /// How often a send is tried in all.
    pub max_attempts: u32,
    /// The wait after the first failure, in milliseconds.
    pub base_delay_ms: u64,
    /// The longest wait, in milliseconds.
    pub max_delay_ms: u64,
    /// Whether waits are varied at random, so that those who failed together do not
    /// try again together.
    pub jitter: bool,
}

impl Default for RetryConfig {
    fn default() -> (res: RetryConfig)
        ensures
            res == (RetryConfig {
                max_attempts: 5,
                base_delay_ms: 500,
                max_delay_ms: 30_000,
                jitter: true,
            }),
    {
        RetryConfig { max_attempts: 5, base_delay_ms: 500, max_delay_ms: 30_000, jitter: true }
    }
}

/// The wait after the given number of failures: doubled each time, up to the
/// longest wait.
pub open spec fn backoff(base: u64, longest: u64, failures: nat) -> u64
    decreases failures,
{
    if failures <= 1 {
        if base < longest {
            base
        } else {
            longest
        }
    } else {
        let before = backoff(base, longest, (failures - 1) as nat);
        if 2 * before < longest {
            (2 * before) as u64
        } else {
            longest
        }
    }
}

/// A wait as it is varied by a number drawn at random: some time between half of
/// the wait and all of it, or the wait itself where waits are not varied.
pub open spec fn varied(delay: u64, jitter: bool, drawn: u64) -> u64 {
    if jitter {
        (delay / 2 + drawn as int % (delay - delay / 2 + 1)) as u64
    } else {
        delay
    }
}

/// The wait before the next attempt after the given number of failures, with a
/// number drawn at random.
pub open spec fn wait_after(config: RetryConfig, failures: nat, drawn: u64) -> u64 {
    varied(
        backoff(config.base_delay_ms, config.max_delay_ms, failures),
        config.jitter,
        drawn,
    )
}

/// Varies a wait by a number drawn at random, where waits are varied.
fn vary(delay: u64, jitter: bool, drawn: u64) -> (res: u64)
    ensures
        res == varied(delay, jitter, drawn),
{
    if jitter {
        let half: u64 = delay / 2;
        let span: u128 = (delay - half) as u128 + 1;
        half + (drawn as u128 % span) as u64
    } else {
        delay
    }
}

/// Whether to try again after the given number of failures, and after which
/// wait; `drawn` is a number drawn at random. `None` means that all attempts are
/// used up.
pub fn next_delay(config: &RetryConfig, failures: u32, drawn: u64) -> (res: Option<u64>)
    requires
        failures >= 1,
    ensures
        res is Some <==> failures < config.max_attempts,
        res is Some ==> res->0 == wait_after(*config, failures as nat, drawn),
{
    if failures >= config.max_attempts {
        return None;
    }
    let longest: u64 = config.max_delay_ms;
    let mut delay: u64 = if config.base_delay_ms < longest {
        config.base_delay_ms
    } else {
        longest
    };
    let mut n: u32 = 1;
    while n < failures && delay < longest && delay > 0
        invariant
            1 <= n <= failures,
            longest == config.max_delay_ms,
            delay <= longest,
            delay == backoff(config.base_delay_ms, longest, n as nat),
        decreases failures - n,
    {
        n = n + 1;
        delay = if delay < longest - delay {
            delay + delay
        } else {
            longest
        };
    }
    proof {
        if n < failures {
            backoff_is_settled(config.base_delay_ms, longest, n as nat, failures as nat);
        }
    }
    Some(vary(delay, config.jitter, drawn))
}

proof fn backoff_is_settled(base: u64, longest: u64, n: nat, m: nat)
    requires
        1 <= n <= m,
        backoff(base, longest, n) == longest || (backoff(base, longest, n) == 0 && longest > 0),
    ensures
        backoff(base, longest, m) == backoff(base, longest, n),
    decreases m,
{
    if n < m {
        backoff_is_settled(base, longest, n, (m - 1) as nat);
    }
}

/// A varied wait is at least half of the wait and at most all of it, whatever was
/// drawn; a wait that is not varied is the wait itself.
pub proof fn varied_waits_stay_close(delay: u64, drawn: u64)
    ensures
        delay / 2 <= varied(delay, true, drawn) <= delay,
        varied(delay, false, drawn) == delay,
{
}

/// Waits never exceed the longest one and, before they are varied, never grow
/// shorter.
pub proof fn backoff_grows(base: u64, longest: u64, failures: nat)
    requires
        failures >= 1,
    ensures
        backoff(base, longest, failures) <= longest,
        backoff(base, longest, failures) <= backoff(base, longest, failures + 1),
    decreases failures,
{
    if failures > 1 {
        backoff_grows(base, longest, (failures - 1) as nat);
    }
}

/// Waits double: the wait after any number of failures is the first one, doubled as
/// often as there were failures before the last, or the longest one where that is
/// shorter.
pub proof fn waits_double(base: u64, longest: u64, failures: nat)
    requires
        failures >= 1,
    ensures
        base * pow2((failures - 1) as nat) <= longest ==> backoff(base, longest, failures) == base
            * pow2((failures - 1) as nat),
        base * pow2((failures - 1) as nat) > longest ==> backoff(base, longest, failures)
            == longest,
    decreases failures,
{
    vstd::arithmetic::power2::lemma_pow2_pos((failures - 1) as nat);
    if failures == 1 {
        vstd::arithmetic::power2::lemma2_to64();
        assert(pow2(0) == 1);
        assert(base * 1 == base);
    } else {
        let k = (failures - 2) as nat;
        waits_double(base, longest, (failures - 1) as nat);
        vstd::arithmetic::power2::lemma_pow2_unfold((failures - 1) as nat);
        assert(base * pow2((failures - 1) as nat) == 2 * (base * pow2(k))) by (nonlinear_arith)
            requires
                pow2((failures - 1) as nat) == 2 * pow2(k),
        ;
    }
}

/// Another attempt follows exactly as long as fewer attempts were made than allowed,
/// and no wait is longer than the longest.
pub proof fn no_wait_is_too_long(config: RetryConfig, failures: nat, drawn: u64)
    requires
        failures >= 1,
    ensures
        wait_after(config, failures, drawn) <= config.max_delay_ms,
        !config.jitter ==> wait_after(config, failures, drawn) == backoff(
            config.base_delay_ms,
            config.max_delay_ms,
            failures,
        ),
{
    backoff_grows(config.base_delay_ms, config.max_delay_ms, failures);
    varied_waits_stay_close(
        backoff(config.base_delay_ms, config.max_delay_ms, failures),
        drawn,
    );
}

} // verus!
