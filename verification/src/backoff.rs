//! The delays between two receive attempts.
use vstd::prelude::*;

verus! {

/// The delay after a first recoverable error, in milliseconds.
pub const UDP_RECV_INITIAL_BACKOFF: u64 = 10;

/// The longest delay, in milliseconds.
pub const UDP_RECV_MAX_BACKOFF: u64 = 1000;

/// The delay that follows `delay`: twice as long, but never more than the longest.
pub open spec fn following(delay: u64) -> u64 {
    if 2 * delay <= UDP_RECV_MAX_BACKOFF {
        (2 * delay) as u64
    } else {
        UDP_RECV_MAX_BACKOFF
    }
}

/// The delay after `n` recoverable errors in a row have been waited for.
pub open spec fn nth_delay(n: nat) -> u64
    decreases n,
{
    if n == 0 {
        UDP_RECV_INITIAL_BACKOFF
    } else {
        following(nth_delay((n - 1) as nat))
    }
}

/// The first delay doubled `n` times, capped at the longest.
pub open spec fn capped_doubling(n: nat) -> int {
    let doubled = UDP_RECV_INITIAL_BACKOFF * vstd::arithmetic::power2::pow2(n);
    if doubled <= UDP_RECV_MAX_BACKOFF {
        doubled
    } else {
        UDP_RECV_MAX_BACKOFF as int
    }
}

/// The delay is one that a run can reach at all: neither shorter than the first nor longer than the
/// longest.
pub open spec fn in_bounds(delay: u64) -> bool {
    UDP_RECV_INITIAL_BACKOFF <= delay <= UDP_RECV_MAX_BACKOFF
}

/// The delay that follows `delay`.
pub fn next_backoff(delay: u64) -> (next: u64)
    ensures
        next == following(delay),
        delay <= 500 ==> next == 2 * delay,
        delay > 500 ==> next == 1000,
{
    if delay <= UDP_RECV_MAX_BACKOFF / 2 {
        2 * delay
    } else {
        UDP_RECV_MAX_BACKOFF
    }
}

/// After `n` recoverable errors in a row the delay is the first one doubled `n` times, capped at the
/// longest.
pub proof fn law_delay_doubles_up_to_the_cap(n: nat)
    ensures
        nth_delay(n) == capped_doubling(n),
        10 * vstd::arithmetic::power2::pow2(n) <= 1000 ==> nth_delay(n) == 10
            * vstd::arithmetic::power2::pow2(n),
        10 * vstd::arithmetic::power2::pow2(n) > 1000 ==> nth_delay(n) == 1000,
    decreases n,
{
    vstd::arithmetic::power2::lemma2_to64();
    if n > 0 {
        law_delay_doubles_up_to_the_cap((n - 1) as nat);
        vstd::arithmetic::power2::lemma_pow2_unfold(n);
    }
}

/// A delay within bounds is followed by one within bounds that is longer, or by the longest one.
pub proof fn law_delay_grows_within_bounds(delay: u64)
    requires
        in_bounds(delay),
    ensures
        in_bounds(following(delay)),
        following(delay) > delay || following(delay) == UDP_RECV_MAX_BACKOFF,
{
}

/// The first delay is 10 milliseconds and none is longer than a second. Up to half a second a delay
/// is followed by one twice as long, and a longer one by a second.
pub proof fn law_delay_is_doubled_or_a_second(delay: u64)
    ensures
        nth_delay(0) == 10,
        delay <= 500 ==> following(delay) == delay + delay,
        delay > 500 ==> following(delay) == 1000,
{
}

/// Delays in a row never get shorter.
pub proof fn law_delays_never_decrease(m: nat, n: nat)
    requires
        m <= n,
    ensures
        nth_delay(m) <= nth_delay(n),
    decreases n - m,
{
    if m < n {
        law_delays_never_decrease(m, (n - 1) as nat);
        law_delay_reaches_the_cap((n - 1) as nat);
    }
}

/// Every delay of a run of recoverable errors is within bounds, and from the eighth on it is the
/// longest one.
pub proof fn law_delay_reaches_the_cap(n: nat)
    ensures
        in_bounds(nth_delay(n)),
        n >= 7 ==> nth_delay(n) == UDP_RECV_MAX_BACKOFF,
    decreases n,
{
    if n > 0 {
        law_delay_reaches_the_cap((n - 1) as nat);
        if n == 7 {
            reveal_with_fuel(nth_delay, 8);
        }
    }
}

} // verus!
