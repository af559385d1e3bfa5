//! The timing rule of the text caret.

use std::time::Instant;

use vstd::prelude::*;

use crate::clock::elapsed_millis;

verus! {

/// The caret blinks in phases of this many milliseconds, on first.
pub const CARET_PHASE_MS: u128 = 450;

/// Whether the caret is drawn `ms` milliseconds after it was last reset: during even
/// phases it is, during odd ones it is not.
pub open spec fn spec_caret_on(ms: u128) -> bool {
    (ms / 450) % 2 == 0
}

/// Whether the caret is drawn `ms` milliseconds after it was last reset.
pub fn caret_on_after(ms: u128) -> (r: bool)
    ensures
        r == spec_caret_on(ms),
{
    (ms / CARET_PHASE_MS) % 2 == 0
}

/// Whether the caret reset at `since` is drawn now.
/// The time elapsed is read from the clock, so the result is `spec_caret_on` of a value that
/// no contract can name.
pub fn caret_blinking(since: Instant) -> bool {
    let ms = elapsed_millis(&since);
    caret_on_after(ms)
}

/// The caret alternates in 450 ms phases, starting visible: for every `k`, it is shown from
/// `900k` ms up to `900k + 450` ms and hidden from there up to `900(k + 1)` ms.
pub proof fn lemma_caret_phases(k: nat, off: nat)
    requires
        off < 900,
        900 * k + off <= u128::MAX,
    ensures
        spec_caret_on((900 * k + off) as u128) == (off < 450),
{
    let ms = 900 * k + off;
    if off < 450 {
        assert(ms / 450 == 2 * k) by (nonlinear_arith)
            requires
                ms == 900 * k + off,
                off < 450,
        ;
    } else {
        assert(ms / 450 == 2 * k + 1) by (nonlinear_arith)
            requires
                ms == 900 * k + off,
                450 <= off < 900,
        ;
    }
}

} // verus!
