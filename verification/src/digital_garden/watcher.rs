//! When the notes directory is re-scanned after changes on disk: at most
//! once per debounce window, and only when something changed.
use vstd::prelude::*;

verus! {

/// Default minimum interval between re-scans, in milliseconds; keeps a
/// burst of "file saved" events from turning into a storm of rebuilds.
pub const DEFAULT_DEBOUNCE_MS: u64 = 300;

/// The re-scan decision of the directory watcher. Times are nanoseconds
/// on a monotonic clock.
pub struct ReloadGate {
    /// When the last re-scan was allowed.
    pub last_reload: Option<u128>,
    /// Minimum interval between re-scans, in milliseconds.
    pub debounce_ms: u64,
}

/// Nanoseconds from `last` to `now`, zero when `now` is earlier.
pub open spec fn elapsed(last: u128, now: u128) -> int {
    if now >= last {
        now - last
    } else {
        0
    }
}

/// Whether a re-scan may happen at `now` when `any` change arrived.
pub open spec fn ready(g: ReloadGate, any: bool, now: u128) -> bool {
    any && match g.last_reload {
        None => true,
        Some(last) => elapsed(last, now) >= g.debounce_ms * 1_000_000,
    }
}

impl ReloadGate {
    /// A gate that has not allowed any re-scan yet.
    pub fn new(debounce_ms: u64) -> (g: Self)
        ensures
            g.last_reload is None,
            g.debounce_ms == debounce_ms,
    {
        ReloadGate { last_reload: None, debounce_ms }
    }

    /// Adjusts the debounce window.
    pub fn set_debounce_ms(&mut self, ms: u64)
        ensures
            final(self).debounce_ms == ms,
            final(self).last_reload == old(self).last_reload,
    {
        self.debounce_ms = ms;
    }

    /// Whether to re-scan now: some change arrived (`any`) and the
    /// debounce window has passed since the last re-scan. A re-scan is
    /// recorded at `now`.
    pub fn consume_if_ready(&mut self, any: bool, now: u128) -> (r: bool)
        ensures
            r == ready(*old(self), any, now),
            r ==> final(self).last_reload == Some(now),
            !r ==> final(self).last_reload == old(self).last_reload,
            final(self).debounce_ms == old(self).debounce_ms,
    {
        if !any {
            return false;
        }
        match self.last_reload {
            Some(last) => {
                let gap: u128 = if now >= last {
                    now - last
                } else {
                    0
                };
                let window: u128 = self.debounce_ms as u128 * 1_000_000;
                if gap < window {
                    return false;
                }
            },
            None => {},
        }
        self.last_reload = Some(now);
        true
    }
}

/// Debounce: once a re-scan was allowed at `t`, none is allowed at a time
/// less than the debounce window after `t`, whatever changes arrive.
pub proof fn law_no_rescan_within_window(g: ReloadGate, any: bool, t: u128, now: u128)
    requires
        g.last_reload == Some(t),
        t <= now,
        now - t < g.debounce_ms * 1_000_000,
    ensures
        !ready(g, any, now),
{
}

/// Nothing changed, nothing to do: without a change no re-scan happens.
pub proof fn law_no_rescan_without_change(g: ReloadGate, now: u128)
    ensures
        !ready(g, false, now),
{
}

} // verus!
