//! Sliding windows of instants.

use std::collections::VecDeque;
use vstd::prelude::*;

verus! {

/// Two readings of the clock at one moment: monotonic, and wall clock since
/// the Unix epoch, both in milliseconds.
#[derive(Debug, Clone, Copy)]
pub struct Moment {
    pub mono_ms: u64,
    pub wall_ms: u64,
}

/// `t` lies more than `span_secs` before `now`.
pub open spec fn is_older(t: u64, now: u64, span_secs: u64) -> bool {
    now - t > span_secs * 1000
}

/// The window without the instants at its front that are too old.
pub open spec fn drop_older(w: Seq<u64>, now: u64, span_secs: u64) -> Seq<u64>
    decreases w.len(),
{
    if w.len() > 0 && is_older(w[0], now, span_secs) {
        drop_older(w.skip(1), now, span_secs)
    } else {
        w
    }
}

/// Instants in the order in which they came.
pub open spec fn in_order(w: Seq<u64>) -> bool {
    forall|i: int, j: int| 0 <= i <= j < w.len() ==> w[i] <= w[j]
}

/// Drops the instants at the front that are too old.
pub fn prune_window(w: &mut VecDeque<u64>, now: u64, span_secs: u64)
    ensures
        final(w)@ == drop_older(old(w)@, now, span_secs),
{
    let span: u128 = (span_secs as u128) * 1000;
    loop
        invariant
            span == span_secs * 1000,
            drop_older(old(w)@, now, span_secs) == drop_older(w@, now, span_secs),
        ensures
            w@ == drop_older(old(w)@, now, span_secs),
        decreases w@.len(),
    {
        if w.len() == 0 {
            break ;
        }
        let front: u64 = w[0];
        if now > front && (now - front) as u128 > span {
            assert(is_older(w@[0], now, span_secs));
            let ghost before = w@;
            let _ = w.pop_front();
            assert(w@ =~= before.skip(1));
        } else {
            break ;
        }
    }
}

/// In a window in order, what is left after pruning are the instants that are
/// not too old, all of them and no others.
pub proof fn law_pruned_window_holds_the_recent(w: Seq<u64>, now: u64, span_secs: u64)
    requires
        in_order(w),
    ensures
        forall|i: int|
            0 <= i < drop_older(w, now, span_secs).len() ==> !is_older(
                #[trigger] drop_older(w, now, span_secs)[i],
                now,
                span_secs,
            ),
        exists|k: int|
            0 <= k <= w.len() && drop_older(w, now, span_secs) == #[trigger] w.skip(k) && forall|
                i: int,
            |
                0 <= i < k ==> is_older(#[trigger] w[i], now, span_secs),
    decreases w.len(),
{
    if w.len() > 0 && is_older(w[0], now, span_secs) {
        let rest = w.skip(1);
        assert forall|i: int, j: int| 0 <= i <= j < rest.len() implies rest[i] <= rest[j] by {
            assert(rest[i] == w[i + 1] && rest[j] == w[j + 1]);
        }
        law_pruned_window_holds_the_recent(rest, now, span_secs);
        let k = choose|k: int|
            0 <= k <= rest.len() && drop_older(rest, now, span_secs) == #[trigger] rest.skip(k)
                && forall|i: int| 0 <= i < k ==> is_older(#[trigger] rest[i], now, span_secs);
        assert(rest.skip(k) =~= w.skip(k + 1));
        assert forall|i: int| 0 <= i < k + 1 implies is_older(#[trigger] w[i], now, span_secs) by {
            if i > 0 {
                assert(w[i] == rest[i - 1]);
            }
        }
    } else {
        assert(w.skip(0) =~= w);
        assert forall|i: int| 0 <= i < w.len() implies !is_older(#[trigger] w[i], now, span_secs) by {
            assert(w[0] <= w[i]);
        }
    }
}

} // verus!
