//! The notification manager: identity allocation, per-anchor grouping, the
//! overflow/eviction policy, frame ticking and pruning.
//!
//! The manager owns every animation state, in insertion order. An anchor's
//! sequence is the insertion-ordered subsequence of live states whose
//! notification targets that anchor, so an identity belongs to exactly one
//! anchor's sequence at any time.

use crate::state::stepped;
use crate::state::NotificationState;
use crate::types::Anchor;
use crate::types::AnimationPhase;
use crate::types::ManagerDefaults;
use crate::types::Notification;
use crate::types::NotificationError;
use crate::types::Overflow;
use vstd::prelude::*;

verus! {

/// Whether some live state carries the identity `id`.
pub open spec fn contains_id(s: Seq<NotificationState>, id: u64) -> bool {
    exists|i: int| 0 <= i < s.len() && (#[trigger] s[i]).id == id
}

/// Every state is well formed ([`NotificationState::inv`]).
pub open spec fn all_wf(s: Seq<NotificationState>) -> bool {
    forall|i: int| 0 <= i < s.len() ==> (#[trigger] s[i]).inv()
}

/// No two live states share an identity.
pub open spec fn distinct_ids(s: Seq<NotificationState>) -> bool {
    forall|i: int, j: int|
        0 <= i < j < s.len() ==> (#[trigger] s[i]).id != (#[trigger] s[j]).id
}

/// Creation stamps never decrease along insertion order.
pub open spec fn stamps_ordered(s: Seq<NotificationState>) -> bool {
    forall|i: int, j: int|
        0 <= i < j < s.len() ==> (#[trigger] s[i]).created_at <= (#[trigger] s[j]).created_at
}

/// Some live state is not yet in the terminal phase.
pub open spec fn any_active(s: Seq<NotificationState>) -> bool {
    exists|i: int|
        0 <= i < s.len() && (#[trigger] s[i]).current_phase != AnimationPhase::Finished
}

/// The identities at anchor `a`, in insertion order.
pub open spec fn ids_at(s: Seq<NotificationState>, a: Anchor) -> Seq<u64>
    decreases s.len(),
{
    if s.len() == 0 {
        Seq::<u64>::empty()
    } else {
        let rest = ids_at(s.drop_last(), a);
        if s.last().notification.anchor == a {
            rest.push(s.last().id)
        } else {
            rest
        }
    }
}

/// How many live states sit at anchor `a`.
pub open spec fn count_at(s: Seq<NotificationState>, a: Anchor) -> int {
    ids_at(s, a).len() as int
}

/// The states one tick of `delta` milliseconds later, with every state that
/// reached the terminal phase pruned; the survivors keep insertion order.
pub open spec fn ticked(s: Seq<NotificationState>, delta: u64) -> Seq<NotificationState>
    decreases s.len(),
{
    if s.len() == 0 {
        s
    } else {
        let rest = ticked(s.drop_last(), delta);
        let st = stepped(s.last(), delta);
        if st.current_phase == AnimationPhase::Finished {
            rest
        } else {
            rest.push(st)
        }
    }
}

/// Index of the first state at or after `from` whose notification targets
/// anchor `a`; `s.len()` when there is none.
pub open spec fn first_at_from(s: Seq<NotificationState>, a: Anchor, from: int) -> int
    decreases s.len() - from,
{
    if from < 0 || from >= s.len() {
        s.len() as int
    } else if s[from].notification.anchor == a {
        from
    } else {
        first_at_from(s, a, from + 1)
    }
}

/// Index of the first (oldest) state at anchor `a`; `s.len()` when there is
/// none.
pub open spec fn first_at(s: Seq<NotificationState>, a: Anchor) -> int {
    first_at_from(s, a, 0)
}

/// Index of the last (newest) state at anchor `a`; `-1` when there is none.
pub open spec fn last_at(s: Seq<NotificationState>, a: Anchor) -> int
    decreases s.len(),
{
    if s.len() == 0 {
        -1
    } else if s.last().notification.anchor == a {
        s.len() - 1
    } else {
        last_at(s.drop_last(), a)
    }
}

/// The index the overflow policy evicts at anchor `a`: the oldest entry
/// under discard-oldest, the newest under discard-newest.
pub open spec fn evict_index(s: Seq<NotificationState>, a: Anchor, policy: Overflow) -> int {
    match policy {
        Overflow::DiscardOldest => first_at(s, a),
        Overflow::DiscardNewest => last_at(s, a),
    }
}

/// The states after overflow enforcement for an insertion at anchor `a`:
/// unchanged when no cap is configured, when the anchor is still below the
/// cap, or when nothing at the anchor could be evicted; otherwise the entry
/// the policy selects is removed.
pub open spec fn after_enforce(
    s: Seq<NotificationState>,
    a: Anchor,
    cap: Option<usize>,
    policy: Overflow,
) -> Seq<NotificationState> {
    match cap {
        None => s,
        Some(c) => if count_at(s, a) >= c && count_at(s, a) > 0 {
            s.remove(evict_index(s, a, policy))
        } else {
            s
        },
    }
}

/// The animation state `add` creates: identity and stamp as allocated, the
/// configured timings, and the initial phase with leading zero-duration
/// phases already skipped.
pub open spec fn new_entry(
    defaults: ManagerDefaults,
    id: u64,
    stamp: u64,
    n: Notification,
) -> NotificationState {
    let p = crate::state::spec_phase_after(AnimationPhase::Appearing, 0, defaults, 0);
    NotificationState {
        id,
        notification: n,
        current_phase: p.0,
        elapsed_in_phase: p.1,
        created_at: stamp,
        timing: defaults,
    }
}

/// `first_at_from` finds exactly the first at-anchor index at or after
/// `from`.
pub proof fn lemma_first_at_from(s: Seq<NotificationState>, a: Anchor, from: int)
    requires
        0 <= from <= s.len(),
    ensures
        from <= first_at_from(s, a, from) <= s.len(),
        first_at_from(s, a, from) < s.len() ==> s[first_at_from(s, a, from)].notification.anchor
            == a,
        forall|j: int|
            from <= j < first_at_from(s, a, from) ==> (#[trigger] s[j]).notification.anchor != a,
    decreases s.len() - from,
{
    if from < s.len() && s[from].notification.anchor != a {
        lemma_first_at_from(s, a, from + 1);
    }
}

/// `last_at` finds exactly the last at-anchor index.
pub proof fn lemma_last_at(s: Seq<NotificationState>, a: Anchor)
    ensures
        -1 <= last_at(s, a) < s.len(),
        last_at(s, a) >= 0 ==> s[last_at(s, a)].notification.anchor == a,
        forall|j: int| last_at(s, a) < j < s.len() ==> (#[trigger] s[j]).notification.anchor != a,
    decreases s.len(),
{
    if s.len() > 0 && s.last().notification.anchor != a {
        let pre = s.drop_last();
        lemma_last_at(pre, a);
        assert(forall|i: int| 0 <= i < pre.len() ==> pre[i] == s[i]);
    }
}

/// An anchor has a positive count exactly when some live state sits there.
pub proof fn lemma_count_at_pos(s: Seq<NotificationState>, a: Anchor)
    ensures
        (count_at(s, a) > 0) <==> exists|i: int|
            0 <= i < s.len() && (#[trigger] s[i]).notification.anchor == a,
    decreases s.len(),
{
    if s.len() > 0 {
        let pre = s.drop_last();
        lemma_count_at_pos(pre, a);
        assert(forall|i: int| 0 <= i < pre.len() ==> pre[i] == s[i]);
        if s.last().notification.anchor == a {
            assert(s[s.len() - 1].notification.anchor == a);
        } else {
            if exists|i: int| 0 <= i < pre.len() && (#[trigger] pre[i]).notification.anchor == a {
                let i = choose|i: int|
                    0 <= i < pre.len() && (#[trigger] pre[i]).notification.anchor == a;
                assert(s[i].notification.anchor == a);
            }
            if exists|i: int| 0 <= i < s.len() && (#[trigger] s[i]).notification.anchor == a {
                let i = choose|i: int|
                    0 <= i < s.len() && (#[trigger] s[i]).notification.anchor == a;
                assert(i < pre.len());
                assert(pre[i].notification.anchor == a);
            }
        }
    }
}

/// Shape of one tick over the whole set: every survivor is one tick of some
/// original state (so identities and stamps are inherited), no survivor is
/// terminal, every survivor is well formed, and identity uniqueness and
/// stamp ordering carry over.
pub proof fn lemma_ticked_wf(s: Seq<NotificationState>, delta: u64, bound: u64)
    requires
        distinct_ids(s),
        stamps_ordered(s),
        forall|i: int| 0 <= i < s.len() ==> (#[trigger] s[i]).created_at <= bound,
    ensures
        ticked(s, delta).len() <= s.len(),
        forall|j: int|
            0 <= j < ticked(s, delta).len() ==> exists|i: int|
                0 <= i < s.len() && #[trigger] ticked(s, delta)[j] == stepped(s[i], delta),
        all_wf(ticked(s, delta)),
        distinct_ids(ticked(s, delta)),
        stamps_ordered(ticked(s, delta)),
        forall|j: int|
            0 <= j < ticked(s, delta).len() ==> (#[trigger] ticked(s, delta)[j]).created_at
                <= bound,
        forall|j: int|
            0 <= j < ticked(s, delta).len() ==> (#[trigger] ticked(s, delta)[j]).current_phase
                != AnimationPhase::Finished,
        forall|x: u64| contains_id(ticked(s, delta), x) ==> contains_id(s, x),
    decreases s.len(),
{
    let r = ticked(s, delta);
    if s.len() == 0 {
    } else {
        let pre = s.drop_last();
        assert(forall|i: int| 0 <= i < pre.len() ==> pre[i] == s[i]);
        lemma_ticked_wf(pre, delta, bound);
        let rest = ticked(pre, delta);
        let stl = stepped(s.last(), delta);
        crate::state::lemma_phase_after_wf(
            s.last().current_phase,
            s.last().elapsed_in_phase,
            s.last().timing,
            delta,
        );
        assert(s.last() == s[s.len() - 1]);
        // Sources for every element of the result.
        assert forall|j: int| 0 <= j < r.len() implies exists|i: int|
            0 <= i < s.len() && #[trigger] r[j] == stepped(s[i], delta) by {
            if j < rest.len() {
                let i = choose|i: int| 0 <= i < pre.len() && rest[j] == stepped(pre[i], delta);
                assert(r[j] == stepped(s[i], delta));
            } else {
                assert(r[j] == stepped(s[s.len() - 1], delta));
            }
        }
        // Well-formedness of each survivor.
        assert forall|j: int| 0 <= j < r.len() implies (#[trigger] r[j]).inv() by {
            let i = choose|i: int| 0 <= i < s.len() && r[j] == stepped(s[i], delta);
            crate::state::lemma_phase_after_wf(
                s[i].current_phase,
                s[i].elapsed_in_phase,
                s[i].timing,
                delta,
            );
        }
        // Uniqueness and stamp ordering via the sources.
        assert forall|j: int, k: int| 0 <= j < k < r.len() implies (#[trigger] r[j]).id != (
        #[trigger] r[k]).id && r[j].created_at <= r[k].created_at by {
            if k < rest.len() {
            } else {
                let i = choose|i: int| 0 <= i < pre.len() && rest[j] == stepped(pre[i], delta);
                assert(r[j] == stepped(s[i], delta));
                assert(r[k] == stepped(s[s.len() - 1], delta));
                assert(s[i].id != s[s.len() - 1].id);
                assert(s[i].created_at <= s[s.len() - 1].created_at);
            }
        }
        assert forall|j: int| 0 <= j < r.len() implies (#[trigger] r[j]).created_at <= bound by {
            let i = choose|i: int| 0 <= i < s.len() && r[j] == stepped(s[i], delta);
        }
        assert forall|x: u64| contains_id(r, x) implies contains_id(s, x) by {
            let j = choose|j: int| 0 <= j < r.len() && (#[trigger] r[j]).id == x;
            let i = choose|i: int| 0 <= i < s.len() && r[j] == stepped(s[i], delta);
            assert(s[i].id == x);
        }
    }
}

/// Manager for animated notifications.
///
/// Drive it from a render loop: `add` notifications, call `tick` once per
/// frame with the elapsed milliseconds, then read the live states back out,
/// grouped by anchor, for drawing.
#[derive(Debug)]
pub struct Notifications {
    /// Live animation states, in insertion order.
    states: Vec<NotificationState>,
    /// Next identity to hand out; wraps to zero on overflow.
    next_id: u64,
    /// Next creation stamp; stands for the monotonic clock reading taken at
    /// insertion, which is used only for oldest/newest comparisons.
    next_stamp: u64,
    /// Timing values copied into every new animation state.
    defaults: ManagerDefaults,
    /// Maximum concurrent notifications per anchor (`None` = unlimited).
    max_concurrent: Option<usize>,
    /// What to evict when `max_concurrent` is reached.
    overflow: Overflow,
}

impl Notifications {
    /// The live states, in insertion order.
    pub closed spec fn states_seq(self) -> Seq<NotificationState> {
        self.states@
    }

    /// The identity the next `add` will return.
    pub closed spec fn spec_next_id(self) -> u64 {
        self.next_id
    }

    /// The creation stamp the next `add` will record.
    pub closed spec fn spec_next_stamp(self) -> u64 {
        self.next_stamp
    }

    /// The configured timing defaults.
    pub closed spec fn spec_defaults(self) -> ManagerDefaults {
        self.defaults
    }

    /// The configured per-anchor cap.
    pub closed spec fn spec_max(self) -> Option<usize> {
        self.max_concurrent
    }

    /// The configured overflow policy.
    pub closed spec fn spec_overflow(self) -> Overflow {
        self.overflow
    }

    /// Manager well-formedness: every state is well formed, identities are
    /// unique, and creation stamps respect insertion order and stay below
    /// the stamp the next insertion will use.
    pub open spec fn wf(self) -> bool {
        &&& all_wf(self.states_seq())
        &&& distinct_ids(self.states_seq())
        &&& stamps_ordered(self.states_seq())
        &&& forall|i: int|
            0 <= i < self.states_seq().len() ==> (#[trigger] self.states_seq()[i]).created_at
                <= self.spec_next_stamp()
    }

    /// Creates a manager with no live notifications, no per-anchor cap,
    /// discard-oldest overflow, and the standard timings.
    pub fn new() -> (r: Self)
        ensures
            r.wf(),
            r.states_seq() == Seq::<NotificationState>::empty(),
            r.spec_next_id() == 0,
            r.spec_next_stamp() == 0,
            r.spec_max() == None::<usize>,
            r.spec_overflow() == Overflow::DiscardOldest,
            r.spec_defaults() == crate::types::spec_standard_defaults(),
    {
        Notifications {
            states: Vec::new(),
            next_id: 0,
            next_stamp: 0,
            defaults: ManagerDefaults::default(),
            max_concurrent: None,
            overflow: Overflow::default(),
        }
    }

    /// Sets the maximum number of concurrent notifications per anchor
    /// (`None` = unlimited); chainable, to be used before the manager is
    /// driven.
    pub fn max_concurrent(self, max: Option<usize>) -> (r: Self)
        ensures
            r.spec_max() == max,
            r.states_seq() == self.states_seq(),
            r.spec_next_id() == self.spec_next_id(),
            r.spec_next_stamp() == self.spec_next_stamp(),
            r.spec_defaults() == self.spec_defaults(),
            r.spec_overflow() == self.spec_overflow(),
            self.wf() ==> r.wf(),
    {
        Notifications { max_concurrent: max, ..self }
    }

    /// Sets the overflow behavior applied when the cap is reached;
    /// chainable, to be used before the manager is driven.
    pub fn overflow(self, behavior: Overflow) -> (r: Self)
        ensures
            r.spec_overflow() == behavior,
            r.states_seq() == self.states_seq(),
            r.spec_next_id() == self.spec_next_id(),
            r.spec_next_stamp() == self.spec_next_stamp(),
            r.spec_defaults() == self.spec_defaults(),
            r.spec_max() == self.spec_max(),
            self.wf() ==> r.wf(),
    {
        Notifications { overflow: behavior, ..self }
    }

    /// Sets the per-phase durations copied into every new animation state;
    /// chainable, to be used before the manager is driven.
    pub fn defaults(self, defaults: ManagerDefaults) -> (r: Self)
        ensures
            r.spec_defaults() == defaults,
            r.states_seq() == self.states_seq(),
            r.spec_next_id() == self.spec_next_id(),
            r.spec_next_stamp() == self.spec_next_stamp(),
            r.spec_max() == self.spec_max(),
            r.spec_overflow() == self.spec_overflow(),
            self.wf() ==> r.wf(),
    {
        Notifications { defaults, ..self }
    }

    /// Whether anything still needs rendering: true exactly when some live
    /// state has not reached the terminal phase. Lets a host loop drop its
    /// frame rate while idle.
    pub fn has_notification(&self) -> (r: bool)
        ensures
            r == any_active(self.states_seq()),
    {
        let mut i: usize = 0;
        while i < self.states.len()
            invariant
                0 <= i <= self.states@.len(),
                forall|j: int|
                    0 <= j < i ==> (#[trigger] self.states@[j]).current_phase
                        == AnimationPhase::Finished,
            decreases self.states@.len() - i,
        {
            if self.states[i].current_phase != AnimationPhase::Finished {
                return true;
            }
            i = i + 1;
        }
        false
    }

    /// The configured maximum number of concurrent notifications per anchor,
    /// handed to a renderer together with the anchor grouping.
    pub fn concurrency_cap(&self) -> (r: Option<usize>)
        ensures
            r == self.spec_max(),
    {
        self.max_concurrent
    }

    /// Number of live notifications, over all anchors.
    pub fn live_count(&self) -> (r: usize)
        ensures
            r == self.states_seq().len(),
    {
        self.states.len()
    }

    /// Removes all notifications; a no-op if none are live.
    pub fn clear(&mut self)
        ensures
            final(self).wf(),
            final(self).states_seq() == Seq::<NotificationState>::empty(),
            final(self).spec_next_id() == old(self).spec_next_id(),
            final(self).spec_next_stamp() == old(self).spec_next_stamp(),
            final(self).spec_defaults() == old(self).spec_defaults(),
            final(self).spec_max() == old(self).spec_max(),
            final(self).spec_overflow() == old(self).spec_overflow(),
    {
        self.states.clear();
    }

    /// Removes the notification with identity `id`, reporting whether it
    /// existed. Idempotent: removing an absent identity is a no-op that
    /// returns false, never an error.
    pub fn remove(&mut self, id: u64) -> (r: bool)
        requires
            old(self).wf(),
        ensures
            final(self).wf(),
            r == contains_id(old(self).states_seq(), id),
            !contains_id(final(self).states_seq(), id),
            !r ==> final(self).states_seq() == old(self).states_seq(),
            r ==> exists|i: int|
                0 <= i < old(self).states_seq().len()
                    && (#[trigger] old(self).states_seq()[i]).id == id
                    && final(self).states_seq() == old(self).states_seq().remove(i),
            final(self).spec_next_id() == old(self).spec_next_id(),
            final(self).spec_next_stamp() == old(self).spec_next_stamp(),
            final(self).spec_defaults() == old(self).spec_defaults(),
            final(self).spec_max() == old(self).spec_max(),
            final(self).spec_overflow() == old(self).spec_overflow(),
    {
        let ghost s0 = self.states@;
        let mut i: usize = 0;
        while i < self.states.len()
            invariant
                old(self).wf(),
                *self == *old(self),
                s0 == self.states@,
                0 <= i <= s0.len(),
                forall|j: int| 0 <= j < i ==> (#[trigger] s0[j]).id != id,
            decreases s0.len() - i,
        {
            if self.states[i].id == id {
                self.states.remove(i);
                proof {
                    let i0 = i as int;
                    s0.remove_ensures(i0);
                    let s1 = s0.remove(i0);
                    assert(self.states@ == s1);
                    assert forall|j: int| 0 <= j < s1.len() implies (#[trigger] s1[j]).id
                        != id by {
                        if j < i0 {
                            assert(s1[j] == s0[j]);
                        } else {
                            assert(s1[j] == s0[j + 1]);
                        }
                    }
                    assert forall|j: int| 0 <= j < s1.len() implies (#[trigger] s1[j]).inv() by {
                        if j < i0 {
                            assert(s1[j] == s0[j]);
                        } else {
                            assert(s1[j] == s0[j + 1]);
                        }
                    }
                    assert forall|j: int| 0 <= j < s1.len() implies (#[trigger] s1[j]).created_at
                        <= self.next_stamp by {
                        if j < i0 {
                            assert(s1[j] == s0[j]);
                        } else {
                            assert(s1[j] == s0[j + 1]);
                        }
                    }
                    assert forall|j: int, k: int| 0 <= j < k < s1.len() implies (#[trigger] s1[j]).id != (#[trigger] s1[k]).id by {
                        if k < i0 {
                            assert(s1[j] == s0[j] && s1[k] == s0[k]);
                        } else if j < i0 {
                            assert(s1[j] == s0[j] && s1[k] == s0[k + 1]);
                        } else {
                            assert(s1[j] == s0[j + 1] && s1[k] == s0[k + 1]);
                        }
                    }
                    assert forall|j: int, k: int| 0 <= j < k < s1.len() implies (#[trigger] s1[j]).created_at <= (#[trigger] s1[k]).created_at by {
                        if k < i0 {
                            assert(s1[j] == s0[j] && s1[k] == s0[k]);
                        } else if j < i0 {
                            assert(s1[j] == s0[j] && s1[k] == s0[k + 1]);
                        } else {
                            assert(s1[j] == s0[j + 1] && s1[k] == s0[k + 1]);
                        }
                    }
                }
                return true;
            }
            i = i + 1;
        }
        false
    }

    /// Number of live notifications at `anchor`.
    pub fn anchor_count(&self, anchor: Anchor) -> (n: usize)
        ensures
            n as int == count_at(self.states_seq(), anchor),
    {
        let mut n: usize = 0;
        let mut i: usize = 0;
        while i < self.states.len()
            invariant
                0 <= i <= self.states@.len(),
                n <= i,
                n as int == count_at(self.states@.take(i as int), anchor),
            decreases self.states@.len() - i,
        {
            proof {
                let t1 = self.states@.take(i as int + 1);
                assert(t1.drop_last() =~= self.states@.take(i as int));
                assert(t1.last() == self.states@[i as int]);
            }
            if self.states[i].notification.anchor == anchor {
                n = n + 1;
            }
            i = i + 1;
        }
        proof {
            assert(self.states@.take(self.states@.len() as int) =~= self.states@);
        }
        n
    }

    /// Identity of the oldest notification at `anchor` — the minimum
    /// creation stamp, ties broken toward insertion order, which under
    /// [`Notifications::wf`] is the first entry at that anchor. `None` when
    /// the anchor has no live entries. Read-only; scans only stamps.
    fn find_oldest_at_anchor(&self, anchor: Anchor) -> (r: Option<u64>)
        requires
            self.wf(),
        ensures
            ({
                let s = self.states_seq();
                let m = first_at(s, anchor);
                r == if m < s.len() {
                    Some(s[m].id)
                } else {
                    None::<u64>
                }
            }),
    {
        let ghost s = self.states@;
        let mut best: Option<usize> = None;
        let mut i: usize = 0;
        while i < self.states.len()
            invariant
                self.wf(),
                s == self.states@,
                0 <= i <= s.len(),
                match best {
                    None => forall|j: int|
                        0 <= j < i ==> (#[trigger] s[j]).notification.anchor != anchor,
                    Some(b) => b < i && b as int == first_at(s, anchor),
                },
            decreases s.len() - i,
        {
            if self.states[i].notification.anchor == anchor {
                match best {
                    None => {
                        proof {
                            lemma_first_at_from(s, anchor, 0);
                        }
                        best = Some(i);
                    },
                    Some(b) => {
                        if self.states[i].created_at < self.states[b].created_at {
                            // Unreachable under wf: stamps never decrease along
                            // insertion order, so the first entry at the anchor
                            // already carries the minimum stamp.
                            best = Some(i);
                        }
                    },
                }
            }
            i = i + 1;
        }
        proof {
            lemma_first_at_from(s, anchor, 0);
        }
        match best {
            None => None,
            Some(b) => Some(self.states[b].id),
        }
    }

    /// Identity of the newest notification at `anchor` — the maximum
    /// creation stamp, ties broken toward the latest insertion, which under
    /// [`Notifications::wf`] is the last entry at that anchor. `None` when
    /// the anchor has no live entries. Read-only; scans only stamps.
    fn find_newest_at_anchor(&self, anchor: Anchor) -> (r: Option<u64>)
        requires
            self.wf(),
        ensures
            ({
                let s = self.states_seq();
                let m = last_at(s, anchor);
                r == if m >= 0 {
                    Some(s[m].id)
                } else {
                    None::<u64>
                }
            }),
    {
        let ghost s = self.states@;
        let mut best: Option<usize> = None;
        let mut i: usize = 0;
        while i < self.states.len()
            invariant
                self.wf(),
                s == self.states@,
                0 <= i <= s.len(),
                match best {
                    None => forall|j: int|
                        0 <= j < i ==> (#[trigger] s[j]).notification.anchor != anchor,
                    Some(b) => b < i && s[b as int].notification.anchor == anchor && forall|j: int|
                        b < j < i ==> (#[trigger] s[j]).notification.anchor != anchor,
                },
            decreases s.len() - i,
        {
            if self.states[i].notification.anchor == anchor {
                let replace = match best {
                    None => true,
                    Some(b) => self.states[i].created_at >= self.states[b].created_at,
                };
                if replace {
                    best = Some(i);
                }
            }
            i = i + 1;
        }
        proof {
            lemma_last_at(s, anchor);
        }
        match best {
            None => None,
            Some(b) => Some(self.states[b].id),
        }
    }

    /// Applies the overflow policy for an insertion at `anchor`: when a cap
    /// is configured and the anchor is at or over it, the entry the policy
    /// selects is removed through the normal removal path.
    fn enforce_limit(&mut self, anchor: Anchor)
        requires
            old(self).wf(),
        ensures
            final(self).wf(),
            final(self).states_seq() == after_enforce(
                old(self).states_seq(),
                anchor,
                old(self).spec_max(),
                old(self).spec_overflow(),
            ),
            forall|x: u64|
                contains_id(final(self).states_seq(), x) ==> contains_id(
                    old(self).states_seq(),
                    x,
                ),
            final(self).spec_next_id() == old(self).spec_next_id(),
            final(self).spec_next_stamp() == old(self).spec_next_stamp(),
            final(self).spec_defaults() == old(self).spec_defaults(),
            final(self).spec_max() == old(self).spec_max(),
            final(self).spec_overflow() == old(self).spec_overflow(),
    {
        let ghost s = self.states@;
        if let Some(max) = self.max_concurrent {
            let current_count = self.anchor_count(anchor);
            if current_count >= max {
                let id_to_remove = match self.overflow {
                    Overflow::DiscardOldest => self.find_oldest_at_anchor(anchor),
                    Overflow::DiscardNewest => self.find_newest_at_anchor(anchor),
                };
                proof {
                    lemma_first_at_from(s, anchor, 0);
                    lemma_last_at(s, anchor);
                    lemma_count_at_pos(s, anchor);
                }
                if let Some(id) = id_to_remove {
                    let ghost m = evict_index(s, anchor, self.overflow);
                    self.remove(id);
                    proof {
                        let i = choose|i: int|
                            0 <= i < s.len() && (#[trigger] s[i]).id == id && self.states@
                                == s.remove(i);
                        assert(i == m);
                        s.remove_ensures(m);
                        assert forall|x: u64| contains_id(self.states@, x) implies contains_id(
                            s,
                            x,
                        ) by {
                            let j = choose|j: int|
                                0 <= j < self.states@.len() && (#[trigger] self.states@[j]).id
                                    == x;
                            if j < m {
                                assert(s[j].id == x);
                            } else {
                                assert(s[j + 1].id == x);
                            }
                        }
                    }
                }
            }
        }
    }

    /// Advances every live animation state by `delta_ms` milliseconds, then
    /// removes every state whose phase reached the terminal one. Each state
    /// advances from its own prior phase and counter, so removal order has
    /// no effect on sibling states within the same tick.
    pub fn tick(&mut self, delta_ms: u64)
        requires
            old(self).wf(),
        ensures
            final(self).wf(),
            final(self).states_seq() == ticked(old(self).states_seq(), delta_ms),
            final(self).spec_next_id() == old(self).spec_next_id(),
            final(self).spec_next_stamp() == old(self).spec_next_stamp(),
            final(self).spec_defaults() == old(self).spec_defaults(),
            final(self).spec_max() == old(self).spec_max(),
            final(self).spec_overflow() == old(self).spec_overflow(),
    {
        let ghost s0 = self.states@;
        let mut work: Vec<NotificationState> = Vec::new();
        core::mem::swap(&mut self.states, &mut work);
        let ghost mut k: int = 0;
        while work.len() > 0
            invariant
                old(self).wf(),
                s0 == old(self).states_seq(),
                0 <= k <= s0.len(),
                work@ == s0.skip(k),
                self.states@ == ticked(s0.take(k), delta_ms),
                self.next_id == old(self).next_id,
                self.next_stamp == old(self).next_stamp,
                self.defaults == old(self).defaults,
                self.max_concurrent == old(self).max_concurrent,
                self.overflow == old(self).overflow,
            decreases work@.len(),
        {
            proof {
                assert(work@[0] == s0[k]);
            }
            let mut st = work.remove(0);
            proof {
                s0.skip(k).remove_ensures(0);
                assert(work@ =~= s0.skip(k + 1));
                assert(st.inv());
            }
            st.update(delta_ms);
            if !st.is_finished() {
                self.states.push(st);
            }
            proof {
                k = k + 1;
                let t1 = s0.take(k);
                assert(t1.drop_last() =~= s0.take(k - 1));
                assert(t1.last() == s0[k - 1]);
                assert(self.states@ == ticked(t1, delta_ms));
            }
        }
        proof {
            assert(s0.take(k) =~= s0);
            lemma_ticked_wf(s0, delta_ms, self.next_stamp);
        }
    }

    /// Adds a notification and returns the identity allocated for it.
    ///
    /// The identity counter advances monotonically and wraps to zero on
    /// overflow. The overflow policy for the notification's anchor is
    /// applied before insertion, so the new notification always survives its
    /// own `add`. Never fails for a well-formed notification: validation is
    /// the builder's concern, not the manager's.
    pub fn add(&mut self, notification: Notification) -> (r: Result<u64, NotificationError>)
        requires
            old(self).wf(),
        ensures
            final(self).wf(),
            r == Ok::<u64, NotificationError>(old(self).spec_next_id()),
            final(self).spec_next_id() == (if old(self).spec_next_id() == u64::MAX {
                0u64
            } else {
                (old(self).spec_next_id() + 1) as u64
            }),
            final(self).spec_next_stamp() == (if old(self).spec_next_stamp() == u64::MAX {
                u64::MAX
            } else {
                (old(self).spec_next_stamp() + 1) as u64
            }),
            final(self).spec_defaults() == old(self).spec_defaults(),
            final(self).spec_max() == old(self).spec_max(),
            final(self).spec_overflow() == old(self).spec_overflow(),
            final(self).states_seq().len() >= 1,
            final(self).states_seq().last() == new_entry(
                old(self).spec_defaults(),
                old(self).spec_next_id(),
                old(self).spec_next_stamp(),
                notification,
            ),
            contains_id(final(self).states_seq(), old(self).spec_next_id()),
            !contains_id(old(self).states_seq(), old(self).spec_next_id()) ==> final(self).states_seq() == after_enforce(
                old(self).states_seq(),
                notification.anchor,
                old(self).spec_max(),
                old(self).spec_overflow(),
            ).push(
                new_entry(
                    old(self).spec_defaults(),
                    old(self).spec_next_id(),
                    old(self).spec_next_stamp(),
                    notification,
                ),
            ),
            contains_id(old(self).states_seq(), old(self).spec_next_id()) ==> exists|i: int|
                0 <= i < old(self).states_seq().len() && (#[trigger] old(self).states_seq()[i]).id
                    == old(self).spec_next_id() && final(self).states_seq() == after_enforce(
                    old(self).states_seq().remove(i),
                    notification.anchor,
                    old(self).spec_max(),
                    old(self).spec_overflow(),
                ).push(
                    new_entry(
                        old(self).spec_defaults(),
                        old(self).spec_next_id(),
                        old(self).spec_next_stamp(),
                        notification,
                    ),
                ),
    {
        let ghost s0 = self.states@;
        let id = self.next_id;
        self.next_id = if id == u64::MAX {
            0
        } else {
            id + 1
        };
        let anchor = notification.anchor;
        // Identity wraparound guard: after 2^64 allocations the counter can
        // revisit a still-live identity; dropping the stale entry keeps
        // identities unique among live notifications.
        let _ = self.remove(id);
        let ghost s1 = self.states@;
        self.enforce_limit(anchor);
        let ghost s2 = self.states@;
        let stamp = self.next_stamp;
        self.next_stamp = if stamp == u64::MAX {
            u64::MAX
        } else {
            stamp + 1
        };
        let st = NotificationState::new(id, notification, &self.defaults, stamp);
        proof {
            assert(st == new_entry(self.defaults, id, stamp, notification));
            assert(!contains_id(s2, id));
        }
        self.states.push(st);
        proof {
            let s3 = self.states@;
            assert forall|j: int| 0 <= j < s3.len() implies (#[trigger] s3[j]).inv() by {
                if j < s2.len() {
                    assert(s3[j] == s2[j]);
                } else {
                    assert(s3[j] == st);
                }
            }
            assert forall|j: int, k: int| 0 <= j < k < s3.len() implies (#[trigger] s3[j]).id != (
            #[trigger] s3[k]).id by {
                if k < s2.len() {
                    assert(s3[j] == s2[j] && s3[k] == s2[k]);
                } else {
                    assert(s3[j] == s2[j] && s3[k] == st);
                    assert(s2[j].id != id);
                }
            }
            assert forall|j: int, k: int| 0 <= j < k < s3.len() implies (#[trigger] s3[j]).created_at
                <= (#[trigger] s3[k]).created_at by {
                if k < s2.len() {
                    assert(s3[j] == s2[j] && s3[k] == s2[k]);
                } else {
                    assert(s3[j] == s2[j] && s3[k] == st);
                }
            }
            assert forall|j: int| 0 <= j < s3.len() implies (#[trigger] s3[j]).created_at
                <= self.next_stamp by {
                if j < s2.len() {
                    assert(s3[j] == s2[j]);
                } else {
                    assert(s3[j] == st);
                }
            }
            assert(s3[s3.len() - 1].id == id);
        }
        Ok(id)
    }

    /// The identities at `anchor`, in insertion order: the anchor's sequence
    /// a renderer groups by. Read-only.
    pub fn ids_at_anchor(&self, anchor: Anchor) -> (r: Vec<u64>)
        ensures
            r@ == ids_at(self.states_seq(), anchor),
    {
        let mut r: Vec<u64> = Vec::new();
        let mut i: usize = 0;
        while i < self.states.len()
            invariant
                0 <= i <= self.states@.len(),
                r@ == ids_at(self.states@.take(i as int), anchor),
            decreases self.states@.len() - i,
        {
            proof {
                let t1 = self.states@.take(i as int + 1);
                assert(t1.drop_last() =~= self.states@.take(i as int));
                assert(t1.last() == self.states@[i as int]);
            }
            if self.states[i].notification.anchor == anchor {
                let id = self.states[i].id;
                r.push(id);
            }
            i = i + 1;
        }
        proof {
            assert(self.states@.take(self.states@.len() as int) =~= self.states@);
        }
        r
    }

    /// The live state carrying identity `id`, if any. Read-only: rendering
    /// reads states through this without mutating timing or identity.
    pub fn get(&self, id: u64) -> (r: Option<&NotificationState>)
        ensures
            match r {
                Some(st) => st.id == id && exists|i: int|
                    0 <= i < self.states_seq().len() && *st == (#[trigger] self.states_seq()[i]),
                None => !contains_id(self.states_seq(), id),
            },
    {
        let mut i: usize = 0;
        while i < self.states.len()
            invariant
                0 <= i <= self.states@.len(),
                forall|j: int| 0 <= j < i ==> (#[trigger] self.states@[j]).id != id,
            decreases self.states@.len() - i,
        {
            if self.states[i].id == id {
                let st = &self.states[i];
                proof {
                    assert(*st == self.states_seq()[i as int]);
                }
                return Some(st);
            }
            i = i + 1;
        }
        None
    }
}

impl Default for Notifications {
    /// Same configuration as [`Notifications::new`].
    fn default() -> (r: Self)
        ensures
            r.wf(),
            r.states_seq() == Seq::<NotificationState>::empty(),
            r.spec_next_id() == 0,
            r.spec_next_stamp() == 0,
            r.spec_max() == None::<usize>,
            r.spec_overflow() == Overflow::DiscardOldest,
            r.spec_defaults() == crate::types::spec_standard_defaults(),
    {
        Notifications::new()
    }
}

/// Members of an anchor's sequence are exactly the live identities whose
/// notification targets that anchor.
pub proof fn lemma_ids_at_members(s: Seq<NotificationState>, a: Anchor)
    ensures
        ids_at(s, a).len() <= s.len(),
        forall|j: int|
            0 <= j < ids_at(s, a).len() ==> exists|i: int|
                0 <= i < s.len() && (#[trigger] s[i]).notification.anchor == a && s[i].id == #[trigger] ids_at(s, a)[j],
        forall|i: int|
            0 <= i < s.len() && (#[trigger] s[i]).notification.anchor == a ==> ids_at(
                s,
                a,
            ).contains(s[i].id),
    decreases s.len(),
{
    if s.len() > 0 {
        let pre = s.drop_last();
        assert(forall|i: int| 0 <= i < pre.len() ==> pre[i] == s[i]);
        lemma_ids_at_members(pre, a);
        let r = ids_at(s, a);
        let rp = ids_at(pre, a);
        assert forall|j: int| 0 <= j < r.len() implies exists|i: int|
            0 <= i < s.len() && (#[trigger] s[i]).notification.anchor == a && s[i].id == #[trigger] r[j] by {
            if j < rp.len() {
                let i = choose|i: int|
                    0 <= i < pre.len() && (#[trigger] pre[i]).notification.anchor == a && pre[i].id
                        == rp[j];
                assert(s[i].notification.anchor == a && s[i].id == r[j]);
            } else {
                assert(s[s.len() - 1].notification.anchor == a && s[s.len() - 1].id == r[j]);
            }
        }
        assert forall|i: int|
            0 <= i < s.len() && (#[trigger] s[i]).notification.anchor == a implies ids_at(
            s,
            a,
        ).contains(s[i].id) by {
            if i < pre.len() {
                assert(pre[i].notification.anchor == a);
                let j = choose|j: int| 0 <= j < rp.len() && rp[j] == pre[i].id;
                assert(r[j] == s[i].id);
            } else {
                assert(r[r.len() - 1] == s[i].id);
            }
        }
    }
}

/// Law: the anchor index is a partition — an identity appears in at most
/// one anchor's sequence, namely the one its notification targets.
pub proof fn lemma_anchor_index_partition(s: Seq<NotificationState>, a1: Anchor, a2: Anchor)
    requires
        distinct_ids(s),
    ensures
        forall|id: u64|
            ids_at(s, a1).contains(id) && ids_at(s, a2).contains(id) ==> a1 == a2,
{
    lemma_ids_at_members(s, a1);
    lemma_ids_at_members(s, a2);
    assert forall|id: u64|
        ids_at(s, a1).contains(id) && ids_at(s, a2).contains(id) implies a1 == a2 by {
        let j1 = choose|j: int| 0 <= j < ids_at(s, a1).len() && ids_at(s, a1)[j] == id;
        let j2 = choose|j: int| 0 <= j < ids_at(s, a2).len() && ids_at(s, a2)[j] == id;
        let i1 = choose|i: int|
            0 <= i < s.len() && (#[trigger] s[i]).notification.anchor == a1 && s[i].id == ids_at(
                s,
                a1,
            )[j1];
        let i2 = choose|i: int|
            0 <= i < s.len() && (#[trigger] s[i]).notification.anchor == a2 && s[i].id == ids_at(
                s,
                a2,
            )[j2];
        if i1 != i2 {
            assert(s[i1].id != s[i2].id);
        }
    }
}

/// Law: under discard-oldest the entry the policy selects carries the
/// minimum creation stamp among the anchor's live entries.
pub proof fn lemma_evicted_is_oldest(s: Seq<NotificationState>, a: Anchor)
    requires
        stamps_ordered(s),
        first_at(s, a) < s.len(),
    ensures
        s[first_at(s, a)].notification.anchor == a,
        forall|j: int|
            0 <= j < s.len() && (#[trigger] s[j]).notification.anchor == a ==> s[first_at(
                s,
                a,
            )].created_at <= s[j].created_at,
{
    lemma_first_at_from(s, a, 0);
}

/// Law: under discard-newest the entry the policy selects carries the
/// maximum creation stamp among the anchor's live entries — the most
/// recently inserted one. Enforcement runs before insertion, so the entry
/// being added always survives its own `add`.
pub proof fn lemma_evicted_is_newest(s: Seq<NotificationState>, a: Anchor)
    requires
        stamps_ordered(s),
        last_at(s, a) >= 0,
    ensures
        s[last_at(s, a)].notification.anchor == a,
        forall|j: int|
            0 <= j < s.len() && (#[trigger] s[j]).notification.anchor == a ==> s[j].created_at
                <= s[last_at(s, a)].created_at,
{
    lemma_last_at(s, a);
}

/// How many states one tick of `delta` finishes (and so prunes).
pub open spec fn finished_count(s: Seq<NotificationState>, delta: u64) -> int
    decreases s.len(),
{
    if s.len() == 0 {
        0
    } else {
        finished_count(s.drop_last(), delta) + if stepped(s.last(), delta).current_phase
            == AnimationPhase::Finished {
            1int
        } else {
            0int
        }
    }
}

/// Law: live accounting under ticking — a tick keeps exactly the states it
/// does not finish, so the live count drops by precisely the number of
/// natural completions.
pub proof fn lemma_tick_accounting(s: Seq<NotificationState>, delta: u64)
    ensures
        0 <= finished_count(s, delta) <= s.len(),
        ticked(s, delta).len() == s.len() - finished_count(s, delta),
    decreases s.len(),
{
    if s.len() > 0 {
        lemma_tick_accounting(s.drop_last(), delta);
    }
}

/// Law: sum decomposition lifts to the whole manager, pruning included —
/// ticking every state by `d1` and then by `d2`, pruning finished states
/// after each pass, leaves exactly the states of one combined tick of
/// `d1 + d2`.
pub proof fn lemma_manager_tick_decomposition(s: Seq<NotificationState>, d1: u64, d2: u64)
    requires
        all_wf(s),
        d1 + d2 <= u64::MAX,
    ensures
        ticked(ticked(s, d1), d2) == ticked(s, (d1 + d2) as u64),
    decreases s.len(),
{
    if s.len() == 0 {
        assert(ticked(ticked(s, d1), d2) =~= ticked(s, (d1 + d2) as u64));
    } else {
        let pre = s.drop_last();
        assert(forall|i: int| 0 <= i < pre.len() ==> pre[i] == s[i]);
        lemma_manager_tick_decomposition(pre, d1, d2);
        let last = s.last();
        assert(last == s[s.len() - 1]);
        assert(last.inv());
        crate::state::lemma_stepped_sum_decomposition(last, d1, d2);
        let st1 = stepped(last, d1);
        let st12 = stepped(last, (d1 + d2) as u64);
        let rest1 = ticked(pre, d1);
        if st1.current_phase == AnimationPhase::Finished {
            // pruned by the first tick; the combined tick finishes it too,
            // since a terminal state stays terminal
            assert(stepped(st1, d2).current_phase == AnimationPhase::Finished);
            assert(ticked(s, d1) == rest1);
        } else {
            let t1 = rest1.push(st1);
            assert(ticked(s, d1) == t1);
            assert(t1.drop_last() =~= rest1);
            assert(t1.last() == st1);
            assert(stepped(st1, d2) == st12);
        }
    }
}

/// Law: live accounting under insertion — with no cap configured,
/// enforcement never evicts, so every `add` grows the live set by exactly
/// one entry.
pub proof fn lemma_uncapped_add_grows_by_one(
    s: Seq<NotificationState>,
    a: Anchor,
    policy: Overflow,
    e: NotificationState,
)
    ensures
        after_enforce(s, a, None::<usize>, policy).push(e).len() == s.len() + 1,
{
}

} // verus!
