use vstd::prelude::*;
use crate::pitch::MAX_SCANCODE;
use crate::voices::VoiceRegistry;

verus! {

/// The transition that a key event reports.
#[derive(Clone, Copy, Debug, PartialEq, Eq, Structural)]
pub enum KeyState {
    Pressed,
    Released,
}

/// A key identifier together with its transition.
#[derive(Clone, Copy, Debug, PartialEq, Eq, Structural)]
pub struct KeyEvent {
    pub scancode: usize,
    pub state: KeyState,
}

/// The voice set after one event.
pub open spec fn step(s: Set<usize>, e: KeyEvent) -> Set<usize> {
    match e.state {
        KeyState::Pressed => s.insert(e.scancode),
        KeyState::Released => s.remove(e.scancode),
    }
}

/// The voice set after the events, applied in their order.
pub open spec fn replay(s: Set<usize>, events: Seq<KeyEvent>) -> Set<usize>
    decreases events.len(),
{
    if events.len() == 0 {
        s
    } else {
        step(replay(s, events.drop_last()), events.last())
    }
}

/// The transition of the latest event for key `k`, if there is one.
pub open spec fn latest_state(events: Seq<KeyEvent>, k: usize) -> Option<KeyState>
    decreases events.len(),
{
    if events.len() == 0 {
        None
    } else if events.last().scancode == k {
        Some(events.last().state)
    } else {
        latest_state(events.drop_last(), k)
    }
}

pub open spec fn admitted(e: KeyEvent) -> bool {
    e.scancode < MAX_SCANCODE
}

/// The event for a raw key code, or `None` where the code names no valid key.
pub fn admit_event(scancode: u32, state: KeyState) -> (r: Option<KeyEvent>)
    ensures
        (scancode < MAX_SCANCODE) == r.is_some(),
        r.is_some() ==> r.unwrap() == (KeyEvent { scancode: scancode as usize, state }),
{
    if (scancode as usize) < MAX_SCANCODE {
        Some(KeyEvent { scancode: scancode as usize, state })
    } else {
        None
    }
}

impl VoiceRegistry {
    /// Applies one event: a press starts the key's voice, a release stops it.
    pub fn apply_event(&mut self, e: KeyEvent)
        requires
            old(self).wf(),
            admitted(e),
        ensures
            final(self).wf(),
            final(self)@ == step(old(self)@, e),
    {
        match e.state {
            KeyState::Pressed => self.activate(e.scancode),
            KeyState::Released => self.deactivate(e.scancode),
        }
    }

    /// Applies the events one at a time, in their order.
    pub fn apply_events(&mut self, events: &Vec<KeyEvent>)
        requires
            old(self).wf(),
            forall|i: int| 0 <= i < events@.len() ==> admitted(#[trigger] events@[i]),
        ensures
            final(self).wf(),
            final(self)@ == replay(old(self)@, events@),
    {
        let mut i: usize = 0;
        while i < events.len()
            invariant
                self.wf(),
                i <= events@.len(),
                forall|j: int| 0 <= j < events@.len() ==> admitted(#[trigger] events@[j]),
                self@ == replay(old(self)@, events@.subrange(0, i as int)),
            decreases events@.len() - i,
        {
            self.apply_event(events[i]);
            proof {
                let next = events@.subrange(0, i + 1);
                assert(next.drop_last() =~= events@.subrange(0, i as int));
            }
            i = i + 1;
        }
        assert(events@.subrange(0, events@.len() as int) =~= events@);
    }
}

/// A key sounds after a run of events exactly when the latest event for it
/// was a press; with no event for it, it keeps the state it had before.
pub proof fn lemma_latest_event_decides(s: Set<usize>, events: Seq<KeyEvent>, k: usize)
    ensures
        replay(s, events).contains(k) == match latest_state(events, k) {
            Some(KeyState::Pressed) => true,
            Some(KeyState::Released) => false,
            None => s.contains(k),
        },
    decreases events.len(),
{
    if events.len() > 0 {
        lemma_latest_event_decides(s, events.drop_last(), k);
    }
}

/// For one key, a press followed later by a release: the key sounds from the
/// press until the release, and not after the release while no newer event
/// for it comes.
pub proof fn lemma_press_then_release(s: Set<usize>, events: Seq<KeyEvent>, k: usize, p: int, r: int)
    requires
        0 <= p < r < events.len(),
        events[p] == (KeyEvent { scancode: k, state: KeyState::Pressed }),
        events[r] == (KeyEvent { scancode: k, state: KeyState::Released }),
        forall|i: int| p < i < r ==> (#[trigger] events[i]).scancode != k,
    ensures
        forall|n: int| p < n <= r ==> #[trigger] replay(s, events.subrange(0, n)).contains(k),
        forall|n: int|
            r < n <= events.len() && (forall|i: int| r < i < n ==> (#[trigger] events[i]).scancode != k)
                ==> !#[trigger] replay(s, events.subrange(0, n)).contains(k),
{
    assert forall|n: int| p < n <= r implies #[trigger] replay(s, events.subrange(0, n)).contains(k) by {
        lemma_latest_event_decides(s, events.subrange(0, n), k);
        lemma_latest_is(events, k, n, p);
    }
    assert forall|n: int|
        r < n <= events.len() && (forall|i: int| r < i < n ==> (#[trigger] events[i]).scancode != k)
            implies !#[trigger] replay(s, events.subrange(0, n)).contains(k) by {
        lemma_latest_event_decides(s, events.subrange(0, n), k);
        lemma_latest_is(events, k, n, r);
    }
}

/// Where event `m` is for key `k` and none after it in the first `n` is, the
/// latest state of `k` in the first `n` events is that of event `m`.
proof fn lemma_latest_is(events: Seq<KeyEvent>, k: usize, n: int, m: int)
    requires
        0 <= m < n <= events.len(),
        events[m].scancode == k,
        forall|i: int| m < i < n ==> (#[trigger] events[i]).scancode != k,
    ensures
        latest_state(events.subrange(0, n), k) == Some(events[m].state),
    decreases n - m,
{
    let pre = events.subrange(0, n);
    if n - 1 > m {
        assert(pre.drop_last() =~= events.subrange(0, n - 1));
        lemma_latest_is(events, k, n - 1, m);
    }
}

/// Pressing a key that already sounds, or releasing one that does not,
/// leaves the voice set, and so its size, as it was.
pub proof fn lemma_idempotent_events(s: Set<usize>, k: usize)
    ensures
        s.contains(k) ==> step(s, KeyEvent { scancode: k, state: KeyState::Pressed }) == s,
        !s.contains(k) ==> step(s, KeyEvent { scancode: k, state: KeyState::Released }) == s,
{
    if s.contains(k) {
        assert(s.insert(k) =~= s);
    } else {
        assert(s.remove(k) =~= s);
    }
}

} // verus!
