use vstd::prelude::*;

verus! {

/// A coalesced notice that the workspace changed on disk.
#[derive(Debug, Clone, Copy, PartialEq, Eq, Structural)]
pub struct NormalizedWatcherEvent {
    pub event_count: u32,
}

/// The kind of a filesystem notification, by its top-level category.
#[derive(Debug, Clone, Copy, PartialEq, Eq, Structural)]
pub enum WatchEventKind {
    Any,
    Access,
    Create,
    Modify,
    Remove,
    Other,
}

/// What the watcher delivered: a notification of some kind, or an error.
#[derive(Debug, Clone, Copy, PartialEq, Eq, Structural)]
pub enum RawWatchEvent {
    Notification(WatchEventKind),
    Error,
}

/// Creations, modifications, removals and unclassified changes call for a
/// refresh; mere accesses and other notices do not.
pub open spec fn spec_should_refresh(kind: WatchEventKind) -> bool {
    kind is Create || kind is Modify || kind is Remove || kind is Any
}

/// A delivered item counts toward a refresh when it is an error (the
/// watcher may have missed changes) or a notification that calls for one.
pub open spec fn counts_toward_refresh(event: RawWatchEvent) -> bool {
    match event {
        RawWatchEvent::Notification(kind) => spec_should_refresh(kind),
        RawWatchEvent::Error => true,
    }
}

pub fn should_refresh_for_event_kind(kind: WatchEventKind) -> (r: bool)
    ensures
        r == spec_should_refresh(kind),
{
    match kind {
        WatchEventKind::Create | WatchEventKind::Modify | WatchEventKind::Remove | WatchEventKind::Any => true,
        WatchEventKind::Access | WatchEventKind::Other => false,
    }
}

/// The debouncing state of the workspace watcher: changes are counted as
/// they arrive and handed on at most once per debounce window. Times are
/// milliseconds on a clock that does not go back.
#[derive(Debug, Clone, Copy, PartialEq, Eq)]
pub struct WatcherDebounce {
    pub debounce_window_ms: u64,
    pub pending_event_count: u32,
    pub pending_since: Option<u64>,
    pub last_emitted: Option<u64>,
}


/// Whether a poll at `now_ms` falls within the debounce window of the last
/// emitted event (a clock reading before it counts as no time elapsed).
pub open spec fn within_window(d: WatcherDebounce, now_ms: u64) -> bool {
    match d.last_emitted {
        Some(t) => (if now_ms >= t { now_ms - t } else { 0 }) < d.debounce_window_ms,
        None => false,
    }
}

/// A poll at `now_ms`: nothing while nothing is pending or within the
/// window; else the pending count, which starts over.
pub open spec fn spec_poll(d: WatcherDebounce, now_ms: u64) -> (Option<NormalizedWatcherEvent>, WatcherDebounce) {
    if d.pending_event_count == 0 || within_window(d, now_ms) {
        (None, d)
    } else {
        (
            Some(NormalizedWatcherEvent { event_count: d.pending_event_count }),
            WatcherDebounce { pending_event_count: 0, pending_since: None, last_emitted: Some(now_ms), ..d },
        )
    }
}

/// The debouncing state after one delivered item at `now_ms`: an item that
/// counts adds one to the pending count and starts the pending time if
/// none was running; any other item changes nothing.
pub open spec fn spec_record(d: WatcherDebounce, event: RawWatchEvent, now_ms: u64) -> WatcherDebounce {
    if counts_toward_refresh(event) {
        WatcherDebounce {
            pending_event_count: (d.pending_event_count + 1) as u32,
            pending_since: match d.pending_since {
                Some(t) => Some(t),
                None => Some(now_ms),
            },
            ..d
        }
    } else {
        d
    }
}

/// One thing that happens to the watcher: an item delivered at a time, or
/// a poll at a time.
pub enum WatchStep {
    Deliver(RawWatchEvent, u64),
    Poll(u64),
}

/// The debouncing state after one step.
pub open spec fn after_step(d: WatcherDebounce, step: WatchStep) -> WatcherDebounce {
    match step {
        WatchStep::Deliver(event, t) => spec_record(d, event, t),
        WatchStep::Poll(t) => spec_poll(d, t).1,
    }
}

/// The debouncing state after the steps, in order.
pub open spec fn after_steps(d: WatcherDebounce, steps: Seq<WatchStep>) -> WatcherDebounce
    decreases steps.len(),
{
    if steps.len() == 0 {
        d
    } else {
        after_step(after_steps(d, steps.drop_last()), steps.last())
    }
}

/// Whether no poll among the steps handed an event on.
pub open spec fn no_event_handed_on(d: WatcherDebounce, steps: Seq<WatchStep>) -> bool {
    forall|i: int|
        0 <= i < steps.len() ==> (#[trigger] steps[i] matches WatchStep::Poll(t) ==> spec_poll(
            after_steps(d, steps.take(i)),
            t,
        ).0 is None)
}

/// The number of delivered items among the steps that count toward a
/// refresh.
pub open spec fn counted_items(steps: Seq<WatchStep>) -> nat
    decreases steps.len(),
{
    if steps.len() == 0 {
        0
    } else {
        counted_items(steps.drop_last()) + match steps.last() {
            WatchStep::Deliver(event, _) => if counts_toward_refresh(event) {
                1nat
            } else {
                0nat
            },
            WatchStep::Poll(_) => 0nat,
        }
    }
}

/// Law: while no poll hands an event on, the pending count grows by exactly
/// the items that count (errors and creations, modifications, removals and
/// unclassified changes; not accesses or other notices), whatever polls
/// came between; and a poll that then hands an event on carries that
/// count and starts the count over. After an event was handed on (or at
/// the start) the pending count is zero, so the event carries exactly the
/// counted items since.
pub proof fn lemma_event_carries_counted_items(d: WatcherDebounce, steps: Seq<WatchStep>, now_ms: u64)
    requires
        no_event_handed_on(d, steps),
        d.pending_event_count + counted_items(steps) <= u32::MAX,
    ensures
        after_steps(d, steps).pending_event_count == d.pending_event_count + counted_items(steps),
        spec_poll(after_steps(d, steps), now_ms).0 matches Some(ev) ==> ev.event_count == d.pending_event_count
            + counted_items(steps) && spec_poll(after_steps(d, steps), now_ms).1.pending_event_count == 0,
        d.pending_event_count + counted_items(steps) == 0 ==> spec_poll(after_steps(d, steps), now_ms).0 is None,
    decreases steps.len(),
{
    if steps.len() > 0 {
        let front = steps.drop_last();
        assert forall|i: int|
            0 <= i < front.len() implies (#[trigger] front[i] matches WatchStep::Poll(t) ==> spec_poll(
            after_steps(d, front.take(i)),
            t,
        ).0 is None) by {
            assert(front[i] == steps[i]);
            assert(front.take(i) =~= steps.take(i));
        }
        lemma_event_carries_counted_items(d, front, now_ms);
        let last = steps.last();
        assert(steps[steps.len() - 1] == last);
        assert(steps.take(steps.len() - 1) =~= front);
    }
}

/// Law: once an event went out at `t`, no other goes out before the window
/// has passed, whatever arrived meanwhile; the next one carries every
/// change that counted since.
pub proof fn lemma_debounce_window(d: WatcherDebounce, t: u64, later: u64)
    requires
        spec_poll(d, t).0 is Some,
        t <= later,
    ensures
        ({
            let after = spec_poll(d, t).1;
            &&& after.pending_event_count == 0
            &&& forall|e: WatcherDebounce|
                e.last_emitted == after.last_emitted && e.debounce_window_ms == after.debounce_window_ms && later - t
                    < d.debounce_window_ms ==> #[trigger] spec_poll(e, later).0 is None
            &&& forall|e: WatcherDebounce|
                #![trigger spec_poll(e, later)]
                e.pending_event_count > 0 && !within_window(e, later) ==> spec_poll(e, later).0 == Some(
                    NormalizedWatcherEvent { event_count: e.pending_event_count },
                )
        }),
{
}

impl WatcherDebounce {
    pub fn new(debounce_window_ms: u64) -> (r: WatcherDebounce)
        ensures
            r == (WatcherDebounce {
                debounce_window_ms,
                pending_event_count: 0,
                pending_since: None,
                last_emitted: None,
            }),
    {
        WatcherDebounce { debounce_window_ms, pending_event_count: 0, pending_since: None, last_emitted: None }
    }

    /// Takes one delivered item into account at time `now_ms`.
    pub fn record_raw_event(&mut self, event: RawWatchEvent, now_ms: u64)
        requires
            counts_toward_refresh(event) ==> old(self).pending_event_count < u32::MAX,
        ensures
            *final(self) == spec_record(*old(self), event, now_ms),
    {
        let counts = match event {
            RawWatchEvent::Notification(kind) => should_refresh_for_event_kind(kind),
            RawWatchEvent::Error => true,
        };
        if counts {
            self.pending_event_count = self.pending_event_count + 1;
            if self.pending_since.is_none() {
                self.pending_since = Some(now_ms);
            }
        }
    }

    /// The coalesced event due at time `now_ms`, if any: none while nothing
    /// is pending or while the window since the last one has not passed;
    /// else the count of the changes gathered since, which starts over.
    pub fn poll_refresh_event(&mut self, now_ms: u64) -> (r: Option<NormalizedWatcherEvent>)
        ensures
            (r, *final(self)) == spec_poll(*old(self), now_ms),
    {
        if self.pending_event_count == 0 {
            return None;
        }
        if let Some(last) = self.last_emitted {
            let elapsed = if now_ms >= last { now_ms - last } else { 0 };
            if elapsed < self.debounce_window_ms {
                return None;
            }
        }
        let event = NormalizedWatcherEvent { event_count: self.pending_event_count };
        self.pending_event_count = 0;
        self.pending_since = None;
        self.last_emitted = Some(now_ms);
        Some(event)
    }
}

} // verus!
