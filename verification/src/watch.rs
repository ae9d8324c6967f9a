//! When the view is refreshed and redrawn: changes on disk are gathered until they have been quiet
//! for a while.

use vstd::prelude::*;

verus! {

/// Quiet period after the last change before the view is refreshed, in milliseconds.
pub const REFRESH_DEBOUNCE_MS: u64 = 300;

/// How long input polling blocks before the loop services the debounce timer, in milliseconds.
pub const POLL_INTERVAL_MS: u64 = 100;

/// What happened on disk.
#[derive(Clone, Copy, PartialEq, Eq, Debug, Structural)]
pub enum DiskEvent {
    Any,
    Access,
    Create,
    Modify,
    Remove,
    Other,
}

/// Whether an event on disk asks for a refresh: access-only and bookkeeping events do not.
pub open spec fn asks_for_refresh(event: DiskEvent) -> bool {
    event == DiskEvent::Create || event == DiskEvent::Modify || event == DiskEvent::Remove || event
        == DiskEvent::Any
}

/// Whether an event on disk should trigger a refresh (ignore access-only and bookkeeping events).
pub fn is_relevant(event: DiskEvent) -> (r: bool)
    ensures
        r == asks_for_refresh(event),
{
    match event {
        DiskEvent::Create | DiskEvent::Modify | DiskEvent::Remove | DiskEvent::Any => true,
        DiskEvent::Access | DiskEvent::Other => false,
    }
}

/// What came in from the terminal.
#[derive(Clone, Copy, PartialEq, Eq, Debug, Structural)]
pub enum Input {
    /// A key was pressed.
    Key,
    Mouse,
    Resize,
    /// Anything else, such as the release of a key.
    Other,
}

/// What the event loop remembers between rounds. Times are in milliseconds, on a clock that does
/// not run backwards.
#[derive(Clone, Copy, PartialEq, Eq, Debug, Structural)]
pub struct Pace {
    /// When the last change that is not refreshed yet was seen.
    pub pending_since: Option<u64>,
    pub need_redraw: bool,
}

impl Pace {
    pub open spec fn at_start() -> Pace {
        Pace { pending_since: None, need_redraw: true }
    }

    /// After an event on disk, seen at `now`.
    pub open spec fn after_disk(self, event: DiskEvent, now: u64) -> Pace {
        if asks_for_refresh(event) {
            Pace { pending_since: Some(now), ..self }
        } else {
            self
        }
    }

    /// Whether the view is to be refreshed at `now`: something changed, it has been quiet for the
    /// debounce window, and no editor is open.
    pub open spec fn is_due(self, now: u64, editing: bool) -> bool {
        match self.pending_since {
            Some(t) => !editing && now - t >= REFRESH_DEBOUNCE_MS,
            None => false,
        }
    }

    pub open spec fn after_refresh(self) -> Pace {
        Pace { pending_since: None, need_redraw: true }
    }

    pub open spec fn after_input(self, input: Input) -> Pace {
        if input == Input::Other {
            self
        } else {
            Pace { need_redraw: true, ..self }
        }
    }

    /// The first round: nothing is pending, and the screen is to be drawn.
    pub fn new() -> (r: Self)
        ensures
            r == Pace::at_start(),
    {
        Pace { pending_since: None, need_redraw: true }
    }

    /// Whether to draw now; once drawn, the screen is good until something changes.
    pub fn take_redraw(&mut self) -> (r: bool)
        ensures
            r == old(self).need_redraw,
            *final(self) == (Pace { need_redraw: false, ..*old(self) }),
    {
        let r = self.need_redraw;
        self.need_redraw = false;
        r
    }

    /// Takes in an event on disk: any relevant change (re)starts the debounce timer.
    pub fn disk_event(&mut self, event: DiskEvent, now: u64)
        ensures
            *final(self) == old(self).after_disk(event, now),
    {
        if is_relevant(event) {
            self.pending_since = Some(now);
        }
    }

    /// Whether to refresh now. Where it is time, the change no longer counts as pending, and the
    /// screen is to be redrawn.
    pub fn take_refresh(&mut self, now: u64, editing: bool) -> (r: bool)
        ensures
            r == old(self).is_due(now, editing),
            *final(self) == (if r {
                old(self).after_refresh()
            } else {
                *old(self)
            }),
    {
        match self.pending_since {
            Some(t) => {
                if !editing && now >= t && now - t >= REFRESH_DEBOUNCE_MS {
                    self.pending_since = None;
                    self.need_redraw = true;
                    return true;
                }
                false
            },
            None => false,
        }
    }

    /// Takes in what came from the terminal.
    pub fn input(&mut self, input: Input)
        ensures
            *final(self) == old(self).after_input(input),
    {
        match input {
            Input::Key | Input::Mouse | Input::Resize => {
                self.need_redraw = true;
            },
            Input::Other => {},
        }
    }
}

// ---- laws ------------------------------------------------------------------

/// The state after a sequence of events on disk, each with the time at which it was seen.
pub open spec fn after_events(pace: Pace, events: Seq<(DiskEvent, u64)>) -> Pace
    decreases events.len(),
{
    if events.len() == 0 {
        pace
    } else {
        after_events(pace, events.drop_last()).after_disk(events.last().0, events.last().1)
    }
}

/// A burst of changes coalesces into a single refresh: whatever came before, nothing is due until
/// the debounce window has passed since the last change, then one refresh is due, and after it
/// none until something else changes.
pub proof fn bursts_coalesce(
    pace: Pace,
    events: Seq<(DiskEvent, u64)>,
    last: u64,
    event: DiskEvent,
    now: u64,
    later: u64,
)
    requires
        asks_for_refresh(event),
        last <= now,
    ensures
        ({
            let then = after_events(pace, events.push((event, last)));
            &&& then.is_due(now, false) <==> now - last >= REFRESH_DEBOUNCE_MS
            &&& !then.after_refresh().is_due(later, false)
        }),
{
    assert(events.push((event, last)).drop_last() =~= events);
}

/// A refresh waits while an editor is open, and is not lost: it is due once the editor is closed.
pub proof fn refreshes_wait_for_the_editor(pace: Pace, now: u64)
    ensures
        !pace.is_due(now, true),
        pace.pending_since matches Some(t) ==> now - t >= REFRESH_DEBOUNCE_MS ==> pace.is_due(
            now,
            false,
        ),
{
}

/// Events that ask for no refresh change nothing.
pub proof fn bookkeeping_is_ignored(pace: Pace, events: Seq<(DiskEvent, u64)>)
    requires
        forall|i: int| 0 <= i < events.len() ==> !asks_for_refresh((#[trigger] events[i]).0),
    ensures
        after_events(pace, events) == pace,
    decreases events.len(),
{
    if events.len() > 0 {
        let fewer = events.drop_last();
        assert forall|i: int| 0 <= i < fewer.len() implies !asks_for_refresh(
            (#[trigger] fewer[i]).0,
        ) by {
            assert(fewer[i] == events[i]);
        }
        bookkeeping_is_ignored(pace, fewer);
        assert(!asks_for_refresh(events[events.len() - 1].0));
    }
}

} // verus!
