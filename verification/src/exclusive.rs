//! One workspace per window: when the tracked state keeps each window on at
//! most one workspace.
//!
//! An event that reports a window on a workspace puts it there and leaves the
//! entries it has elsewhere alone. So the state keeps each window on one
//! workspace exactly as long as no event reports a window elsewhere than where
//! it stands.

use crate::event::{Event, Window};
use crate::state::{
    after, is_listed_on, lemma_with_window_stands, lemma_with_windows_stands, lists_on, stands_on,
    with_windows, State,
};
use vstd::prelude::*;

verus! {

/// Whether `state` holds each window on at most one workspace.
pub open spec fn is_exclusive(state: State) -> bool {
    forall|a: u64, b: u64, id: u64|
        #![trigger stands_on(state, a, id), stands_on(state, b, id)]
        stands_on(state, a, id) && stands_on(state, b, id) ==> a == b
}

/// Whether `state` holds the window `id` nowhere but, at most, on `workspace`.
pub open spec fn only_on(state: State, workspace: u64, id: u64) -> bool {
    forall|other: u64| #[trigger] stands_on(state, other, id) ==> other == workspace
}

/// Whether the listing `windows` puts each window on one workspace only, and
/// there where `state` holds it, if `state` holds it.
pub open spec fn listing_keeps_places(state: State, windows: Seq<Window>) -> bool {
    &&& forall|workspace: u64, id: u64| #[trigger]
        lists_on(windows, workspace, id) ==> only_on(state, workspace, id)
    &&& forall|a: u64, b: u64, id: u64|
        #![trigger lists_on(windows, a, id), lists_on(windows, b, id)]
        lists_on(windows, a, id) && lists_on(windows, b, id) ==> a == b
}

/// Whether `event` reports each window where `state` holds it, if `state`
/// holds it.
pub open spec fn keeps_places(state: State, event: Event) -> bool {
    match event {
        Event::WindowsChanged { windows } => listing_keeps_places(state, windows@),
        Event::WindowOpenedOrChanged { window } => match window.updated() {
            Some((workspace, _)) => only_on(state, workspace, window.id),
            None => true,
        },
        _ => true,
    }
}

/// `state` after the events `events`, the first event first.
pub open spec fn replayed(state: State, events: Seq<Event>) -> State
    decreases events.len(),
{
    if events.len() == 0 {
        state
    } else {
        after(replayed(state, events.drop_last()), events.last())
    }
}

/// Whether each of `events`, taken in after those before it, reports each
/// window where the state then holds it.
pub open spec fn keep_places(state: State, events: Seq<Event>) -> bool {
    forall|n: int|
        0 <= n < events.len() ==> keeps_places(
            replayed(state, #[trigger] events.take(n)),
            events[n],
        )
}

/// A state without workspaces holds no window twice.
pub proof fn lemma_empty_is_exclusive()
    ensures
        is_exclusive(Map::empty()),
{
}

/// A state that keeps each window on one workspace still does so after a
/// listing of all windows, if and only if the listing puts each window on one
/// workspace only, and there where the state holds it.
pub proof fn lemma_listing_keeps_exclusive(state: State, windows: Seq<Window>)
    requires
        is_exclusive(state),
    ensures
        is_exclusive(with_windows(state, windows)) <==> listing_keeps_places(state, windows),
{
    let next = with_windows(state, windows);
    if listing_keeps_places(state, windows) {
        assert forall|a: u64, b: u64, id: u64|
            stands_on(next, a, id) && stands_on(next, b, id) implies a == b by {
            lemma_with_windows_stands(state, windows, a, id);
            lemma_with_windows_stands(state, windows, b, id);
            if lists_on(windows, a, id) {
                assert(only_on(state, a, id));
            }
            if lists_on(windows, b, id) {
                assert(only_on(state, b, id));
            }
        }
    } else if exists|workspace: u64, id: u64|
        lists_on(windows, workspace, id) && !only_on(state, workspace, id) {
        let (workspace, id) = choose|workspace: u64, id: u64|
            lists_on(windows, workspace, id) && !only_on(state, workspace, id);
        let other = choose|other: u64| stands_on(state, other, id) && other != workspace;
        let i = choose|i: int|
            0 <= i < windows.len() && #[trigger] is_listed_on(windows[i], workspace, id);
        assert(windows.map_values(|window: Window| window.id)[i] == id);
        lemma_with_windows_stands(state, windows, other, id);
        lemma_with_windows_stands(state, windows, workspace, id);
        assert(stands_on(next, other, id) && stands_on(next, workspace, id));
    } else {
        let (a, b, id) = choose|a: u64, b: u64, id: u64|
            lists_on(windows, a, id) && lists_on(windows, b, id) && a != b;
        lemma_with_windows_stands(state, windows, a, id);
        lemma_with_windows_stands(state, windows, b, id);
        assert(stands_on(next, a, id) && stands_on(next, b, id));
    }
}

/// A state that keeps each window on one workspace still does so after an
/// event, if and only if the event reports each window where the state holds
/// it.
pub proof fn lemma_event_keeps_exclusive(state: State, event: Event)
    requires
        is_exclusive(state),
    ensures
        is_exclusive(after(state, event)) <==> keeps_places(state, event),
{
    let next = after(state, event);
    match event {
        Event::WorkspacesChanged { workspaces } => {
            assert forall|a: u64, b: u64, id: u64|
                stands_on(next, a, id) && stands_on(next, b, id) implies a == b by {
                assert(stands_on(state, a, id) && stands_on(state, b, id));
            }
        },
        Event::WindowsChanged { windows } => {
            lemma_listing_keeps_exclusive(state, windows@);
        },
        Event::WindowOpenedOrChanged { window } => {
            match window.updated() {
                Some((workspace, label)) => {
                    let id = window.id;
                    if only_on(state, workspace, id) {
                        assert forall|a: u64, b: u64, any: u64|
                            stands_on(next, a, any) && stands_on(next, b, any) implies a == b by {
                            lemma_with_window_stands(state, workspace, id, label, a, any);
                            lemma_with_window_stands(state, workspace, id, label, b, any);
                        }
                    } else {
                        let other = choose|other: u64|
                            stands_on(state, other, id) && other != workspace;
                        lemma_with_window_stands(state, workspace, id, label, other, id);
                        lemma_with_window_stands(state, workspace, id, label, workspace, id);
                        assert(stands_on(next, other, id) && stands_on(next, workspace, id));
                    }
                },
                None => {},
            }
        },
        Event::WindowClosed { id } => {
            assert forall|a: u64, b: u64, window: u64|
                stands_on(next, a, window) && stands_on(next, b, window) implies a == b by {
                assert(stands_on(state, a, window) && stands_on(state, b, window));
            }
        },
        Event::Other => {},
    }
}

/// Whatever events come, in whatever order: each window stays on at most one
/// workspace as long as each event reports each window where the state then
/// holds it.
pub proof fn lemma_events_keep_exclusive(state: State, events: Seq<Event>)
    requires
        is_exclusive(state),
        keep_places(state, events),
    ensures
        is_exclusive(replayed(state, events)),
    decreases events.len(),
{
    if events.len() > 0 {
        let earlier = events.drop_last();
        assert forall|n: int| 0 <= n < earlier.len() implies keeps_places(
            replayed(state, #[trigger] earlier.take(n)),
            earlier[n],
        ) by {
            assert(earlier.take(n) == events.take(n));
        }
        lemma_events_keep_exclusive(state, earlier);
        assert(events.take(events.len() - 1) == earlier);
        lemma_event_keeps_exclusive(replayed(state, earlier), events.last());
    }
}

} // verus!
