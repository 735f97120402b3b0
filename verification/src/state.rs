//! The tracked state as a map, and what each event makes of it.

use crate::event::{Event, Window};
use vstd::prelude::*;

verus! {

/// The windows of one workspace: window id to label.
pub type Labels = Map<u64, Seq<char>>;

/// The tracked state: workspace id to the windows on that workspace.
pub type State = Map<u64, Labels>;

/// The windows that `state` holds on `workspace`: none if it does not track
/// that workspace.
pub open spec fn windows_on(state: State, workspace: u64) -> Labels {
    if state.contains_key(workspace) {
        state[workspace]
    } else {
        Map::empty()
    }
}

/// `state` with exactly the workspaces `ids`: those it tracked keep their
/// windows, the others start empty.
pub open spec fn with_workspaces(state: State, ids: Set<u64>) -> State {
    Map::new(
        |workspace: u64| ids.contains(workspace),
        |workspace: u64| windows_on(state, workspace),
    )
}

/// `state` with the window `id` put on `workspace` under `label`. The
/// workspace is added if `state` does not track it; the window keeps whatever
/// entries it has on other workspaces.
pub open spec fn with_window(state: State, workspace: u64, id: u64, label: Seq<char>) -> State {
    state.insert(workspace, windows_on(state, workspace).insert(id, label))
}

/// `state` without the window `id`, on whatever workspace it stood.
pub open spec fn without_window(state: State, id: u64) -> State {
    state.map_values(|windows: Labels| windows.remove(id))
}

/// `state` with no windows but those whose id is in `ids`.
pub open spec fn with_only_windows(state: State, ids: Set<u64>) -> State {
    state.map_values(|windows: Labels| windows.restrict(ids))
}

/// The ids of the windows that `windows` lists.
pub open spec fn listed_ids(windows: Seq<Window>) -> Set<u64> {
    windows.map_values(|window: Window| window.id).to_set()
}

/// `state` after each window of `windows` that is tracked was put in its
/// place, the first window first.
pub open spec fn with_listed(state: State, windows: Seq<Window>) -> State
    decreases windows.len(),
{
    if windows.len() == 0 {
        state
    } else {
        let before = with_listed(state, windows.drop_last());
        match windows.last().listed() {
            Some((workspace, label)) => with_window(before, workspace, windows.last().id, label),
            None => before,
        }
    }
}

/// `state` after the compositor listed all its windows: windows that are not
/// listed are gone from every workspace, and each listed window that is
/// tracked stands in its place.
pub open spec fn with_windows(state: State, windows: Seq<Window>) -> State {
    with_listed(with_only_windows(state, listed_ids(windows)), windows)
}

/// `state` after one window was opened or has changed.
pub open spec fn with_updated(state: State, window: Window) -> State {
    match window.updated() {
        Some((workspace, label)) => with_window(state, workspace, window.id, label),
        None => state,
    }
}

/// `state` after `event`.
pub open spec fn after(state: State, event: Event) -> State {
    match event {
        Event::WorkspacesChanged { workspaces } => with_workspaces(state, workspaces@.to_set()),
        Event::WindowsChanged { windows } => with_windows(state, windows@),
        Event::WindowOpenedOrChanged { window } => with_updated(state, window),
        Event::WindowClosed { id } => without_window(state, id),
        Event::Other => state,
    }
}

/// Whether `state` tracks finitely many workspaces, with finitely many
/// windows on each.
pub open spec fn is_finite(state: State) -> bool {
    &&& state.dom().finite()
    &&& forall|workspace: u64| #[trigger]
        state.contains_key(workspace) ==> state[workspace].dom().finite()
}

/// Putting a window in its place keeps a finite state finite.
pub proof fn lemma_with_window_is_finite(state: State, workspace: u64, id: u64, label: Seq<char>)
    requires
        is_finite(state),
    ensures
        is_finite(with_window(state, workspace, id, label)),
{
    let next = with_window(state, workspace, id, label);
    assert forall|on: u64| #[trigger] next.contains_key(on) implies next[on].dom().finite() by {
        if on != workspace {
            assert(state.contains_key(on));
        }
    }
}

/// Taking in a listing, windows that are not listed left as they were, keeps
/// a finite state finite.
pub proof fn lemma_with_listed_is_finite(state: State, windows: Seq<Window>)
    requires
        is_finite(state),
    ensures
        is_finite(with_listed(state, windows)),
    decreases windows.len(),
{
    if windows.len() > 0 {
        let before = with_listed(state, windows.drop_last());
        lemma_with_listed_is_finite(state, windows.drop_last());
        match windows.last().listed() {
            Some((workspace, label)) => {
                lemma_with_window_is_finite(before, workspace, windows.last().id, label);
            },
            None => {},
        }
    }
}

/// An event keeps a finite state finite.
pub proof fn lemma_after_is_finite(state: State, event: Event)
    requires
        is_finite(state),
    ensures
        is_finite(after(state, event)),
{
    let next = after(state, event);
    match event {
        Event::WorkspacesChanged { workspaces } => {
            vstd::seq_lib::seq_to_set_is_finite(workspaces@);
            assert(next.dom() =~= workspaces@.to_set());
            assert forall|on: u64| #[trigger] next.contains_key(on) implies next[on].dom().finite(
            ) by {
                if state.contains_key(on) {
                    assert(next[on] == state[on]);
                }
            }
        },
        Event::WindowsChanged { windows } => {
            let ids = listed_ids(windows@);
            let kept = with_only_windows(state, ids);
            assert(kept.dom() =~= state.dom());
            assert forall|on: u64| #[trigger] kept.contains_key(on) implies kept[on].dom().finite(
            ) by {
                assert(state.contains_key(on));
                vstd::set_lib::lemma_set_subset_finite(state[on].dom(), kept[on].dom());
            }
            lemma_with_listed_is_finite(kept, windows@);
        },
        Event::WindowOpenedOrChanged { window } => {
            match window.updated() {
                Some((workspace, label)) => {
                    lemma_with_window_is_finite(state, workspace, window.id, label);
                },
                None => {},
            }
        },
        Event::WindowClosed { id } => {
            assert(next.dom() =~= state.dom());
            assert forall|on: u64| #[trigger] next.contains_key(on) implies next[on].dom().finite(
            ) by {
                assert(state.contains_key(on));
            }
        },
        Event::Other => {},
    }
}

/// Whether `state` holds the window `id` on `workspace`.
pub open spec fn stands_on(state: State, workspace: u64, id: u64) -> bool {
    state.contains_key(workspace) && state[workspace].contains_key(id)
}

/// Whether `window` is the window `id` and a listing of all windows puts it
/// on `workspace`.
pub open spec fn is_listed_on(window: Window, workspace: u64, id: u64) -> bool {
    window.id == id && match window.listed() {
        Some((on, _)) => on == workspace,
        None => false,
    }
}

/// Whether the listing `windows` puts the window `id` on `workspace`.
pub open spec fn lists_on(windows: Seq<Window>, workspace: u64, id: u64) -> bool {
    exists|i: int| 0 <= i < windows.len() && #[trigger] is_listed_on(windows[i], workspace, id)
}

/// A window that was put on a workspace stands there, and wherever it stood
/// before.
pub proof fn lemma_with_window_stands(
    state: State,
    workspace: u64,
    id: u64,
    label: Seq<char>,
    on: u64,
    window: u64,
)
    ensures
        stands_on(with_window(state, workspace, id, label), on, window) <==> stands_on(
            state,
            on,
            window,
        ) || (on == workspace && window == id),
{
}

/// After a listing was taken in, windows that are not listed left as they
/// were, a window stands where it stood before and where the listing puts it.
pub proof fn lemma_with_listed_stands(state: State, windows: Seq<Window>, on: u64, window: u64)
    ensures
        stands_on(with_listed(state, windows), on, window) <==> stands_on(state, on, window)
            || lists_on(windows, on, window),
    decreases windows.len(),
{
    if windows.len() > 0 {
        let earlier = windows.drop_last();
        let last = windows.last();
        lemma_with_listed_stands(state, earlier, on, window);
        if lists_on(earlier, on, window) {
            let i = choose|i: int|
                0 <= i < earlier.len() && #[trigger] is_listed_on(earlier[i], on, window);
            assert(is_listed_on(windows[i], on, window));
        }
        if is_listed_on(last, on, window) {
            assert(is_listed_on(windows[windows.len() - 1], on, window));
        }
        if lists_on(windows, on, window) {
            let i = choose|i: int|
                0 <= i < windows.len() && #[trigger] is_listed_on(windows[i], on, window);
            if i < earlier.len() {
                assert(is_listed_on(earlier[i], on, window));
            }
        }
        assert(lists_on(windows, on, window) <==> lists_on(earlier, on, window) || is_listed_on(
            last,
            on,
            window,
        ));
        match last.listed() {
            Some((workspace, label)) => {
                lemma_with_window_stands(
                    with_listed(state, earlier),
                    workspace,
                    last.id,
                    label,
                    on,
                    window,
                );
            },
            None => {},
        }
    }
}

/// After a listing of all windows a window stands where it stood before, if
/// it is listed, and where the listing puts it.
pub proof fn lemma_with_windows_stands(state: State, windows: Seq<Window>, on: u64, window: u64)
    ensures
        stands_on(with_windows(state, windows), on, window) <==> (stands_on(state, on, window)
            && listed_ids(windows).contains(window)) || lists_on(windows, on, window),
{
    lemma_with_listed_stands(with_only_windows(state, listed_ids(windows)), windows, on, window);
}

/// A window that a listing of all windows does not name stands on no
/// workspace afterwards.
pub proof fn lemma_unlisted_window_is_gone(state: State, windows: Seq<Window>, id: u64)
    requires
        !listed_ids(windows).contains(id),
    ensures
        forall|workspace: u64| !stands_on(with_windows(state, windows), workspace, id),
{
    assert forall|workspace: u64| !stands_on(with_windows(state, windows), workspace, id) by {
        lemma_with_windows_stands(state, windows, workspace, id);
        if lists_on(windows, workspace, id) {
            let i = choose|i: int|
                0 <= i < windows.len() && #[trigger] is_listed_on(windows[i], workspace, id);
            assert(windows.map_values(|window: Window| window.id)[i] == id);
        }
    }
}

/// After a listing was taken in, windows that are not listed left as they
/// were, the workspaces are those of before and those on which the listing
/// puts a window.
pub proof fn lemma_with_listed_tracks(state: State, windows: Seq<Window>, workspace: u64)
    ensures
        with_listed(state, windows).contains_key(workspace) <==> state.contains_key(workspace) || (
        exists|id: u64| lists_on(windows, workspace, id)),
    decreases windows.len(),
{
    if windows.len() > 0 {
        let earlier = windows.drop_last();
        let last = windows.last();
        lemma_with_listed_tracks(state, earlier, workspace);
        if exists|id: u64| lists_on(earlier, workspace, id) {
            let id = choose|id: u64| lists_on(earlier, workspace, id);
            let i = choose|i: int|
                0 <= i < earlier.len() && #[trigger] is_listed_on(earlier[i], workspace, id);
            assert(is_listed_on(windows[i], workspace, id));
            assert(lists_on(windows, workspace, id));
        }
        if is_listed_on(last, workspace, last.id) {
            assert(is_listed_on(windows[windows.len() - 1], workspace, last.id));
            assert(lists_on(windows, workspace, last.id));
        }
        if exists|id: u64| lists_on(windows, workspace, id) {
            let id = choose|id: u64| lists_on(windows, workspace, id);
            let i = choose|i: int|
                0 <= i < windows.len() && #[trigger] is_listed_on(windows[i], workspace, id);
            if i < earlier.len() {
                assert(is_listed_on(earlier[i], workspace, id));
                assert(lists_on(earlier, workspace, id));
            } else {
                assert(is_listed_on(last, workspace, last.id));
            }
        }
    } else {
        assert forall|id: u64| !lists_on(windows, workspace, id) by {}
    }
}

/// The workspaces that are tracked after an event: those that the event
/// names, where it tells what the workspaces are; else those of before, and
/// the one on which the event puts a window.
pub proof fn lemma_after_tracks(state: State, event: Event, workspace: u64)
    ensures
        after(state, event).contains_key(workspace) <==> match event {
            Event::WorkspacesChanged { workspaces } => workspaces@.contains(workspace),
            Event::WindowsChanged { windows } => state.contains_key(workspace) || (exists|id: u64|
                lists_on(windows@, workspace, id)),
            Event::WindowOpenedOrChanged { window } => state.contains_key(workspace) || (
            match window.updated() {
                Some((on, _)) => on == workspace,
                None => false,
            }),
            _ => state.contains_key(workspace),
        },
{
    match event {
        Event::WindowsChanged { windows } => {
            lemma_with_listed_tracks(
                with_only_windows(state, listed_ids(windows@)),
                windows@,
                workspace,
            );
        },
        _ => {},
    }
}

/// A listing that does not put a window on a workspace leaves the label that
/// the window has there as it is.
pub proof fn lemma_with_listed_keeps_label(
    state: State,
    windows: Seq<Window>,
    on: u64,
    window: u64,
)
    requires
        stands_on(state, on, window),
        !lists_on(windows, on, window),
    ensures
        stands_on(with_listed(state, windows), on, window),
        with_listed(state, windows)[on][window] == state[on][window],
    decreases windows.len(),
{
    if windows.len() > 0 {
        let earlier = windows.drop_last();
        let last = windows.last();
        if lists_on(earlier, on, window) {
            let i = choose|i: int|
                0 <= i < earlier.len() && #[trigger] is_listed_on(earlier[i], on, window);
            assert(is_listed_on(windows[i], on, window));
        }
        assert(!is_listed_on(windows[windows.len() - 1], on, window));
        lemma_with_listed_keeps_label(state, earlier, on, window);
    }
}

/// Whether entry `i` of the listing `windows` is the last that puts the window
/// `id` on `workspace`.
pub open spec fn is_last_on(windows: Seq<Window>, i: int, workspace: u64, id: u64) -> bool {
    &&& 0 <= i < windows.len()
    &&& is_listed_on(windows[i], workspace, id)
    &&& forall|j: int|
        i < j < windows.len() ==> !#[trigger] is_listed_on(windows[j], workspace, id)
}

/// The label under which a listing of all windows puts `window`.
pub open spec fn listed_label(window: Window) -> Seq<char> {
    match window.listed() {
        Some((_, label)) => label,
        None => Seq::empty(),
    }
}

/// Where a listing puts a window on a workspace, the window has the label of
/// the last entry that does so.
pub proof fn lemma_with_listed_sets_label(
    state: State,
    windows: Seq<Window>,
    i: int,
    on: u64,
    window: u64,
)
    requires
        is_last_on(windows, i, on, window),
    ensures
        stands_on(with_listed(state, windows), on, window),
        with_listed(state, windows)[on][window] == listed_label(windows[i]),
    decreases windows.len(),
{
    let earlier = windows.drop_last();
    if i < windows.len() - 1 {
        assert forall|j: int| i < j < earlier.len() implies !#[trigger] is_listed_on(
            earlier[j],
            on,
            window,
        ) by {
            assert(earlier[j] == windows[j]);
        }
        assert(earlier[i] == windows[i]);
        lemma_with_listed_sets_label(state, earlier, i, on, window);
        assert(!is_listed_on(windows[windows.len() - 1], on, window));
    }
}

/// The last entry before `end` that puts the window on the workspace.
proof fn last_listing(windows: Seq<Window>, on: u64, window: u64, end: int) -> (last: int)
    requires
        0 <= end <= windows.len(),
        exists|i: int| 0 <= i < end && #[trigger] is_listed_on(windows[i], on, window),
    ensures
        0 <= last < end,
        is_listed_on(windows[last], on, window),
        forall|j: int| last < j < end ==> !#[trigger] is_listed_on(windows[j], on, window),
    decreases end,
{
    if is_listed_on(windows[end - 1], on, window) {
        end - 1
    } else {
        let i = choose|i: int| 0 <= i < end && #[trigger] is_listed_on(windows[i], on, window);
        assert(i < end - 1);
        last_listing(windows, on, window, end - 1)
    }
}

/// After a listing of all windows, a window that the listing puts on a
/// workspace has there the label of the last entry that does so, and a listed
/// window has elsewhere the label that it had.
pub proof fn lemma_with_windows_label(state: State, windows: Seq<Window>, on: u64, window: u64)
    requires
        stands_on(with_windows(state, windows), on, window),
    ensures
        lists_on(windows, on, window) ==> exists|i: int| #[trigger]
            is_last_on(windows, i, on, window) && with_windows(state, windows)[on][window]
                == listed_label(windows[i]),
        !lists_on(windows, on, window) ==> with_windows(state, windows)[on][window]
            == state[on][window],
{
    let kept = with_only_windows(state, listed_ids(windows));
    lemma_with_windows_stands(state, windows, on, window);
    if lists_on(windows, on, window) {
        let last = last_listing(windows, on, window, windows.len() as int);
        assert(is_last_on(windows, last, on, window));
        lemma_with_listed_sets_label(kept, windows, last, on, window);
    } else {
        lemma_with_listed_keeps_label(kept, windows, on, window);
    }
}

} // verus!
