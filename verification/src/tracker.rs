//! The tracker: the state of the workspaces, kept up to date event by event.

use crate::event::{Event, Window};
use crate::order::{ascending, ascending_keys, is_ascending, lemma_ascending_is};
use crate::state::{
    after, is_finite, windows_on, with_listed, with_only_windows, with_updated, with_window,
    with_windows, with_workspaces, without_window, Labels, State,
};
use crate::title::normalize;
use std::collections::BTreeMap;
use vstd::prelude::*;

verus! {

/// The labels that a workspace's map holds.
spec fn labels_of(windows: BTreeMap<u64, String>) -> Labels {
    windows@.map_values(|label: String| label@)
}

/// Whether `id` is among `ids`.
fn contains_id(ids: &Vec<u64>, id: u64) -> (found: bool)
    ensures
        found == ids@.contains(id),
{
    let mut i: usize = 0;
    while i < ids.len()
        invariant
            i <= ids@.len(),
            forall|j: int| 0 <= j < i ==> ids@[j] != id,
        decreases ids@.len() - i,
    {
        if ids[i] == id {
            return true;
        }
        i += 1;
    }
    false
}

/// Drops from `map` every key that is not among `ids`.
fn retain_listed<V>(map: &mut BTreeMap<u64, V>, ids: &Vec<u64>)
    ensures
        final(map)@ == old(map)@.restrict(ids@.to_set()),
{
    let ghost before = map@;
    let keys = ascending_keys(map);
    let mut i: usize = 0;
    while i < keys.len()
        invariant
            i <= keys@.len(),
            is_ascending(keys@),
            keys@.to_set() == before.dom(),
            forall|key: u64| #[trigger]
                map@.contains_key(key) ==> before.contains_key(key) && map@[key] == before[key],
            forall|j: int|
                0 <= j < i ==> (map@.contains_key(#[trigger] keys@[j]) <==> ids@.contains(
                    keys@[j],
                )),
            forall|j: int| i <= j < keys@.len() ==> map@.contains_key(#[trigger] keys@[j]),
        decreases keys@.len() - i,
    {
        let key = keys[i];
        let ghost had = map@;
        if !contains_id(ids, key) {
            map.remove(&key);
            assert(map@ == had.remove(key));
        }
        i += 1;
    }
    proof {
        let goal = before.restrict(ids@.to_set());
        assert forall|key: u64| map@.contains_key(key) <==> goal.contains_key(key) by {
            if before.contains_key(key) {
                assert(keys@.to_set().contains(key));
                let j = choose|j: int| 0 <= j < keys@.len() && keys@[j] == key;
                assert(keys@[j] == key);
            }
        }
        assert(map@ =~= goal);
    }
}

/// The ids of `windows`, in their order.
fn ids_of(windows: &Vec<Window>) -> (ids: Vec<u64>)
    ensures
        ids@ == windows@.map_values(|window: Window| window.id),
{
    let mut ids: Vec<u64> = Vec::new();
    let mut i: usize = 0;
    while i < windows.len()
        invariant
            i <= windows@.len(),
            ids@ == windows@.take(i as int).map_values(|window: Window| window.id),
        decreases windows@.len() - i,
    {
        ids.push(windows[i].id);
        i += 1;
        assert(ids@ =~= windows@.take(i as int).map_values(|window: Window| window.id));
    }
    assert(windows@.take(i as int) == windows@);
    ids
}

/// The state of a window manager's workspaces, kept up to date event by event.
pub struct Tracker {
    workspaces: BTreeMap<u64, BTreeMap<u64, String>>,
}

impl View for Tracker {
    type V = State;

    closed spec fn view(&self) -> State {
        self.workspaces@.map_values(|windows: BTreeMap<u64, String>| labels_of(windows))
    }
}

impl Tracker {
    /// A tracker that knows of no workspace.
    pub fn new() -> (tracker: Tracker)
        ensures
            tracker@ == Map::<u64, Labels>::empty(),
    {
        let tracker = Tracker { workspaces: BTreeMap::new() };
        assert(tracker@ =~= Map::<u64, Labels>::empty());
        tracker
    }

    /// Puts the window `id` on `workspace` under `label`.
    fn place(&mut self, workspace: u64, id: u64, label: String)
        ensures
            final(self)@ == with_window(old(self)@, workspace, id, label@),
    {
        let mut windows = match self.workspaces.remove(&workspace) {
            Some(windows) => windows,
            None => BTreeMap::new(),
        };
        windows.insert(id, label);
        self.workspaces.insert(workspace, windows);
        proof {
            let goal = with_window(old(self)@, workspace, id, label@);
            assert(labels_of(windows) =~= windows_on(old(self)@, workspace).insert(id, label@));
            assert(self@ =~= goal);
        }
    }

    /// Takes in that one window was opened or has changed.
    pub fn on_window_opened_or_changed(&mut self, window: &Window)
        ensures
            final(self)@ == with_updated(old(self)@, *window),
    {
        if let Some(workspace) = window.workspace_id {
            match &window.app_id {
                Some(app_id) => {
                    self.place(workspace, window.id, normalize(app_id.as_str()));
                },
                None => {
                    if let Some(title) = &window.title {
                        self.place(workspace, window.id, normalize(title.as_str()));
                    }
                },
            }
        }
    }

    /// Takes in that the window `id` was closed.
    pub fn on_window_closed(&mut self, id: u64)
        ensures
            final(self)@ == without_window(old(self)@, id),
    {
        let ghost before = self.workspaces@;
        let keys = ascending_keys(&self.workspaces);
        let mut i: usize = 0;
        while i < keys.len()
            invariant
                i <= keys@.len(),
                is_ascending(keys@),
                is_ascending(keys@),
            keys@.to_set() == before.dom(),
                self.workspaces@.dom() == before.dom(),
                forall|j: int|
                    0 <= j < i ==> labels_of(self.workspaces@[#[trigger] keys@[j]]) == labels_of(
                        before[keys@[j]],
                    ).remove(id),
                forall|j: int|
                    i <= j < keys@.len() ==> self.workspaces@[#[trigger] keys@[j]]
                        == before[keys@[j]],
            decreases keys@.len() - i,
        {
            let key = keys[i];
            assert(keys@.to_set().contains(keys@[i as int]));
            if let Some(mut windows) = self.workspaces.remove(&key) {
                let ghost had = labels_of(windows);
                windows.remove(&id);
                assert(labels_of(windows) =~= had.remove(id));
                self.workspaces.insert(key, windows);
            }
            i += 1;
        }
        proof {
            let goal = without_window(old(self)@, id);
            assert forall|workspace: u64| self@.contains_key(workspace) implies self@[workspace]
                == goal[workspace] by {
                assert(keys@.to_set().contains(workspace));
                let j = choose|j: int| 0 <= j < keys@.len() && keys@[j] == workspace;
                assert(keys@[j] == workspace);
            }
            assert(self@ =~= goal);
        }
    }

    /// Drops every window whose id is not among `ids`.
    fn keep_only(&mut self, ids: &Vec<u64>)
        ensures
            final(self)@ == with_only_windows(old(self)@, ids@.to_set()),
    {
        let ghost before = self.workspaces@;
        let keys = ascending_keys(&self.workspaces);
        let mut i: usize = 0;
        while i < keys.len()
            invariant
                i <= keys@.len(),
                is_ascending(keys@),
                is_ascending(keys@),
            keys@.to_set() == before.dom(),
                self.workspaces@.dom() == before.dom(),
                forall|j: int|
                    0 <= j < i ==> labels_of(self.workspaces@[#[trigger] keys@[j]]) == labels_of(
                        before[keys@[j]],
                    ).restrict(ids@.to_set()),
                forall|j: int|
                    i <= j < keys@.len() ==> self.workspaces@[#[trigger] keys@[j]]
                        == before[keys@[j]],
            decreases keys@.len() - i,
        {
            let key = keys[i];
            assert(keys@.to_set().contains(keys@[i as int]));
            if let Some(mut windows) = self.workspaces.remove(&key) {
                let ghost had = labels_of(windows);
                retain_listed(&mut windows, ids);
                assert(labels_of(windows) =~= had.restrict(ids@.to_set()));
                self.workspaces.insert(key, windows);
            }
            i += 1;
        }
        proof {
            let goal = with_only_windows(old(self)@, ids@.to_set());
            assert forall|workspace: u64| self@.contains_key(workspace) implies self@[workspace]
                == goal[workspace] by {
                assert(keys@.to_set().contains(workspace));
                let j = choose|j: int| 0 <= j < keys@.len() && keys@[j] == workspace;
                assert(keys@[j] == workspace);
            }
            assert(self@ =~= goal);
        }
    }

    /// Takes in that the workspaces are now exactly `ids`: a workspace that is
    /// not among them is dropped with its windows, one that is new starts
    /// empty.
    pub fn on_workspaces_changed(&mut self, ids: &Vec<u64>)
        ensures
            final(self)@ == with_workspaces(old(self)@, ids@.to_set()),
    {
        let ghost before = self.workspaces@;
        retain_listed(&mut self.workspaces, ids);
        let ghost kept = self.workspaces@;
        let mut i: usize = 0;
        while i < ids.len()
            invariant
                i <= ids@.len(),
                self.workspaces@.dom() == kept.dom() + ids@.take(i as int).to_set(),
                forall|workspace: u64| #[trigger]
                    kept.contains_key(workspace) ==> self.workspaces@[workspace]
                        == kept[workspace],
                forall|workspace: u64| #[trigger]
                    self.workspaces@.contains_key(workspace) && !kept.contains_key(workspace)
                        ==> labels_of(self.workspaces@[workspace]) == Map::<
                        u64,
                        Seq<char>,
                    >::empty(),
            decreases ids@.len() - i,
        {
            let id = ids[i];
            let ghost seen = ids@.take(i as int);
            if !self.workspaces.contains_key(&id) {
                let empty: BTreeMap<u64, String> = BTreeMap::new();
                assert(labels_of(empty) =~= Map::<u64, Seq<char>>::empty());
                self.workspaces.insert(id, empty);
            }
            i += 1;
            proof {
                let next = ids@.take(i as int);
                assert(next =~= seen.push(id));
                assert forall|workspace: u64|
                    next.to_set().contains(workspace) <==> seen.to_set().insert(id).contains(
                        workspace,
                    ) by {
                    if seen.contains(workspace) {
                        let j = choose|j: int| 0 <= j < seen.len() && seen[j] == workspace;
                        assert(next[j] == workspace);
                    }
                    if workspace == id {
                        assert(next[i - 1] == workspace);
                    }
                    if next.contains(workspace) {
                        let j = choose|j: int| 0 <= j < next.len() && next[j] == workspace;
                        if j < i - 1 {
                            assert(seen[j] == workspace);
                        }
                    }
                }
                assert(next.to_set() =~= seen.to_set().insert(id));
                assert(self.workspaces@.dom() =~= kept.dom() + next.to_set());
            }
        }
        proof {
            let goal = with_workspaces(old(self)@, ids@.to_set());
            assert(ids@.take(i as int) == ids@);
            assert(self@.dom() =~= self.workspaces@.dom());
            assert(old(self)@.dom() =~= before.dom());
            assert(self@.dom() =~= goal.dom());
            assert forall|workspace: u64| self@.contains_key(workspace) implies self@[workspace]
                == goal[workspace] by {
                if before.contains_key(workspace) {
                    assert(kept.contains_key(workspace));
                    assert(self.workspaces@[workspace] == before[workspace]);
                } else {
                    assert(!kept.contains_key(workspace));
                    assert(self.workspaces@.contains_key(workspace));
                }
            }
            assert(self@ =~= goal);
        }
    }

    /// Takes in that the windows are now exactly `windows`: a window that is
    /// not among them is dropped from every workspace, and each of them that
    /// has a workspace and an application id is put on that workspace.
    pub fn on_windows_changed(&mut self, windows: &Vec<Window>)
        ensures
            final(self)@ == with_windows(old(self)@, windows@),
    {
        let ids = ids_of(windows);
        self.keep_only(&ids);
        let ghost kept = self@;
        let mut i: usize = 0;
        while i < windows.len()
            invariant
                i <= windows@.len(),
                self@ == with_listed(kept, windows@.take(i as int)),
            decreases windows@.len() - i,
        {
            let window = &windows[i];
            if let Some(workspace) = window.workspace_id {
                if let Some(app_id) = &window.app_id {
                    self.place(workspace, window.id, normalize(app_id.as_str()));
                }
            }
            i += 1;
            proof {
                let seen = windows@.take(i as int);
                assert(seen.drop_last() == windows@.take(i - 1));
                assert(seen.last() == *window);
            }
        }
        assert(windows@.take(i as int) == windows@);
    }

    /// Takes in one event.
    pub fn apply(&mut self, event: &Event)
        ensures
            final(self)@ == after(old(self)@, *event),
    {
        match event {
            Event::WorkspacesChanged { workspaces } => self.on_workspaces_changed(workspaces),
            Event::WindowsChanged { windows } => self.on_windows_changed(windows),
            Event::WindowOpenedOrChanged { window } => self.on_window_opened_or_changed(window),
            Event::WindowClosed { id } => self.on_window_closed(*id),
            Event::Other => {},
        }
    }

    /// Whether `workspace` is tracked.
    pub fn tracks(&self, workspace: u64) -> (known: bool)
        ensures
            known == self@.contains_key(workspace),
    {
        self.workspaces.contains_key(&workspace)
    }

    /// The tracked workspaces, smallest id first.
    pub fn workspace_ids(&self) -> (ids: Vec<u64>)
        ensures
            ids@ == ascending(self@.dom()),
    {
        assert(self@.dom() =~= self.workspaces@.dom());
        ascending_keys(&self.workspaces)
    }

    /// The windows on `workspace`, smallest id first: none if the workspace
    /// is not tracked.
    pub fn window_ids(&self, workspace: u64) -> (ids: Vec<u64>)
        ensures
            ids@ == ascending(windows_on(self@, workspace).dom()),
    {
        match self.workspaces.get(&workspace) {
            Some(windows) => {
                assert(labels_of(*windows).dom() =~= windows@.dom());
                ascending_keys(windows)
            },
            None => {
                let ids: Vec<u64> = Vec::new();
                proof {
                    assert(ids@.to_set() =~= windows_on(self@, workspace).dom());
                    lemma_ascending_is(ids@);
                }
                ids
            },
        }
    }

    /// The label under which `window` stands on `workspace`, if it does.
    pub fn label(&self, workspace: u64, window: u64) -> (label: Option<&String>)
        ensures
            label is Some <==> windows_on(self@, workspace).contains_key(window),
            label matches Some(text) ==> text@ == self@[workspace][window],
    {
        match self.workspaces.get(&workspace) {
            Some(windows) => windows.get(&window),
            None => None,
        }
    }

    /// What is tracked is finite.
    pub proof fn lemma_is_finite(&self)
        ensures
            is_finite(self@),
    {
        assert(self@.dom() =~= self.workspaces@.dom());
        assert forall|workspace: u64| #[trigger]
            self@.contains_key(workspace) implies self@[workspace].dom().finite() by {
            assert(self@[workspace].dom() =~= self.workspaces@[workspace]@.dom());
        }
    }
}

} // verus!
