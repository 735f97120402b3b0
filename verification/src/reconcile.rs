//! Workspace names: the commands that bring the compositor's workspace names
//! in line with the tracked state.

use crate::order::{ascending, is_ascending, lemma_ascending, lemma_ascending_is};
use crate::state::{windows_on, Labels, State};
use crate::tracker::Tracker;
use vstd::prelude::*;
use vstd::string::*;

verus! {

/// Stands between the labels of a workspace's windows in its name.
pub const SEPARATOR: char = '|';

/// A command for the compositor.
#[derive(Debug, PartialEq, Eq)]
pub enum Command {
    /// Give `workspace` the name `name`.
    SetWorkspaceName { workspace: u64, name: String },
    /// Take the name of `workspace` away.
    UnsetWorkspaceName { workspace: u64 },
}

/// A command, with its name as a sequence of characters.
pub enum CommandView {
    /// Give `workspace` the name `name`.
    SetWorkspaceName { workspace: u64, name: Seq<char> },
    /// Take the name of `workspace` away.
    UnsetWorkspaceName { workspace: u64 },
}

impl View for Command {
    type V = CommandView;

    open spec fn view(&self) -> CommandView {
        match self {
            Command::SetWorkspaceName { workspace, name } => CommandView::SetWorkspaceName {
                workspace: *workspace,
                name: name@,
            },
            Command::UnsetWorkspaceName { workspace } => CommandView::UnsetWorkspaceName {
                workspace: *workspace,
            },
        }
    }
}

impl Clone for Command {
    fn clone(&self) -> (copy: Command)
        ensures
            copy@ == self@,
    {
        match self {
            Command::SetWorkspaceName { workspace, name } => Command::SetWorkspaceName {
                workspace: *workspace,
                name: name.clone(),
            },
            Command::UnsetWorkspaceName { workspace } => Command::UnsetWorkspaceName {
                workspace: *workspace,
            },
        }
    }
}

impl CommandView {
    /// The workspace that the command is about.
    pub open spec fn workspace(self) -> u64 {
        match self {
            CommandView::SetWorkspaceName { workspace, .. } => workspace,
            CommandView::UnsetWorkspaceName { workspace } => workspace,
        }
    }
}

/// The commands of `commands`, each by its view.
pub open spec fn views(commands: Seq<Command>) -> Seq<CommandView> {
    commands.map_values(|command: Command| command@)
}

/// The workspaces that `commands` are about, in their order.
pub open spec fn workspaces_of(commands: Seq<CommandView>) -> Seq<u64> {
    commands.map_values(|command: CommandView| command.workspace())
}

/// `parts` in one text, with `SEPARATOR` between each two.
pub open spec fn joined(parts: Seq<Seq<char>>) -> Seq<char>
    decreases parts.len(),
{
    if parts.len() == 0 {
        Seq::empty()
    } else if parts.len() == 1 {
        parts[0]
    } else {
        joined(parts.drop_last()).push(SEPARATOR) + parts.last()
    }
}

/// The labels of `windows`, that of the window with the smallest id first.
pub open spec fn labels_in_order(windows: Labels) -> Seq<Seq<char>> {
    ascending(windows.dom()).map_values(|id: u64| windows[id])
}

/// The name of a workspace with the windows `windows`: their labels, that of
/// the window with the smallest id first, with `SEPARATOR` between them.
pub open spec fn name_of(windows: Labels) -> Seq<char> {
    joined(labels_in_order(windows))
}

/// The command that gives `workspace` the name of its windows `windows`, or
/// takes its name away where that name is empty.
pub open spec fn command_for(workspace: u64, windows: Labels) -> CommandView {
    if name_of(windows).len() == 0 {
        CommandView::UnsetWorkspaceName { workspace }
    } else {
        CommandView::SetWorkspaceName { workspace, name: name_of(windows) }
    }
}

/// The commands that bring the workspace names in line with `state`: one for
/// each workspace, that for the workspace with the smallest id first.
pub open spec fn reconciliation(state: State) -> Seq<CommandView> {
    ascending(state.dom()).map_values(|workspace: u64| command_for(workspace, state[workspace]))
}

/// The commands that take the name of every workspace of `state` away: one
/// for each workspace, that for the workspace with the smallest id first.
pub open spec fn sweep(state: State) -> Seq<CommandView> {
    ascending(state.dom()).map_values(
        |workspace: u64| CommandView::UnsetWorkspaceName { workspace },
    )
}

/// A reconciliation has exactly one command for each workspace, in ascending
/// order of the workspaces.
pub proof fn lemma_reconciliation_covers(state: State)
    requires
        state.dom().finite(),
    ensures
        workspaces_of(reconciliation(state)) == ascending(state.dom()),
        is_ascending(workspaces_of(reconciliation(state))),
        workspaces_of(reconciliation(state)).no_duplicates(),
        workspaces_of(reconciliation(state)).to_set() == state.dom(),
        reconciliation(state).len() == state.dom().len(),
{
    lemma_ascending(state.dom());
    assert(workspaces_of(reconciliation(state)) =~= ascending(state.dom()));
}

/// A sweep has exactly one command for each workspace, in ascending order of
/// the workspaces, and each takes a name away.
pub proof fn lemma_sweep_covers(state: State)
    requires
        state.dom().finite(),
    ensures
        workspaces_of(sweep(state)) == ascending(state.dom()),
        is_ascending(workspaces_of(sweep(state))),
        workspaces_of(sweep(state)).no_duplicates(),
        workspaces_of(sweep(state)).to_set() == state.dom(),
        sweep(state).len() == state.dom().len(),
        forall|i: int|
            0 <= i < sweep(state).len() ==> #[trigger] sweep(state)[i]
                is UnsetWorkspaceName,
{
    lemma_ascending(state.dom());
    assert(workspaces_of(sweep(state)) =~= ascending(state.dom()));
}

/// A name is empty only where there is no label, or one label that is empty.
pub proof fn lemma_joined_is_empty(parts: Seq<Seq<char>>)
    ensures
        joined(parts).len() == 0 <==> parts.len() == 0 || (parts.len() == 1 && parts[0].len()
            == 0),
{
}

/// A workspace without windows has its name taken away.
pub proof fn lemma_empty_workspace_is_unset(workspace: u64)
    ensures
        command_for(workspace, Map::empty()) == (CommandView::UnsetWorkspaceName { workspace }),
{
    let none = Seq::<u64>::empty();
    assert(none.to_set() =~= Map::<u64, Seq<char>>::empty().dom());
    lemma_ascending_is(none);
}

/// The name of `workspace` as `state` has it: empty where `state` does not
/// track the workspace.
pub fn workspace_name(state: &Tracker, workspace: u64) -> (name: String)
    ensures
        name@ == name_of(windows_on(state@, workspace)),
{
    let ghost windows = windows_on(state@, workspace);
    let ghost labels = labels_in_order(windows);
    let ids = state.window_ids(workspace);
    proof {
        state.lemma_is_finite();
        lemma_ascending(windows.dom());
    }
    let mut name = String::new();
    let mut i: usize = 0;
    while i < ids.len()
        invariant
            i <= ids@.len(),
            windows == windows_on(state@, workspace),
            labels == labels_in_order(windows),
            ids@ == ascending(windows.dom()),
            ids@.to_set() == windows.dom(),
            name@ == joined(labels.take(i as int)),
        decreases ids@.len() - i,
    {
        if i > 0 {
            name.append("|");
        }
        assert(ids@.to_set().contains(ids@[i as int]));
        if let Some(label) = state.label(workspace, ids[i]) {
            name.append(label.as_str());
        }
        i += 1;
        proof {
            reveal_strlit("|");
            let seen = labels.take(i as int);
            assert(seen.drop_last() == labels.take(i - 1));
            assert(seen.last() == windows[ids@[i - 1]]);
            assert("|"@ =~= seq![SEPARATOR]);
            assert(name@ =~= joined(seen));
        }
    }
    assert(labels.take(i as int) == labels);
    name
}

/// The commands that bring the workspace names in line with `state`: for each
/// workspace, in ascending order, one that sets its name, or one that takes
/// the name away where it would be empty.
pub fn reconcile(state: &Tracker) -> (commands: Vec<Command>)
    ensures
        views(commands@) == reconciliation(state@),
{
    let ids = state.workspace_ids();
    proof {
        state.lemma_is_finite();
        lemma_ascending(state@.dom());
    }
    let mut commands: Vec<Command> = Vec::new();
    let mut i: usize = 0;
    while i < ids.len()
        invariant
            i <= ids@.len(),
            ids@ == ascending(state@.dom()),
            ids@.to_set() == state@.dom(),
            views(commands@) == reconciliation(state@).take(i as int),
        decreases ids@.len() - i,
    {
        let workspace = ids[i];
        assert(ids@.to_set().contains(ids@[i as int]));
        let name = workspace_name(state, workspace);
        let command = if name.as_str().is_empty() {
            Command::UnsetWorkspaceName { workspace }
        } else {
            Command::SetWorkspaceName { workspace, name }
        };
        assert(command@ == command_for(workspace, state@[workspace]));
        let ghost had = commands@;
        commands.push(command);
        i += 1;
        proof {
            let goal = reconciliation(state@).take(i as int);
            assert(views(had).len() == i - 1);
            assert forall|j: int| 0 <= j < i implies views(commands@)[j] == goal[j] by {
                if j < i - 1 {
                    assert(views(had)[j] == reconciliation(state@).take(i - 1)[j]);
                }
            }
            assert(views(commands@) =~= goal);
        }
    }
    assert(reconciliation(state@).take(i as int) == reconciliation(state@));
    commands
}

/// The commands that take the name of every workspace of `state` away, in
/// ascending order of the workspaces.
pub fn unset_all(state: &Tracker) -> (commands: Vec<Command>)
    ensures
        views(commands@) == sweep(state@),
{
    let ids = state.workspace_ids();
    let mut commands: Vec<Command> = Vec::new();
    let mut i: usize = 0;
    while i < ids.len()
        invariant
            i <= ids@.len(),
            ids@ == ascending(state@.dom()),
            views(commands@) == sweep(state@).take(i as int),
        decreases ids@.len() - i,
    {
        let ghost had = commands@;
        commands.push(Command::UnsetWorkspaceName { workspace: ids[i] });
        i += 1;
        proof {
            let goal = sweep(state@).take(i as int);
            assert(views(had).len() == i - 1);
            assert forall|j: int| 0 <= j < i implies views(commands@)[j] == goal[j] by {
                if j < i - 1 {
                    assert(views(had)[j] == sweep(state@).take(i - 1)[j]);
                }
            }
            assert(views(commands@) =~= goal);
        }
    }
    assert(sweep(state@).take(i as int) == sweep(state@));
    commands
}

} // verus!
