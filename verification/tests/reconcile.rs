use workspace_labels::reconcile::{reconcile, unset_all, workspace_name, Command};
use workspace_labels::event::Window;
use workspace_labels::tracker::Tracker;

fn app(id: u64, workspace: u64, app_id: &str) -> Window {
    Window { id, workspace_id: Some(workspace), app_id: Some(String::from(app_id)), title: None }
}

fn set(workspace: u64, name: &str) -> Command {
    Command::SetWorkspaceName { workspace, name: String::from(name) }
}

fn unset(workspace: u64) -> Command {
    Command::UnsetWorkspaceName { workspace }
}

#[test]
fn labels_are_joined_in_ascending_order_of_the_windows() {
    let mut tracker = Tracker::new();
    tracker.on_window_opened_or_changed(&app(5, 1, "foo"));
    tracker.on_window_opened_or_changed(&app(2, 1, "bar"));
    assert_eq!(workspace_name(&tracker, 1), "bar|foo");
    assert_eq!(reconcile(&tracker), vec![set(1, "bar|foo")]);
}

#[test]
fn empty_workspace_is_unset() {
    let mut tracker = Tracker::new();
    tracker.on_workspaces_changed(&vec![3]);
    assert_eq!(workspace_name(&tracker, 3), "");
    assert_eq!(reconcile(&tracker), vec![unset(3)]);
}

#[test]
fn no_workspace_no_command() {
    let tracker = Tracker::new();
    assert_eq!(reconcile(&tracker), vec![]);
    assert_eq!(unset_all(&tracker), vec![]);
}

#[test]
fn single_window_gives_its_label() {
    let mut tracker = Tracker::new();
    tracker.on_window_opened_or_changed(&app(5, 1, "org.mozilla.firefox"));
    assert_eq!(reconcile(&tracker), vec![set(1, "org.mozi~")]);
}

#[test]
fn each_workspace_gets_one_command_in_ascending_order() {
    let mut tracker = Tracker::new();
    tracker.on_workspaces_changed(&vec![30, 10, 20]);
    tracker.on_window_opened_or_changed(&app(1, 30, "foot"));
    tracker.on_window_opened_or_changed(&app(2, 10, "mpv"));
    tracker.on_window_opened_or_changed(&app(3, 10, "vlc"));
    assert_eq!(
        reconcile(&tracker),
        vec![set(10, "mpv|vlc"), unset(20), set(30, "foot")]
    );
}

#[test]
fn reconciling_twice_gives_the_same_commands() {
    let mut tracker = Tracker::new();
    tracker.on_workspaces_changed(&vec![1, 2]);
    tracker.on_window_opened_or_changed(&app(1, 2, "foot"));
    assert_eq!(reconcile(&tracker), reconcile(&tracker));
}

#[test]
fn one_window_with_an_empty_label_is_unset() {
    let mut tracker = Tracker::new();
    tracker.on_window_opened_or_changed(&app(1, 1, ""));
    assert_eq!(reconcile(&tracker), vec![unset(1)]);
}

#[test]
fn two_windows_with_empty_labels_give_the_separator() {
    let mut tracker = Tracker::new();
    tracker.on_window_opened_or_changed(&app(1, 1, ""));
    tracker.on_window_opened_or_changed(&app(2, 1, "              "));
    assert_eq!(reconcile(&tracker), vec![set(1, "|")]);
}

#[test]
fn empty_label_keeps_its_place_in_the_name() {
    let mut tracker = Tracker::new();
    tracker.on_window_opened_or_changed(&app(1, 1, ""));
    tracker.on_window_opened_or_changed(&app(2, 1, "foot"));
    tracker.on_window_opened_or_changed(&app(3, 1, ""));
    assert_eq!(workspace_name(&tracker, 1), "|foot|");
}

#[test]
fn name_of_a_workspace_that_is_not_tracked_is_empty() {
    let mut tracker = Tracker::new();
    tracker.on_window_opened_or_changed(&app(1, 1, "foot"));
    assert_eq!(workspace_name(&tracker, 2), "");
}

#[test]
fn unset_all_takes_every_name_away() {
    let mut tracker = Tracker::new();
    tracker.on_workspaces_changed(&vec![2, 1]);
    tracker.on_window_opened_or_changed(&app(1, 2, "foot"));
    assert_eq!(unset_all(&tracker), vec![unset(1), unset(2)]);
}

#[test]
fn command_clone_is_equal() {
    let command = set(4, "foot|mpv");
    assert_eq!(command.clone(), command);
    assert_eq!(unset(4).clone(), unset(4));
    assert_ne!(unset(4), unset(5));
}
