use workspace_labels::reconcile::Command;
use workspace_labels::session::{Action, Failure, Input, Phase, Session};
use workspace_labels::event::{Event, Window};

fn app(id: u64, workspace: u64, app_id: &str) -> Window {
    Window { id, workspace_id: Some(workspace), app_id: Some(String::from(app_id)), title: None }
}

fn set(workspace: u64, name: &str) -> Action {
    Action::Send(Command::SetWorkspaceName { workspace, name: String::from(name) })
}

fn unset(workspace: u64) -> Action {
    Action::Send(Command::UnsetWorkspaceName { workspace })
}

fn streaming_with_two_workspaces() -> Session {
    let mut session = Session::new();
    session.step(Input::Connected(Ok(())));
    session.step(Input::Message(Some(Event::WorkspacesChanged { workspaces: vec![1, 2] })));
    session.step(Input::Sent(true));
    session.step(Input::Sent(true));
    session.step(Input::Message(Some(Event::WindowOpenedOrChanged { window: app(7, 2, "foot") })));
    session.step(Input::Sent(true));
    session.step(Input::Sent(true));
    session
}

#[test]
fn session_starts_by_connecting() {
    let session = Session::new();
    assert_eq!(session.phase(), Phase::Connecting);
    assert_eq!(session.failure(), None);
    assert_eq!(session.next_action(), Action::Connect);
    assert_eq!(session.tracker().workspace_ids(), vec![]);
}

#[test]
fn connected_session_waits_for_a_message() {
    let mut session = Session::new();
    session.step(Input::Connected(Ok(())));
    assert_eq!(session.phase(), Phase::Streaming);
    assert_eq!(session.next_action(), Action::Receive);
}

#[test]
fn failure_to_connect_ends_the_session() {
    for failure in [Failure::Connection, Failure::Handshake, Failure::ShutdownSignal] {
        let mut session = Session::new();
        session.step(Input::Connected(Err(failure)));
        assert_eq!(session.phase(), Phase::Terminated);
        assert_eq!(session.failure(), Some(failure));
        assert_eq!(session.next_action(), Action::Exit(Some(failure)));
    }
}

#[test]
fn each_event_is_followed_by_a_command_for_every_workspace() {
    let mut session = Session::new();
    session.step(Input::Connected(Ok(())));
    session.step(Input::Message(Some(Event::WorkspacesChanged { workspaces: vec![2, 1] })));
    assert_eq!(session.next_action(), unset(1));
    session.step(Input::Sent(true));
    assert_eq!(session.next_action(), unset(2));
    session.step(Input::Sent(true));
    assert_eq!(session.next_action(), Action::Receive);

    session.step(Input::Message(Some(Event::WindowOpenedOrChanged { window: app(7, 2, "foot") })));
    assert_eq!(session.next_action(), unset(1));
    session.step(Input::Sent(true));
    assert_eq!(session.next_action(), set(2, "foot"));
    session.step(Input::Sent(true));
    assert_eq!(session.next_action(), Action::Receive);
    assert_eq!(session.phase(), Phase::Streaming);
    assert_eq!(session.tracker().label(2, 7).map(String::as_str), Some("foot"));
}

#[test]
fn event_that_the_tracker_does_not_read_is_followed_by_a_reconciliation() {
    let mut session = streaming_with_two_workspaces();
    session.step(Input::Message(Some(Event::Other)));
    assert_eq!(session.next_action(), unset(1));
    session.step(Input::Sent(true));
    assert_eq!(session.next_action(), set(2, "foot"));
    session.step(Input::Sent(true));
    assert_eq!(session.next_action(), Action::Receive);
}

#[test]
fn event_without_workspaces_is_followed_by_no_command() {
    let mut session = Session::new();
    session.step(Input::Connected(Ok(())));
    session.step(Input::Message(Some(Event::WindowClosed { id: 3 })));
    assert_eq!(session.next_action(), Action::Receive);
}

#[test]
fn stop_sweeps_every_workspace_once() {
    let mut session = streaming_with_two_workspaces();
    session.step(Input::Message(None));
    assert_eq!(session.phase(), Phase::Draining);
    assert_eq!(session.next_action(), unset(1));
    session.step(Input::Sent(true));
    assert_eq!(session.next_action(), unset(2));
    session.step(Input::Sent(true));
    assert_eq!(session.phase(), Phase::Terminated);
    assert_eq!(session.next_action(), Action::Exit(None));
}

#[test]
fn events_after_the_stop_are_not_taken_in() {
    let mut session = streaming_with_two_workspaces();
    session.step(Input::Message(None));
    session.step(Input::Message(Some(Event::WorkspacesChanged { workspaces: vec![1, 2, 3] })));
    session.step(Input::Message(Some(Event::WindowOpenedOrChanged { window: app(8, 1, "mpv") })));
    assert_eq!(session.next_action(), unset(1));
    session.step(Input::Sent(true));
    session.step(Input::Message(Some(Event::WindowClosed { id: 7 })));
    assert_eq!(session.next_action(), unset(2));
    session.step(Input::Sent(true));
    assert_eq!(session.next_action(), Action::Exit(None));
    session.step(Input::Message(Some(Event::WorkspacesChanged { workspaces: vec![9] })));
    session.step(Input::Sent(true));
    session.step(Input::Connected(Ok(())));
    assert_eq!(session.next_action(), Action::Exit(None));
    assert_eq!(session.tracker().workspace_ids(), vec![1, 2]);
    assert_eq!(session.tracker().label(2, 7).map(String::as_str), Some("foot"));
}

#[test]
fn stop_without_workspaces_ends_the_session_at_once() {
    let mut session = Session::new();
    session.step(Input::Connected(Ok(())));
    session.step(Input::Message(None));
    assert_eq!(session.phase(), Phase::Terminated);
    assert_eq!(session.next_action(), Action::Exit(None));
}

#[test]
fn failed_command_ends_a_streaming_session_at_once() {
    let mut session = Session::new();
    session.step(Input::Connected(Ok(())));
    session.step(Input::Message(Some(Event::WorkspacesChanged { workspaces: vec![1, 2] })));
    assert_eq!(session.next_action(), unset(1));
    session.step(Input::Sent(false));
    assert_eq!(session.phase(), Phase::Terminated);
    assert_eq!(session.failure(), Some(Failure::Send));
    assert_eq!(session.next_action(), Action::Exit(Some(Failure::Send)));
}

#[test]
fn failed_command_does_not_stop_the_sweep() {
    let mut session = streaming_with_two_workspaces();
    session.step(Input::Message(None));
    assert_eq!(session.next_action(), unset(1));
    session.step(Input::Sent(false));
    assert_eq!(session.phase(), Phase::Draining);
    assert_eq!(session.failure(), Some(Failure::Send));
    assert_eq!(session.next_action(), unset(2));
    session.step(Input::Sent(true));
    assert_eq!(session.phase(), Phase::Terminated);
    assert_eq!(session.next_action(), Action::Exit(Some(Failure::Send)));
}

#[test]
fn input_that_answers_nothing_is_ignored() {
    let mut session = Session::new();
    session.step(Input::Sent(true));
    session.step(Input::Message(None));
    session.step(Input::Message(Some(Event::WorkspacesChanged { workspaces: vec![1] })));
    assert_eq!(session.phase(), Phase::Connecting);
    assert_eq!(session.tracker().workspace_ids(), vec![]);

    session.step(Input::Connected(Ok(())));
    session.step(Input::Connected(Err(Failure::Connection)));
    session.step(Input::Sent(false));
    assert_eq!(session.phase(), Phase::Streaming);
    assert_eq!(session.failure(), None);

    session.step(Input::Message(Some(Event::WorkspacesChanged { workspaces: vec![1] })));
    session.step(Input::Message(Some(Event::WorkspacesChanged { workspaces: vec![5, 6] })));
    session.step(Input::Message(None));
    assert_eq!(session.phase(), Phase::Streaming);
    assert_eq!(session.next_action(), unset(1));
    assert_eq!(session.tracker().workspace_ids(), vec![1]);
}
