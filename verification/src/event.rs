//! Events: what the compositor tells of its workspaces and windows.

use crate::title::normalized;
use vstd::prelude::*;

verus! {

/// What an event tells of one window.
#[derive(Debug, PartialEq, Eq)]
pub struct Window {
    /// The window's id.
    pub id: u64,
    /// The workspace the window is on, if it is on one.
    pub workspace_id: Option<u64>,
    /// The application id, if the window has one.
    pub app_id: Option<String>,
    /// The title, if the window has one.
    pub title: Option<String>,
}

/// One event of the compositor's stream, as far as the tracker reads it.
#[derive(Debug, PartialEq, Eq)]
pub enum Event {
    /// The workspaces are now exactly these.
    WorkspacesChanged { workspaces: Vec<u64> },
    /// The windows are now exactly these.
    WindowsChanged { windows: Vec<Window> },
    /// One window was opened or has changed.
    WindowOpenedOrChanged { window: Window },
    /// One window was closed.
    WindowClosed { id: u64 },
    /// Any other event: the tracker does not read it.
    Other,
}

impl Window {
    /// Where a listing of all windows puts this window, and under what label:
    /// on its workspace, under the label of its application id. A window that
    /// lacks either is not tracked.
    pub open spec fn listed(&self) -> Option<(u64, Seq<char>)> {
        match (self.workspace_id, self.app_id) {
            (Some(workspace), Some(app_id)) => Some((workspace, normalized(app_id@))),
            _ => None,
        }
    }

    /// Where an update of this one window puts it, and under what label: on
    /// its workspace, under the label of its application id, or of its title
    /// where it has no application id. A window without a workspace, or with
    /// neither text, is not tracked.
    pub open spec fn updated(&self) -> Option<(u64, Seq<char>)> {
        match (self.workspace_id, self.app_id, self.title) {
            (Some(workspace), Some(app_id), _) => Some((workspace, normalized(app_id@))),
            (Some(workspace), None, Some(title)) => Some((workspace, normalized(title@))),
            _ => None,
        }
    }
}

} // verus!
