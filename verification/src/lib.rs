//! Keeps the names of a window manager's workspaces in step with the windows
//! that are open on them.
//!
//! The crate holds the rules only; talking to the compositor is the caller's
//! part.
//!
//! - [`title`]: how an application id or a title becomes a short label.
//! - [`event`]: what the compositor tells of its workspaces and windows.
//! - [`state`]: the tracked state as a map, and what each event makes of it.
//! - [`tracker`]: the tracker, which holds that state and follows the events.
//! - [`exclusive`]: when each window stays on one workspace.
//! - [`order`]: ids in ascending order.
//! - [`reconcile`]: the commands that bring the workspace names in line with
//!   the tracked state.
//! - [`session`]: a session with the compositor from its start to its end, as
//!   a state machine that tells the caller what to do next.

pub mod event;
pub mod exclusive;
pub mod order;
pub mod reconcile;
pub mod session;
pub mod state;
pub mod title;
pub mod tracker;
