//! The decisions of the window that shows the game: what it does with each
//! message it receives, after each attempt to show a frame, and on each turn
//! of its main loop. Drawing and the messages themselves stay with the caller.
use vstd::prelude::*;

verus! {

/// What the window keeps of its own state besides its drawing resources:
/// whether it is on screen, and the cookie of the occlusion watch it has
/// registered (0 when none).
#[derive(Clone, Copy, Debug, PartialEq, Eq)]
pub struct WindowStatus {
    pub visible: bool,
    pub occlusion: u32,
}

/// A message that the window procedure hands over.
#[derive(Clone, Copy, Debug, PartialEq, Eq)]
pub enum WindowMessage {
    /// The window must be repainted.
    Paint,
    /// The window changed size; `minimized` when it went to the task bar.
    Size { minimized: bool },
    /// The display changed resolution.
    DisplayChange,
    /// The occlusion watch fired; `can_present` tells whether a test present
    /// now succeeds.
    OcclusionChanged { can_present: bool },
    /// The window was activated or deactivated.
    Activate,
    /// The window is being destroyed.
    Destroy,
    /// Any other message.
    Other,
}

/// What the window procedure must do for a message.
#[derive(Clone, Copy, Debug, PartialEq, Eq)]
pub enum MessageAction {
    /// Render a frame inside a paint cycle.
    Repaint,
    /// Render a frame.
    Render,
    /// Resize the swap chain to the new window size, then render.
    ResizeSwapchain,
    /// Unregister the occlusion watch with this cookie.
    StopOcclusionWatch { cookie: u32 },
    /// Post the quit message.
    Quit,
    /// Nothing more to do; the message is handled.
    Handled,
    /// Leave the message to the default window procedure.
    Default,
}

/// How an attempt to show a frame went.
#[derive(Clone, Copy, Debug, PartialEq, Eq)]
pub enum PresentResult {
    Shown,
    /// The window is covered: nothing of it can be seen.
    Occluded,
    /// Any other failure.
    Failed,
}

/// What to do after an attempt to show a frame.
#[derive(Clone, Copy, Debug, PartialEq, Eq)]
pub enum PresentAction {
    Continue,
    /// Register an occlusion watch and hand its cookie to
    /// [`WindowStatus::occluded`].
    WatchOcclusion,
    /// Drop the device and everything made from it; the next render makes
    /// them again.
    ReleaseDevice,
}

/// What one turn of the main loop does.
#[derive(Clone, Copy, Debug, PartialEq, Eq)]
pub enum LoopStep {
    /// Advance the game by one generation, render it, report the frame time,
    /// pause briefly, then handle every waiting message without blocking.
    Simulate,
    /// Block until the next message arrives, then handle it.
    Wait,
}

/// The action for a message, as a function of the message and the
/// registered occlusion cookie.
pub open spec fn message_action(message: WindowMessage, occlusion: u32) -> MessageAction {
    match message {
        WindowMessage::Paint => MessageAction::Repaint,
        WindowMessage::Size { minimized } => if minimized {
            MessageAction::Handled
        } else {
            MessageAction::ResizeSwapchain
        },
        WindowMessage::DisplayChange => MessageAction::Render,
        WindowMessage::OcclusionChanged { can_present } => if can_present {
            MessageAction::StopOcclusionWatch { cookie: occlusion }
        } else {
            MessageAction::Handled
        },
        WindowMessage::Activate => MessageAction::Handled,
        WindowMessage::Destroy => MessageAction::Quit,
        WindowMessage::Other => MessageAction::Default,
    }
}

/// The status after a message.
pub open spec fn status_after_message(status: WindowStatus, message: WindowMessage) -> WindowStatus {
    match message {
        WindowMessage::OcclusionChanged { can_present } => if can_present {
            WindowStatus { visible: true, occlusion: 0 }
        } else {
            status
        },
        WindowMessage::Activate => WindowStatus { visible: true, occlusion: status.occlusion },
        _ => status,
    }
}

/// The action after an attempt to show a frame.
pub open spec fn present_action(result: PresentResult) -> PresentAction {
    match result {
        PresentResult::Shown => PresentAction::Continue,
        PresentResult::Occluded => PresentAction::WatchOcclusion,
        PresentResult::Failed => PresentAction::ReleaseDevice,
    }
}

/// The status once a covered window has registered an occlusion watch.
pub open spec fn status_when_occluded(cookie: u32) -> WindowStatus {
    WindowStatus { visible: false, occlusion: cookie }
}

/// What a turn of the main loop does in a given status.
pub open spec fn loop_step(status: WindowStatus) -> LoopStep {
    if status.visible {
        LoopStep::Simulate
    } else {
        LoopStep::Wait
    }
}

/// No message hides the window: only a present that finds it covered does.
pub proof fn lemma_messages_never_hide(status: WindowStatus, message: WindowMessage)
    requires
        status.visible,
    ensures
        status_after_message(status, message).visible,
{
}

/// The watch that a covered window registers is the one it stops once it can
/// present again, after which it has no watch, counts as visible, and the
/// main loop simulates again.
pub proof fn lemma_occlusion_round_trip(cookie: u32)
    ensures
        loop_step(status_when_occluded(cookie)) == LoopStep::Wait,
        message_action(
            WindowMessage::OcclusionChanged { can_present: true },
            status_when_occluded(cookie).occlusion,
        ) == (MessageAction::StopOcclusionWatch { cookie }),
        status_after_message(
            status_when_occluded(cookie),
            WindowMessage::OcclusionChanged { can_present: true },
        ) == (WindowStatus { visible: true, occlusion: 0 }),
        loop_step(
            status_after_message(
                status_when_occluded(cookie),
                WindowMessage::OcclusionChanged { can_present: true },
            ),
        ) == LoopStep::Simulate,
{
}

/// What each message asks for, whatever occlusion cookie is registered:
/// a repaint always renders inside a paint cycle, a display change always
/// renders, a size change resizes unless it minimizes, destruction quits,
/// activation and an occlusion check that cannot present ask for nothing
/// more, other messages go to the default procedure, and an occlusion check
/// that can present stops exactly the registered watch.
pub proof fn lemma_message_actions(occlusion: u32)
    ensures
        message_action(WindowMessage::Paint, occlusion) == MessageAction::Repaint,
        message_action(WindowMessage::DisplayChange, occlusion) == MessageAction::Render,
        message_action(WindowMessage::Size { minimized: false }, occlusion)
            == MessageAction::ResizeSwapchain,
        message_action(WindowMessage::Size { minimized: true }, occlusion) == MessageAction::Handled,
        message_action(WindowMessage::Destroy, occlusion) == MessageAction::Quit,
        message_action(WindowMessage::Activate, occlusion) == MessageAction::Handled,
        message_action(WindowMessage::Other, occlusion) == MessageAction::Default,
        message_action(WindowMessage::OcclusionChanged { can_present: false }, occlusion)
            == MessageAction::Handled,
        message_action(WindowMessage::OcclusionChanged { can_present: true }, occlusion)
            == (MessageAction::StopOcclusionWatch { cookie: occlusion }),
{
}

/// The main loop simulates exactly while the window is visible, whatever
/// occlusion cookie is registered.
pub proof fn lemma_loop_follows_visibility(status: WindowStatus)
    ensures
        status.visible ==> loop_step(status) == LoopStep::Simulate,
        !status.visible ==> loop_step(status) == LoopStep::Wait,
{
}

/// Only activation and an occlusion check that can present change the
/// status; both leave the window visible.
pub proof fn lemma_status_after_message(status: WindowStatus, message: WindowMessage)
    ensures
        message == WindowMessage::Activate ==> status_after_message(status, message)
            == (WindowStatus { visible: true, occlusion: status.occlusion }),
        message == (WindowMessage::OcclusionChanged { can_present: true }) ==> status_after_message(status, message)
            == (WindowStatus { visible: true, occlusion: 0 }),
        message != WindowMessage::Activate && message != (WindowMessage::OcclusionChanged { can_present: true })
            ==> status_after_message(status, message) == status,
{
}

impl WindowStatus {
    /// A window not yet shown, with no occlusion watch.
    pub fn new() -> (status: Self)
        ensures
            !status.visible,
            status.occlusion == 0,
    {
        WindowStatus { visible: false, occlusion: 0 }
    }

    /// Handles a message: a repaint renders inside a paint cycle, a display
    /// change renders, a size change that does not minimize resizes, an
    /// occlusion watch that finds the window presentable again is stopped and
    /// the window counts as visible, activation makes the window visible,
    /// destruction quits, and any other message goes to the default procedure.
    pub fn message_handler(&mut self, message: WindowMessage) -> (action: MessageAction)
        ensures
            action == message_action(message, old(self).occlusion),
            *final(self) == status_after_message(*old(self), message),
    {
        match message {
            WindowMessage::Paint => MessageAction::Repaint,
            WindowMessage::Size { minimized } => {
                if !minimized {
                    MessageAction::ResizeSwapchain
                } else {
                    MessageAction::Handled
                }
            },
            WindowMessage::DisplayChange => MessageAction::Render,
            WindowMessage::OcclusionChanged { can_present } => {
                if can_present {
                    let cookie = self.occlusion;
                    self.occlusion = 0;
                    self.visible = true;
                    MessageAction::StopOcclusionWatch { cookie }
                } else {
                    MessageAction::Handled
                }
            },
            WindowMessage::Activate => {
                self.visible = true;
                MessageAction::Handled
            },
            WindowMessage::Destroy => MessageAction::Quit,
            WindowMessage::Other => MessageAction::Default,
        }
    }

    /// What to do after an attempt to show a frame: nothing when it was
    /// shown, watch for the window to be uncovered when it was occluded, and
    /// drop the device on any other failure.
    pub fn after_present(result: PresentResult) -> (action: PresentAction)
        ensures
            action == present_action(result),
    {
        match result {
            PresentResult::Shown => PresentAction::Continue,
            PresentResult::Occluded => PresentAction::WatchOcclusion,
            PresentResult::Failed => PresentAction::ReleaseDevice,
        }
    }

    /// Records the occlusion watch that was registered for a covered window;
    /// the window no longer counts as visible.
    pub fn occluded(&mut self, cookie: u32)
        ensures
            *final(self) == status_when_occluded(cookie),
    {
        self.occlusion = cookie;
        self.visible = false;
    }

    /// One turn of the main loop: simulate while the window is visible,
    /// otherwise wait for a message.
    pub fn next_step(&self) -> (step: LoopStep)
        ensures
            step == loop_step(*self),
            self.visible ==> step == LoopStep::Simulate,
            !self.visible ==> step == LoopStep::Wait,
    {
        if self.visible {
            LoopStep::Simulate
        } else {
            LoopStep::Wait
        }
    }
}

} // verus!
