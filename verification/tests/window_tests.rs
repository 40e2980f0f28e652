use game_of_life::window::{
    LoopStep, MessageAction, PresentAction, PresentResult, WindowMessage, WindowStatus,
};

#[test]
fn new_window_is_hidden_without_watch() {
    let status = WindowStatus::new();
    assert_eq!(status, WindowStatus { visible: false, occlusion: 0 });
    assert_eq!(status.next_step(), LoopStep::Wait);
}

#[test]
fn messages_map_to_actions() {
    let mut status = WindowStatus { visible: true, occlusion: 7 };
    assert_eq!(status.message_handler(WindowMessage::Paint), MessageAction::Repaint);
    assert_eq!(
        status.message_handler(WindowMessage::Size { minimized: false }),
        MessageAction::ResizeSwapchain
    );
    assert_eq!(
        status.message_handler(WindowMessage::Size { minimized: true }),
        MessageAction::Handled
    );
    assert_eq!(status.message_handler(WindowMessage::DisplayChange), MessageAction::Render);
    assert_eq!(status.message_handler(WindowMessage::Destroy), MessageAction::Quit);
    assert_eq!(status.message_handler(WindowMessage::Other), MessageAction::Default);
    assert_eq!(
        status.message_handler(WindowMessage::OcclusionChanged { can_present: false }),
        MessageAction::Handled
    );
    assert_eq!(status, WindowStatus { visible: true, occlusion: 7 });
}

#[test]
fn activation_shows_the_window() {
    let mut status = WindowStatus::new();
    assert_eq!(status.message_handler(WindowMessage::Activate), MessageAction::Handled);
    assert_eq!(status, WindowStatus { visible: true, occlusion: 0 });
    assert_eq!(status.next_step(), LoopStep::Simulate);
}

#[test]
fn present_outcomes() {
    assert_eq!(WindowStatus::after_present(PresentResult::Shown), PresentAction::Continue);
    assert_eq!(WindowStatus::after_present(PresentResult::Occluded), PresentAction::WatchOcclusion);
    assert_eq!(WindowStatus::after_present(PresentResult::Failed), PresentAction::ReleaseDevice);
}

#[test]
fn occlusion_round_trip() {
    let mut status = WindowStatus { visible: true, occlusion: 0 };
    status.occluded(42);
    assert_eq!(status, WindowStatus { visible: false, occlusion: 42 });
    assert_eq!(status.next_step(), LoopStep::Wait);
    assert_eq!(
        status.message_handler(WindowMessage::OcclusionChanged { can_present: false }),
        MessageAction::Handled
    );
    assert_eq!(status.next_step(), LoopStep::Wait);
    assert_eq!(
        status.message_handler(WindowMessage::OcclusionChanged { can_present: true }),
        MessageAction::StopOcclusionWatch { cookie: 42 }
    );
    assert_eq!(status, WindowStatus { visible: true, occlusion: 0 });
    assert_eq!(status.next_step(), LoopStep::Simulate);
}
