use bitpart::messages::{
    close_is_normal, frame_action, page_bounds, request_response_type, ChannelMessageContents,
    CreateChannelMessage, FrameAction, LinkChannelMessage, MockChannelBackend, PaginateMessage,
    SocketFrame, SocketRequest, ChannelTasks, RelinkStep,
};

#[test]
fn pagination_defaults_to_no_bounds() {
    assert_eq!(page_bounds(None), (None, None));
    assert_eq!(
        page_bounds(Some(PaginateMessage { limit: Some(10), offset: None })),
        (Some(10), None)
    );
    assert_eq!(
        page_bounds(Some(PaginateMessage { limit: Some(5), offset: Some(20) })),
        (Some(5), Some(20))
    );
}

#[test]
fn mock_backend_acknowledges_with_empty_reply() {
    let backend = MockChannelBackend;
    let cmd = ChannelMessageContents::StartChannel { id: "c1".to_owned() };
    assert_eq!(backend.send(&cmd), "");
    let link = LinkChannelMessage { id: "c1".to_owned(), device_name: "dev".to_owned() };
    let cmd = ChannelMessageContents::LinkChannel { id: link.id.clone(), device_name: link.device_name.clone() };
    assert_eq!(backend.send(&cmd), "");
    let create = CreateChannelMessage { id: "c2".to_owned(), bot_id: "b".to_owned() };
    assert_eq!(backend.send(&ChannelMessageContents::ResetSessions { id: create.id.clone() }), "");
}

#[test]
fn only_code_1000_closes_normally() {
    assert!(close_is_normal(Some(1000)));
    assert!(!close_is_normal(Some(1001)));
    assert!(!close_is_normal(None));
}

#[test]
fn frames_are_answered_by_kind() {
    assert_eq!(frame_action(SocketFrame::Text("{}".to_owned())), FrameAction::Request("{}".to_owned()));
    assert_eq!(
        frame_action(SocketFrame::Binary(vec![1, 2])),
        FrameAction::Error {
            response_type: "BinaryFrame".to_owned(),
            message: "Server doesn't accept binary frames".to_owned()
        }
    );
    assert_eq!(frame_action(SocketFrame::Ping(vec![])), FrameAction::Reply("Ping received".to_owned()));
    assert_eq!(frame_action(SocketFrame::Pong(vec![])), FrameAction::Reply("Pong received".to_owned()));
    assert_eq!(frame_action(SocketFrame::Close(Some(1000))), FrameAction::Close);
    assert_eq!(frame_action(SocketFrame::Close(Some(1011))), FrameAction::Fail);
    assert_eq!(frame_action(SocketFrame::Close(None)), FrameAction::Fail);
}

#[test]
fn requests_are_answered_under_their_own_name() {
    assert_eq!(request_response_type(SocketRequest::CreateBot), Ok("CreateBot".to_owned()));
    assert_eq!(request_response_type(SocketRequest::ListChannels), Ok("ListChannels".to_owned()));
    assert_eq!(request_response_type(SocketRequest::ChatRequest), Ok("ChatRequest".to_owned()));
    assert_eq!(
        request_response_type(SocketRequest::Other),
        Err(("SocketMessage".to_owned(), "Invalid SocketMessage".to_owned()))
    );
}

#[test]
fn relinking_stops_only_that_channel() {
    let mut tasks = ChannelTasks::new();
    let a = tasks.start("bot", "signal");
    let b = tasks.start("bot", "backup");
    assert_ne!(a, b);
    assert_eq!(tasks.start("bot", "signal"), a);
    let (stopped, fresh) = tasks.relink("bot", "signal");
    assert_eq!(stopped, Some(a));
    assert_ne!(fresh, a);
    assert_ne!(fresh, b);
    assert_eq!(tasks.stop("bot", "signal"), Some(fresh));
    assert_eq!(tasks.stop("bot", "backup"), Some(b));
    assert_eq!(tasks.stop("other-bot", "signal"), None);
}

#[test]
fn first_link_stops_nothing() {
    let mut tasks = ChannelTasks::new();
    let (stopped, token) = tasks.relink("bot", "signal");
    assert_eq!(stopped, None);
    assert_eq!(tasks.start("bot", "signal"), token);
}

#[test]
fn relink_plan_stops_discards_and_links() {
    let mut tasks = ChannelTasks::new();
    let old = tasks.start("bot", "signal");
    let other = tasks.start("bot", "backup");
    let plan = tasks.relink_plan("bot", "signal");
    let fresh = tasks.stop("bot", "signal").unwrap();
    assert_eq!(
        plan,
        vec![
            RelinkStep::StopTask(old),
            RelinkStep::DiscardSignalState { channel_id: "signal".to_owned() },
            RelinkStep::LinkDevice { channel_id: "signal".to_owned(), token: fresh },
        ]
    );
    assert_eq!(tasks.stop("bot", "backup"), Some(other));
    let plan = tasks.relink_plan("bot", "new");
    assert_eq!(plan.len(), 2);
}
