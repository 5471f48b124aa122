use karmx::actions::{
    CdpCall, ComputerAction, MouseButton, MouseEventKind, Point, Region, ScrollDirection,
};
use karmx::control::{
    attach_failure, check_reply, debug_port, screenshot_note, unknown_tool, CdpTarget,
    ControlRun, ControlStep, ReplyCheck,
};

fn with_click(x: i32, y: i32) -> ComputerAction {
    let mut a = ComputerAction::new("click");
    a.coordinate = Some(Point { x, y });
    a
}

fn kind(c: &CdpCall) -> MouseEventKind {
    match c {
        CdpCall::Mouse { kind, .. } => *kind,
        other => panic!("not a mouse event: {other:?}"),
    }
}

#[test]
fn unknown_action_type_is_rejected() {
    let a = ComputerAction::new("teleport");
    assert!(a.validate().unwrap_err().contains("unknown action_type"));
}

#[test]
fn click_requires_a_coordinate() {
    let a = ComputerAction::new("click");
    assert!(a.validate().unwrap_err().contains("coordinate"));
    assert!(with_click(10, 20).validate().is_ok());
}

#[test]
fn drag_requires_both_ends() {
    let mut a = ComputerAction::new("drag");
    a.coordinate = Some(Point { x: 1, y: 1 });
    assert!(a.validate().unwrap_err().contains("start_coordinate"));

    a.start_coordinate = Some(Point { x: 0, y: 0 });
    assert!(a.validate().is_ok());
}

#[test]
fn type_rejects_empty_text() {
    let mut a = ComputerAction::new("type");
    a.text = Some(String::new());
    assert!(a.validate().is_err());

    a.text = Some("hello".into());
    assert!(a.validate().is_ok());
}

#[test]
fn scroll_needs_amount_and_direction() {
    let mut a = ComputerAction::new("scroll");
    assert!(a.validate().is_err());

    a.scroll_amount = Some(0);
    a.scroll_direction = Some(ScrollDirection::Down);
    assert!(a.validate().unwrap_err().contains("non-zero"));

    a.scroll_amount = Some(120);
    assert!(a.validate().is_ok());
}

#[test]
fn wait_needs_a_duration() {
    let mut a = ComputerAction::new("wait");
    assert!(a.validate().is_err());
    a.duration = Some(250);
    assert!(a.validate().is_ok());
}

#[test]
fn screenshot_region_must_be_positive() {
    let mut a = ComputerAction::new("screenshot");
    assert!(a.validate().is_ok(), "full-viewport screenshot is valid");
    a.region = Some(Region {
        x: 0,
        y: 0,
        width: 0,
        height: 10,
    });
    assert!(a.validate().unwrap_err().contains("positive"));
}

#[test]
fn click_lowers_to_press_and_release() {
    let cmds = with_click(5, 7).to_cdp().unwrap();
    assert_eq!(cmds.len(), 2);
    assert_eq!(cmds[0].method(), "Input.dispatchMouseEvent");
    assert_eq!(kind(&cmds[0]), MouseEventKind::Pressed);
    assert_eq!(kind(&cmds[1]), MouseEventKind::Released);
    match &cmds[0] {
        CdpCall::Mouse { x, y, .. } => assert_eq!((*x, *y), (5, 7)),
        other => panic!("unexpected {other:?}"),
    }
}

#[test]
fn right_click_uses_right_button() {
    let mut a = ComputerAction::new("right_click");
    a.coordinate = Some(Point { x: 1, y: 1 });
    let cmds = a.to_cdp().unwrap();
    match &cmds[0] {
        CdpCall::Mouse { button, .. } => assert_eq!(*button, Some(MouseButton::Right)),
        other => panic!("unexpected {other:?}"),
    }
}

#[test]
fn drag_emits_press_move_release() {
    let mut a = ComputerAction::new("drag");
    a.start_coordinate = Some(Point { x: 0, y: 0 });
    a.coordinate = Some(Point { x: 50, y: 60 });
    let cmds = a.to_cdp().unwrap();
    let kinds: Vec<MouseEventKind> = cmds.iter().map(kind).collect();
    assert_eq!(
        kinds,
        vec![MouseEventKind::Pressed, MouseEventKind::Moved, MouseEventKind::Released]
    );
}

#[test]
fn scroll_direction_maps_to_signed_deltas() {
    let mut a = ComputerAction::new("scroll");
    a.scroll_amount = Some(100);
    a.scroll_direction = Some(ScrollDirection::Down);
    let cmds = a.to_cdp().unwrap();
    match &cmds[0] {
        CdpCall::Wheel { delta_y, .. } => assert_eq!(*delta_y, -100, "down should be negative deltaY"),
        other => panic!("unexpected {other:?}"),
    }

    a.scroll_direction = Some(ScrollDirection::Up);
    let cmds = a.to_cdp().unwrap();
    match &cmds[0] {
        CdpCall::Wheel { delta_y, .. } => assert_eq!(*delta_y, 100),
        other => panic!("unexpected {other:?}"),
    }
}

#[test]
fn type_emits_one_char_event_each() {
    let mut a = ComputerAction::new("type");
    a.text = Some("abc".into());
    let cmds = a.to_cdp().unwrap();
    assert_eq!(cmds.len(), 3);
    assert_eq!(cmds[1], CdpCall::TypeChar { ch: 'b' });
}

#[test]
fn screenshot_without_region_has_no_clip() {
    let cmds = ComputerAction::new("screenshot").to_cdp().unwrap();
    assert_eq!(cmds[0].method(), "Page.captureScreenshot");
    assert_eq!(cmds[0], CdpCall::Screenshot { clip: None });
}

#[test]
fn screenshot_with_region_sets_clip() {
    let mut a = ComputerAction::new("screenshot");
    a.region = Some(Region {
        x: 1,
        y: 2,
        width: 30,
        height: 40,
    });
    let cmds = a.to_cdp().unwrap();
    match &cmds[0] {
        CdpCall::Screenshot { clip: Some(r) } => assert_eq!((r.width, r.height), (30, 40)),
        other => panic!("unexpected {other:?}"),
    }
}

#[test]
fn to_cdp_validates_first() {
    assert!(ComputerAction::new("click").to_cdp().is_err());
}

#[test]
fn default_target_is_loopback_9222() {
    let t = CdpTarget::default();
    assert_eq!(t.host, "127.0.0.1");
    assert_eq!(t.port, 9222);
    assert_eq!(t.http_base(), "http://127.0.0.1:9222");
}

#[test]
fn scroll_deltas_for_every_direction() {
    assert_eq!(ScrollDirection::Up.deltas(3), (0, 3));
    assert_eq!(ScrollDirection::Down.deltas(3), (0, -3));
    assert_eq!(ScrollDirection::Left.deltas(3), (3, 0));
    assert_eq!(ScrollDirection::Right.deltas(3), (-3, 0));
}

#[test]
fn key_presses_go_down_then_up() {
    let mut a = ComputerAction::new("key");
    assert!(a.validate().is_err());
    a.key = Some("Enter".into());
    let cmds = a.to_cdp().unwrap();
    assert_eq!(
        cmds,
        vec![
            CdpCall::Key { down: true, key: "Enter".into() },
            CdpCall::Key { down: false, key: "Enter".into() },
        ]
    );
    assert!(cmds.iter().all(|c| c.method() == "Input.dispatchKeyEvent"));
}

#[test]
fn wait_lowers_to_nothing() {
    let mut a = ComputerAction::new("wait");
    a.duration = Some(10);
    assert!(a.to_cdp().unwrap().is_empty());
}

#[test]
fn double_click_counts_two() {
    let mut a = ComputerAction::new("double_click");
    a.coordinate = Some(Point { x: 2, y: 3 });
    let cmds = a.to_cdp().unwrap();
    assert!(cmds.iter().all(|c| matches!(c, CdpCall::Mouse { click_count: Some(2), .. })));
}

#[test]
fn discovery_without_a_debugger_url_explains_itself() {
    let t = CdpTarget { host: "127.0.0.1".into(), port: 1 };
    assert_eq!(t.version_url(), "http://127.0.0.1:1/json/version");
    let err = t.debugger_url(None).unwrap_err();
    assert!(err.contains("--remote-debugging-port=1"), "got: {err}");
    assert_eq!(t.debugger_url(Some("ws://x".into())), Ok("ws://x".to_string()));
}

#[test]
fn replies_are_matched_by_id() {
    assert_eq!(check_reply(3, "Page.navigate", Some(2), None), ReplyCheck::Skip);
    assert_eq!(check_reply(3, "Page.navigate", None, None), ReplyCheck::Skip);
    assert_eq!(check_reply(3, "Page.navigate", Some(3), None), ReplyCheck::Done);
    assert_eq!(
        check_reply(3, "Page.navigate", Some(3), Some("boom".into())),
        ReplyCheck::Failed("CDP Page.navigate error: boom".into())
    );
}

#[test]
fn a_run_validates_everything_first() {
    let mut bad = ComputerAction::new("click");
    bad.coordinate = None;
    let err = match ControlRun::new(vec![with_click(1, 1), bad]) {
        Err(e) => e,
        Ok(_) => panic!("second action is invalid"),
    };
    assert!(err.starts_with("action 1 (click) is invalid: click requires `coordinate`"), "got: {err}");
}

#[test]
fn a_run_steps_through_actions_and_reports() {
    let mut wait = ComputerAction::new("wait");
    wait.duration = Some(5);
    let mut run = match ControlRun::new(vec![with_click(3, -4), wait]) {
        Ok(r) => r,
        Err(e) => panic!("valid actions refused: {e}"),
    };
    match run.next_step() {
        ControlStep::Send(cmds) => assert_eq!(cmds.len(), 2),
        other => panic!("expected commands, got {other:?}"),
    }
    run.completed();
    match run.next_step() {
        ControlStep::Wait(ms) => assert_eq!(ms, 5),
        other => panic!("expected a wait, got {other:?}"),
    }
    assert!(matches!(run.next_step(), ControlStep::Finished));
    assert_eq!(
        run.report("T", "http://x"),
        "performed 2 action(s):\n  - click at (3,-4)\n  - wait 5ms\n\npage: T\nurl: http://x"
    );
}

#[test]
fn failure_messages() {
    assert_eq!(debug_port(None), 9222);
    assert_eq!(debug_port(Some(9333)), 9333);
    assert_eq!(screenshot_note(Ok(12)), "\n\nscreenshot: 12 bytes (png)");
    assert_eq!(screenshot_note(Err("x".into())), "\n\nscreenshot failed: x");
    assert_eq!(unknown_tool("foo"), "Unknown tool: foo");
    assert_eq!(
        attach_failure(1, "refused"),
        "Could not attach to a browser on port 1: refused\n\nStart Chrome with: --remote-debugging-port=1"
    );
}

#[test]
fn exposes_the_control_tool() {
    let tools = karmx::control::get_tools();
    assert_eq!(tools.len(), 1);
    assert_eq!(tools[0].name, "computer_control");
    let schema: serde_json::Value = serde_json::from_str(tools[0].input_schema).unwrap();
    assert_eq!(schema["required"][0], "actions");
    assert_eq!(schema["properties"]["screenshot"]["default"].as_bool(), Some(true));
}
