use oorandom::Rand32;
use rwm::command::{
    Command, ConfigSubcommand, Destination, LayoutSubcommand, MonitorSubcommand, TagSubcommand,
    WindowSubcommand, WindowToggle,
};
use rwm::config::Config;
use rwm::geometry::{Direction, LayoutType, Rect, TagId};
use rwm::wm::{NewWindow, Outcome, ScannedWindow, StartupError, WMState, XEvent, XRequest};

fn new_window(id: u32, x: i16, y: i16) -> NewWindow {
    NewWindow {
        id,
        x,
        y,
        width: 200,
        height: 100,
        transient_for: None,
        class_prop: String::new(),
        wm_name: String::new(),
    }
}

fn wm_with(rects: Vec<Rect>) -> WMState {
    let mut rng = Rand32::new(7);
    match WMState::new(Config::default(), 999, 68, rects, &mut rng) {
        Ok(s) => s,
        Err(_) => panic!("the window manager did not start"),
    }
}

fn one_monitor() -> WMState {
    wm_with(vec![Rect::new(0, 0, 1920, 1080)])
}

fn map(s: &mut WMState, id: u32) -> Vec<XRequest> {
    s.handle_event(XEvent::MapRequest(new_window(id, 0, 0)))
}

fn cmd(s: &mut WMState, c: Command) -> Outcome {
    let mut reqs = Vec::new();
    s.handle_command(c, &mut reqs)
}

fn focused(s: &WMState) -> Option<u32> {
    s.monitors.cur().focused_id()
}

fn order(s: &WMState, m: usize) -> Vec<u32> {
    s.monitors.monitors[m].windows.windows.iter().map(|w| w.id).collect()
}

fn visible_ids(s: &WMState) -> Vec<u32> {
    let m = s.monitors.cur();
    m.windows
        .windows
        .iter()
        .filter(|w| rwm::window::is_visible(w, &m.tags))
        .map(|w| w.id)
        .collect()
}

#[test]
fn startup_errors() {
    let mut rng = Rand32::new(1);
    let mut c = Config::default();
    c.layouts.clear();
    assert!(matches!(
        WMState::new(c, 1, 68, vec![Rect::new(0, 0, 10, 10)], &mut rng),
        Err(StartupError::NoLayouts)
    ));
    assert!(matches!(
        WMState::new(Config::default(), 1, 68, vec![], &mut rng),
        Err(StartupError::NoMonitors)
    ));
}

#[test]
fn map_request_manages_and_focuses() {
    let mut s = one_monitor();
    let reqs = map(&mut s, 10);
    assert_eq!(order(&s, 0), vec![10]);
    assert_eq!(focused(&s), Some(10));
    assert!(reqs.contains(&XRequest::MapWindow { window: 10 }));
    assert!(reqs.contains(&XRequest::SetInputFocus { window: 10 }));
    // A single tiled window fills the monitor with no border.
    let w = &s.monitors.monitors[0].windows.windows[0];
    assert_eq!((w.x, w.y, w.width, w.height), (0, 0, 1920, 1080));
    // Mapping it again changes nothing.
    map(&mut s, 10);
    assert_eq!(order(&s, 0), vec![10]);
}

#[test]
fn single_tag_focus_cycle() {
    // Spawned last to first, so that the history reads W1, W2, W3 with W1 focused.
    let mut s = one_monitor();
    map(&mut s, 3);
    map(&mut s, 2);
    map(&mut s, 1);
    assert_eq!(order(&s, 0), vec![1, 2, 3]);
    assert_eq!(focused(&s), Some(1));
    cmd(&mut s, Command::Window(WindowSubcommand::Focus(Direction::Down)));
    assert_eq!(focused(&s), Some(2));
    cmd(&mut s, Command::Window(WindowSubcommand::Focus(Direction::Down)));
    assert_eq!(focused(&s), Some(3));
    cmd(&mut s, Command::Window(WindowSubcommand::Focus(Direction::Down)));
    assert_eq!(focused(&s), Some(1));
    cmd(&mut s, Command::Window(WindowSubcommand::Focus(Direction::Up)));
    assert_eq!(focused(&s), Some(3));
}

#[test]
fn spawn_order_is_most_recent_first() {
    let mut s = one_monitor();
    map(&mut s, 1);
    map(&mut s, 2);
    map(&mut s, 3);
    assert_eq!(order(&s, 0), vec![3, 2, 1]);
    assert_eq!(focused(&s), Some(3));
}

#[test]
fn send_to_hidden_tag() {
    let mut s = one_monitor();
    map(&mut s, 2);
    map(&mut s, 1);
    assert_eq!(focused(&s), Some(1));
    let two = TagId::new(2).unwrap_or(TagId(0));
    let out = cmd(
        &mut s,
        Command::Window(WindowSubcommand::Send(Destination::Tag { tag_id: two })),
    );
    assert_eq!(out, Outcome::Done);
    let w1 = &s.monitors.monitors[0].windows.windows[0];
    assert_eq!(w1.id, 1);
    assert_eq!(w1.tags, vec![two]);
    assert_eq!(visible_ids(&s), vec![2]);
    assert_eq!(focused(&s), Some(2));
    cmd(&mut s, Command::Tag(TagSubcommand::Switch { tag_id: two }));
    assert_eq!(visible_ids(&s), vec![1]);
    assert_eq!(focused(&s), Some(1));
}

#[test]
fn send_last_visible_window_leaves_nothing_focused() {
    let mut s = one_monitor();
    map(&mut s, 1);
    let two = TagId(2);
    cmd(&mut s, Command::Window(WindowSubcommand::Send(Destination::Tag { tag_id: two })));
    assert_eq!(focused(&s), None);
    assert!(visible_ids(&s).is_empty());
}

#[test]
fn send_to_invalid_tag_fails() {
    let mut s = one_monitor();
    map(&mut s, 1);
    let out = cmd(
        &mut s,
        Command::Window(WindowSubcommand::Send(Destination::Tag { tag_id: TagId::from_int_unchecked(12) })),
    );
    assert_eq!(out, Outcome::Failed(String::from("Tags can be from 1 to 9: 12")));
    assert_eq!(focused(&s), Some(1));
}

#[test]
fn toggle_last_tag_refused() {
    let mut s = one_monitor();
    map(&mut s, 1);
    let one = TagId(1);
    cmd(&mut s, Command::Tag(TagSubcommand::Toggle { tag_id: one }));
    assert!(s.monitors.cur().tags[0].visible);
    assert_eq!(s.monitors.cur().tags.iter().filter(|t| t.visible).count(), 1);
    assert_eq!(focused(&s), Some(1));
}

#[test]
fn toggle_second_tag_shows_both() {
    let mut s = one_monitor();
    let three = TagId(3);
    cmd(&mut s, Command::Tag(TagSubcommand::Toggle { tag_id: three }));
    assert!(s.monitors.cur().tags[0].visible);
    assert!(s.monitors.cur().tags[2].visible);
    cmd(&mut s, Command::Tag(TagSubcommand::Toggle { tag_id: TagId(1) }));
    assert!(!s.monitors.cur().tags[0].visible);
    assert!(s.monitors.cur().tags[2].visible);
}

#[test]
fn shift_preserves_focus() {
    let mut s = one_monitor();
    map(&mut s, 3);
    map(&mut s, 2);
    map(&mut s, 1);
    assert_eq!(order(&s, 0), vec![1, 2, 3]);
    cmd(&mut s, Command::Window(WindowSubcommand::Shift(Direction::Down)));
    assert_eq!(order(&s, 0), vec![2, 1, 3]);
    assert_eq!(focused(&s), Some(1));
    cmd(&mut s, Command::Window(WindowSubcommand::Shift(Direction::Up)));
    assert_eq!(order(&s, 0), vec![1, 2, 3]);
    assert_eq!(focused(&s), Some(1));
}

#[test]
fn shift_there_and_back_restores_order() {
    let mut s = one_monitor();
    for id in [5, 4, 3, 2, 1] {
        map(&mut s, id);
    }
    cmd(&mut s, Command::Window(WindowSubcommand::Focus(Direction::Up)));
    assert_eq!(focused(&s), Some(5));
    cmd(&mut s, Command::Window(WindowSubcommand::Shift(Direction::Down)));
    assert_eq!(order(&s, 0), vec![5, 2, 3, 4, 1]);
    cmd(&mut s, Command::Window(WindowSubcommand::Shift(Direction::Up)));
    assert_eq!(order(&s, 0), vec![1, 2, 3, 4, 5]);
    assert_eq!(focused(&s), Some(5));
}

#[test]
fn drag_across_monitors() {
    let mut s = wm_with(vec![Rect::new(0, 0, 960, 1080), Rect::new(960, 0, 960, 1080)]);
    s.handle_event(XEvent::MapRequest(new_window(1, 100, 100)));
    assert_eq!(order(&s, 0), vec![1]);
    s.handle_event(XEvent::ButtonPress { window: 1, detail: 1, state: 8, event_x: 10, event_y: 10 });
    assert!(s.dragging_window.is_some());
    s.handle_event(XEvent::MotionNotify { window: 1, root_x: 970, root_y: 100 });
    s.handle_event(XEvent::ButtonRelease { detail: 1 });
    assert!(s.dragging_window.is_none());
    assert!(order(&s, 0).is_empty());
    assert_eq!(order(&s, 1), vec![1]);
    assert_eq!(s.monitors.cur, 1);
    assert_eq!(focused(&s), Some(1));
    let w = &s.monitors.monitors[1].windows.windows[0];
    assert!(w.floating);
    assert_eq!((w.x, w.y), (960, 90));
}

#[test]
fn resize_grows_by_pointer_travel() {
    let mut s = one_monitor();
    let two = TagId(2);
    // Floating layout on tag 2 keeps the window where it is.
    s.monitors.monitors[0].tags[1].layout = LayoutType::Floating;
    cmd(&mut s, Command::Tag(TagSubcommand::Switch { tag_id: two }));
    s.handle_event(XEvent::MapRequest(new_window(1, 50, 60)));
    let w = &s.monitors.monitors[0].windows.windows[0];
    assert_eq!((w.x, w.y, w.width, w.height), (0, 0, 200, 100));
    s.handle_event(XEvent::ButtonPress { window: 1, detail: 3, state: 8, event_x: 5, event_y: 5 });
    assert_eq!(s.resizing_window, Some((1, (200, 100))));
    s.handle_event(XEvent::MotionNotify { window: 1, root_x: 230, root_y: 90 });
    let w = &s.monitors.monitors[0].windows.windows[0];
    assert_eq!((w.width, w.height), (230, 90));
    s.handle_event(XEvent::MotionNotify { window: 1, root_x: -500, root_y: 90 });
    let w = &s.monitors.monitors[0].windows.windows[0];
    assert_eq!(w.width, 1);
}

#[test]
fn click_without_mod_key_only_focuses() {
    let mut s = one_monitor();
    map(&mut s, 2);
    map(&mut s, 1);
    s.handle_event(XEvent::ButtonPress { window: 2, detail: 1, state: 0, event_x: 1, event_y: 1 });
    assert_eq!(focused(&s), Some(2));
    assert!(s.dragging_window.is_none());
    assert!(!s.monitors.monitors[0].windows.windows[1].floating);
}

#[test]
fn destroy_notify_focuses_successor() {
    let mut s = one_monitor();
    map(&mut s, 3);
    map(&mut s, 2);
    map(&mut s, 1);
    s.handle_event(XEvent::DestroyNotify { window: 1 });
    assert_eq!(order(&s, 0), vec![2, 3]);
    assert_eq!(focused(&s), Some(2));
    s.handle_event(XEvent::DestroyNotify { window: 3 });
    assert_eq!(focused(&s), Some(2));
    s.handle_event(XEvent::DestroyNotify { window: 2 });
    assert_eq!(focused(&s), None);
}

#[test]
fn config_hot_reload() {
    let mut s = one_monitor();
    assert_eq!(s.config.gap, 4);
    let out = cmd(
        &mut s,
        Command::Config(ConfigSubcommand::Load { path: Some(String::from("/tmp/good.ron")) }),
    );
    assert_eq!(out, Outcome::LoadConfig(String::from("/tmp/good.ron")));
    let mut good = Config::default();
    good.gap = 16;
    let mut reqs = Vec::new();
    assert!(s.apply_config(good, String::from("/tmp/good.ron"), &mut reqs).is_ok());
    assert_eq!(s.config.gap, 16);
    assert_eq!(s.config.path, Some(String::from("/tmp/good.ron")));
    let out = cmd(&mut s, Command::Config(ConfigSubcommand::Load { path: None }));
    assert_eq!(out, Outcome::LoadConfig(String::from("/tmp/good.ron")));
    // A file that does not parse is never applied; one without layouts is refused.
    let mut bad = Config::default();
    bad.layouts.clear();
    assert!(s.apply_config(bad, String::from("/tmp/bad.ron"), &mut reqs).is_err());
    assert_eq!(s.config.gap, 16);
    assert_eq!(s.config.path, Some(String::from("/tmp/good.ron")));
}

#[test]
fn config_load_without_path_fails() {
    let mut s = one_monitor();
    let out = cmd(&mut s, Command::Config(ConfigSubcommand::Load { path: None }));
    assert_eq!(out, Outcome::Failed(String::from("No configuration file specified")));
    assert_eq!(cmd(&mut s, Command::Config(ConfigSubcommand::Print)), Outcome::PrintConfig);
}

#[test]
fn quit_stops_running() {
    let mut s = one_monitor();
    assert!(s.running);
    cmd(&mut s, Command::Quit);
    assert!(!s.running);
}

#[test]
fn layout_command_rotates() {
    let mut s = one_monitor();
    assert_eq!(s.monitors.cur().layout, LayoutType::MonadTall);
    cmd(&mut s, Command::Layout(LayoutSubcommand::Next));
    assert_eq!(s.monitors.cur().layout, LayoutType::Grid);
    cmd(&mut s, Command::Layout(LayoutSubcommand::Prev));
    cmd(&mut s, Command::Layout(LayoutSubcommand::Prev));
    assert_eq!(s.monitors.cur().layout, LayoutType::Floating);
}

#[test]
fn monitor_focus_and_send() {
    let mut s = wm_with(vec![Rect::new(0, 0, 960, 1080), Rect::new(960, 0, 960, 1080)]);
    map(&mut s, 1);
    cmd(&mut s, Command::Monitor(MonitorSubcommand::Focus(Direction::Down)));
    assert_eq!(s.monitors.cur, 1);
    assert_eq!(focused(&s), None);
    cmd(&mut s, Command::Monitor(MonitorSubcommand::Focus(Direction::Down)));
    assert_eq!(s.monitors.cur, 0);
    cmd(&mut s, Command::Window(WindowSubcommand::Send(Destination::Monitor(Direction::Up))));
    assert_eq!(s.monitors.cur, 1);
    assert_eq!(order(&s, 1), vec![1]);
    assert!(order(&s, 0).is_empty());
    assert_eq!(focused(&s), Some(1));
}

#[test]
fn float_toggle_leaves_tiling() {
    let mut s = one_monitor();
    map(&mut s, 2);
    map(&mut s, 1);
    cmd(&mut s, Command::Window(WindowSubcommand::Toggle(WindowToggle::Float)));
    assert!(s.monitors.monitors[0].windows.windows[0].floating);
    // The other window now tiles alone and fills the monitor.
    let w = &s.monitors.monitors[0].windows.windows[1];
    assert_eq!((w.x, w.y, w.width, w.height), (0, 0, 1920, 1080));
}

#[test]
fn spawn_rule_moves_window_to_tag() {
    let mut s = one_monitor();
    s.config.rules.push(rwm::config::SpawnRule::ClassName(String::from("Firefox"), vec![TagId(3)]));
    let mut w = new_window(9, 0, 0);
    w.class_prop = String::from("Navigator\0Firefox\0");
    s.handle_event(XEvent::MapRequest(w));
    let rec = &s.monitors.monitors[0].windows.windows[0];
    assert_eq!(rec.tags, vec![TagId(3)]);
    assert_eq!(focused(&s), None);
}

#[test]
fn transient_window_floats_with_parent_tags() {
    let mut s = one_monitor();
    map(&mut s, 1);
    let mut w = new_window(2, 0, 0);
    w.transient_for = Some(1);
    s.handle_event(XEvent::MapRequest(w));
    let rec = &s.monitors.monitors[0].windows.windows[0];
    assert!(rec.floating);
    assert_eq!(rec.tags, vec![TagId(1)]);
}

#[test]
fn property_notify_makes_transient_float() {
    let mut s = one_monitor();
    map(&mut s, 1);
    map(&mut s, 2);
    s.handle_event(XEvent::PropertyNotify { window: 2, deleted: false, atom: 68, transient_for: Some(1) });
    assert!(s.monitors.monitors[0].windows.windows[0].floating);
    s.handle_event(XEvent::PropertyNotify { window: 1, deleted: false, atom: 39, transient_for: Some(2) });
    assert!(!s.monitors.monitors[0].windows.windows[1].floating);
}

#[test]
fn enter_notify_follows_cursor() {
    let mut s = one_monitor();
    map(&mut s, 2);
    map(&mut s, 1);
    s.handle_event(XEvent::EnterNotify { window: 2, mode: 0, detail: 3 });
    assert_eq!(focused(&s), Some(1));
    s.handle_event(XEvent::EnterNotify { window: 2, mode: 0, detail: 2 });
    assert_eq!(focused(&s), Some(2));
}

#[test]
fn scan_manages_viewable_windows() {
    let mut s = one_monitor();
    let reqs = s.scan_windows(vec![
        ScannedWindow { info: new_window(1, 0, 0), override_redirect: false, mapped: true },
        ScannedWindow { info: new_window(2, 0, 0), override_redirect: true, mapped: true },
        ScannedWindow { info: new_window(3, 0, 0), override_redirect: false, mapped: false },
    ]);
    assert!(reqs.contains(&XRequest::SetInputFocus { window: 1 }));
    assert_eq!(order(&s, 0), vec![1]);
    assert_eq!(focused(&s), Some(1));
    assert!(!reqs.is_empty());
}

#[test]
fn reconcile_requests_map_place_and_focus_root() {
    let mut s = one_monitor();
    map(&mut s, 2);
    map(&mut s, 1);
    cmd(&mut s, Command::Window(WindowSubcommand::Send(Destination::Tag { tag_id: TagId(2) })));
    cmd(&mut s, Command::Window(WindowSubcommand::Send(Destination::Tag { tag_id: TagId(2) })));
    let mut reqs = Vec::new();
    s.update_windows(&mut reqs);
    assert_eq!(
        reqs,
        vec![
            XRequest::UnmapWindow { window: 1 },
            XRequest::UnmapWindow { window: 2 },
            XRequest::SetInputFocus { window: 999 },
        ]
    );
}

#[test]
fn focus_requests_revert_previous_window() {
    let mut s = one_monitor();
    map(&mut s, 2);
    map(&mut s, 1);
    let mut reqs = Vec::new();
    s.focus(2, &mut reqs);
    assert_eq!(
        reqs,
        vec![
            XRequest::GrabButtons { window: 1, focused: false },
            XRequest::SetBorderColor { window: 1, argb: 0xffd3d3d3 },
            XRequest::GrabButtons { window: 2, focused: true },
            XRequest::SetBorderColor { window: 2, argb: 0xff0000ff },
            XRequest::SetInputFocus { window: 2 },
        ]
    );
    let mut again = Vec::new();
    s.focus(2, &mut again);
    assert!(again.is_empty());
    s.focus(77, &mut again);
    assert!(again.is_empty());
}

#[test]
fn error_messages() {
    assert_eq!(rwm::geometry::TagValueError { tag_num: 12 }.message(), "Tags can be from 1 to 9: 12");
    assert_eq!(
        rwm::config::LoadConfigError::new(String::from("bad")).message(),
        "Failed to load configuration: bad"
    );
}
