use oorandom::Rand32;
use rwm::color::Color;
use rwm::command::{
    frame, frame_length, unframe, Command, CommandParseError, ConfigSubcommand, Destination, FrameError,
    LayoutSubcommand, MonitorSubcommand, TagSubcommand, WindowSubcommand, WindowToggle,
};
use rwm::config::{split_class_names, Config, LoadConfigError, SpawnRule};
use rwm::geometry::{parse_u8, Direction, LayoutType, Rect, TagId, TagValueError};
use rwm::history::WindowsHistory;
use rwm::layout::{arrange, Placement};
use rwm::modkey::{button_grabs, clean_mask, ButtonGrab, ModKey};
use rwm::monitor::Monitor;
use rwm::window::{TagState, WinState};

fn tags_with(visible: &[u8]) -> Vec<TagState> {
    (1..=9u8)
        .map(|i| TagState { id: TagId(i), visible: visible.contains(&i), layout: LayoutType::MonadTall })
        .collect()
}

fn win(id: u32, tags: &[u8]) -> WinState {
    WinState { id, x: 0, y: 0, width: 10, height: 10, tags: tags.iter().map(|t| TagId(*t)).collect(), floating: false }
}

fn history(ws: Vec<WinState>, cur: Option<usize>) -> WindowsHistory {
    WindowsHistory { windows: ws, cur }
}

fn ids(h: &WindowsHistory) -> Vec<u32> {
    h.windows.iter().map(|w| w.id).collect()
}

#[test]
fn rect_contains_point_inclusive() {
    let r = Rect::new(10, 20, 100, 50);
    assert!(r.contains_point(10, 20));
    assert!(r.contains_point(110, 70));
    assert!(!r.contains_point(111, 70));
    assert!(!r.contains_point(9, 30));
}

#[test]
fn tag_id_bounds() {
    assert_eq!(TagId::new(1), Ok(TagId(1)));
    assert_eq!(TagId::new(9), Ok(TagId(9)));
    assert_eq!(TagId::new(0), Err(TagValueError { tag_num: 0 }));
    assert_eq!(TagId::new(10), Err(TagValueError { tag_num: 10 }));
    assert_eq!(TagId::parse("7"), Ok(TagId(7)));
    assert_eq!(TagId::parse("+3"), Ok(TagId(3)));
    assert_eq!(TagId::parse("12"), Err(TagValueError { tag_num: 12 }));
    assert_eq!(TagId::parse("x"), Err(TagValueError { tag_num: 0 }));
    assert_eq!(TagId::parse("300"), Err(TagValueError { tag_num: 0 }));
    assert_eq!(TagId::from_int_unchecked(42).get(), 42);
}

#[test]
fn parse_u8_like_std() {
    for s in ["0", "255", "256", "", "+", "+1", "-1", "007", " 1", "1a"] {
        assert_eq!(parse_u8(s), s.parse::<u8>().ok(), "{}", s);
    }
}

#[test]
fn layout_ring_wraps() {
    let ring = [LayoutType::MonadTall, LayoutType::Grid, LayoutType::Floating];
    assert_eq!(LayoutType::MonadTall.next(&ring), LayoutType::Grid);
    assert_eq!(LayoutType::Floating.next(&ring), LayoutType::MonadTall);
    assert_eq!(LayoutType::MonadTall.prev(&ring), LayoutType::Floating);
    assert_eq!(LayoutType::Grid.prev(&ring), LayoutType::MonadTall);
}

#[test]
fn tag_state_new() {
    assert!(TagState::new(4, true, LayoutType::Grid).is_ok());
    assert_eq!(TagState::new(0, true, LayoutType::Grid), Err(TagValueError { tag_num: 0 }));
}

#[test]
fn win_state_takes_visible_tags() {
    let w = WinState::new(5, 1, 2, 3, 4, &tags_with(&[2, 5]));
    assert_eq!(w.tags, vec![TagId(2), TagId(5)]);
    assert!(!w.floating);
}

#[test]
fn history_find_next_and_prev_wrap_over_hidden() {
    let tags = tags_with(&[1]);
    let h = history(vec![win(1, &[1]), win(2, &[2]), win(3, &[1]), win(4, &[3])], Some(2));
    assert_eq!(h.find_next(&tags), Some(0));
    assert_eq!(h.find_prev(&tags), Some(0));
    let h = history(vec![win(1, &[1]), win(2, &[2]), win(3, &[1])], Some(0));
    assert_eq!(h.find_next(&tags), Some(2));
    assert_eq!(h.find_prev(&tags), Some(2));
    let h = history(vec![win(1, &[2])], None);
    assert_eq!(h.find_next(&tags), None);
}

#[test]
fn history_push_front_keeps_cursor_record() {
    let mut h = history(vec![win(1, &[1]), win(2, &[1])], Some(1));
    h.push_front(win(3, &[1]));
    assert_eq!(ids(&h), vec![3, 1, 2]);
    assert_eq!(h.cur, Some(2));
}

#[test]
fn history_reset_and_set_focused() {
    let tags = tags_with(&[2]);
    let mut h = history(vec![win(1, &[1]), win(2, &[2]), win(3, &[2])], Some(0));
    assert_eq!(h.reset_focus(&tags), Some(1));
    h.set_focused(3);
    assert_eq!(h.cur, Some(2));
    h.set_focused(99);
    assert_eq!(h.cur, Some(2));
    assert!(h.contains(1));
    assert!(!h.contains(99));
}

#[test]
fn history_forget_focused_picks_next_visible() {
    let tags = tags_with(&[1]);
    let mut h = history(vec![win(1, &[1]), win(2, &[1]), win(3, &[2]), win(4, &[1])], Some(1));
    let (removed, next) = h.forget(2, &tags);
    assert_eq!(removed.map(|w| w.id), Some(2));
    assert_eq!(next, Some(4));
    assert_eq!(h.cur, None);
    assert_eq!(ids(&h), vec![1, 3, 4]);
    // The last visible record wraps to the first.
    let mut h = history(vec![win(1, &[1]), win(2, &[2]), win(3, &[1])], Some(2));
    assert_eq!(h.forget(3, &tags).1, Some(1));
    // No other visible record: nothing to focus.
    let mut h = history(vec![win(1, &[2]), win(2, &[1])], Some(1));
    assert_eq!(h.forget(2, &tags).1, None);
}

#[test]
fn history_forget_other_keeps_focused() {
    let tags = tags_with(&[1]);
    let mut h = history(vec![win(1, &[1]), win(2, &[1]), win(3, &[1])], Some(2));
    assert_eq!(h.forget(1, &tags).1, Some(3));
    let mut h = history(vec![win(1, &[1]), win(2, &[1])], Some(0));
    assert_eq!(h.forget(2, &tags).1, Some(1));
    let mut h = history(vec![win(1, &[1])], Some(0));
    let (r, n) = h.forget(7, &tags);
    assert!(r.is_none() && n.is_none());
    assert_eq!(h.cur, Some(0));
}

#[test]
fn history_shift_round_trip() {
    let tags = tags_with(&[1]);
    let mut h = history(vec![win(1, &[1]), win(2, &[2]), win(3, &[1]), win(4, &[1])], Some(0));
    h.shift(Direction::Down, &tags);
    assert_eq!(ids(&h), vec![3, 2, 1, 4]);
    assert_eq!(h.cur, Some(2));
    h.shift(Direction::Up, &tags);
    assert_eq!(ids(&h), vec![1, 2, 3, 4]);
    assert_eq!(h.cur, Some(0));
    h.shift(Direction::Up, &tags);
    assert_eq!(ids(&h), vec![4, 2, 3, 1]);
    h.shift(Direction::Down, &tags);
    assert_eq!(ids(&h), vec![1, 2, 3, 4]);
}

#[test]
fn monad_tall_geometry() {
    let r = Rect::new(0, 0, 1000, 800);
    let ps = arrange(LayoutType::MonadTall, &[1, 2, 3], r, 2, 4);
    assert_eq!(
        ps,
        vec![
            Placement { window: 1, x: 4, y: 4, width: 592, height: 788, border_width: 2 },
            Placement { window: 2, x: 608, y: 4, width: 384, height: 388, border_width: 2 },
            Placement { window: 3, x: 608, y: 404, width: 384, height: 388, border_width: 2 },
        ]
    );
}

#[test]
fn grid_geometry() {
    let r = Rect::new(10, 0, 1000, 800);
    let ps = arrange(LayoutType::Grid, &[1, 2, 3], r, 2, 4);
    assert_eq!(
        ps,
        vec![
            Placement { window: 1, x: 14, y: 4, width: 488, height: 388, border_width: 2 },
            Placement { window: 2, x: 514, y: 4, width: 488, height: 388, border_width: 2 },
            Placement { window: 3, x: 14, y: 404, width: 488, height: 388, border_width: 2 },
        ]
    );
}

#[test]
fn layout_edge_cases() {
    let r = Rect::new(5, 6, 300, 200);
    assert!(arrange(LayoutType::MonadTall, &[], r, 2, 4).is_empty());
    assert!(arrange(LayoutType::Floating, &[1, 2], r, 2, 4).is_empty());
    let single = Placement { window: 1, x: 5, y: 6, width: 300, height: 200, border_width: 0 };
    assert_eq!(arrange(LayoutType::Grid, &[1], r, 2, 4), vec![single]);
    assert_eq!(arrange(LayoutType::MonadTall, &[1], r, 2, 4), vec![single]);
    // Borders and gaps larger than the cells still leave one pixel.
    let tiny = arrange(LayoutType::MonadTall, &[1, 2], Rect::new(0, 0, 10, 10), 50, 50);
    assert!(tiny.iter().all(|p| p.width >= 1 && p.height >= 1));
}

#[test]
fn monitor_new_has_tag_one_visible() {
    let mut rng = Rand32::new(3);
    let m = Monitor::new(LayoutType::Grid, &mut rng, Rect::new(0, 0, 100, 100));
    assert_eq!(m.tags.len(), 9);
    assert!(m.tags[0].visible);
    assert!(m.tags[1..].iter().all(|t| !t.visible && t.layout == LayoutType::Grid));
    assert_eq!(m.layout, LayoutType::Grid);
    assert!(m.contains_point(100, 100));
    assert!(!m.contains_window(1));
}

#[test]
fn color_parse_and_print() {
    let c = Color::parse("#00ff7F").ok().unwrap();
    assert_eq!(c, Color::new(0, 255, 127));
    assert_eq!(c.to_hex(), "#00FF7F");
    assert_eq!(Color::parse("  xyz#D3D3D3 \n").ok(), Some(Color::new(211, 211, 211)));
    assert_eq!(Color::blue().argb(), 0xff0000ff);
    assert_eq!(Color::new(211, 211, 211).argb(), 0xffd3d3d3);
    match Color::parse("#12345") {
        Err(e) => assert_eq!(e.color, "12345"),
        Ok(_) => panic!("too short"),
    }
    match Color::parse("#12345g") {
        Err(e) => assert_eq!(e.color, "invalid digit found in string"),
        Ok(_) => panic!("bad digit"),
    }
    match Color::parse("#1234g5") {
        Err(e) => assert_eq!(e.color, "invalid digit found in string"),
        Ok(_) => panic!("bad digit"),
    }
}

#[test]
fn mod_key_names() {
    assert_eq!(ModKey::parse(" Mod1 ").ok(), Some(ModKey::Mod1));
    assert_eq!(ModKey::parse("mod 4").ok(), Some(ModKey::Mod4));
    assert_eq!(ModKey::parse("CTRL").ok(), Some(ModKey::Control));
    assert_eq!(ModKey::parse("shift").ok(), Some(ModKey::Shift));
    match ModKey::parse("hyper") {
        Err(e) => assert_eq!(e.mask, "hyper"),
        Ok(_) => panic!("unknown"),
    }
    assert_eq!(ModKey::Mod1.bits(), 8);
    assert_eq!(ModKey::Mod4.name(), "Mod 4");
}

#[test]
fn clean_mask_drops_lock_and_numlock() {
    assert_eq!(clean_mask(8 | 2 | 16), 8);
    assert_eq!(clean_mask(0x100 | 4), 4);
    assert_eq!(clean_mask(0xffff), 0xed);
}

#[test]
fn grabs_for_focused_and_other_windows() {
    assert_eq!(
        button_grabs(ModKey::Mod1, true),
        vec![
            ButtonGrab { modifiers: 8, pointer_sync: false, keyboard_sync: true },
            ButtonGrab { modifiers: 10, pointer_sync: false, keyboard_sync: true },
            ButtonGrab { modifiers: 24, pointer_sync: false, keyboard_sync: true },
            ButtonGrab { modifiers: 26, pointer_sync: false, keyboard_sync: true },
        ]
    );
    assert_eq!(
        button_grabs(ModKey::Mod4, false),
        vec![ButtonGrab { modifiers: 32768, pointer_sync: false, keyboard_sync: false }]
    );
}

#[test]
fn frame_round_trip_and_errors() {
    let payload = br#"{"Window":{"Shift":"Down"}}"#;
    let f = frame(payload).ok().unwrap();
    assert_eq!(&f[..4], b"0027");
    assert_eq!(unframe(&f), Ok(payload.to_vec()));
    let big = vec![b'a'; 9999];
    let f = frame(&big).ok().unwrap();
    assert_eq!(&f[..4], b"9999");
    assert_eq!(unframe(&f), Ok(big));
    assert_eq!(frame(&vec![0u8; 10000]), Err(FrameError::TooLong));
    assert_eq!(frame_length(b"00a1"), Err(FrameError::BadHeader));
    assert_eq!(frame_length(b"0042"), Ok(42));
    assert_eq!(unframe(b"0005abc"), Err(FrameError::Truncated));
    assert_eq!(unframe(b"0000"), Ok(vec![]));
}

#[test]
fn class_names_split() {
    assert_eq!(split_class_names("\0navigator\0Firefox\0\0"), vec!["navigator", "Firefox"]);
    assert_eq!(split_class_names("xterm"), vec!["xterm"]);
    assert_eq!(split_class_names(""), vec![""]);
}

#[test]
fn rules_last_match_and_name_fallback() {
    let mut c = Config::default();
    c.rules = vec![
        SpawnRule::ClassName(String::from("Firefox"), vec![TagId(2)]),
        SpawnRule::ClassName(String::from("Firefox"), vec![TagId(3)]),
        SpawnRule::WmName(String::from("htop"), vec![TagId(9)]),
    ];
    assert_eq!(c.rule_tags_for("navigator\0Firefox", ""), Some(vec![TagId(3)]));
    assert_eq!(c.rule_tags_for("xterm\0XTerm", "htop"), Some(vec![TagId(9)]));
    assert_eq!(c.rule_tags_for("xterm\0XTerm", "top"), None);
}

#[test]
fn default_config_values() {
    let c = Config::default();
    assert_eq!(c.border_width, 4);
    assert_eq!(c.gap, 4);
    assert_eq!(c.focused_border_color, Color::blue());
    assert_eq!(c.normal_border_color, Color::new(211, 211, 211));
    assert_eq!(c.mod_key, ModKey::Mod1);
    assert_eq!(c.layouts, vec![LayoutType::MonadTall, LayoutType::Grid, LayoutType::Floating]);
    assert!(c.follow_cursor);
    assert!(c.path.is_none());
    assert_eq!(LoadConfigError::new(String::from("x")).error, "x");
}

#[test]
fn command_lines_parse() {
    assert_eq!(Command::parse("quit"), Ok(Command::Quit));
    assert_eq!(Command::parse("  EXIT \n"), Ok(Command::Quit));
    assert_eq!(Command::parse("tag switch 3"), Ok(Command::Tag(TagSubcommand::Switch { tag_id: TagId(3) })));
    assert_eq!(Command::parse("tag toggle 9"), Ok(Command::Tag(TagSubcommand::Toggle { tag_id: TagId(9) })));
    assert_eq!(
        Command::parse("tag toggle 10"),
        Err(CommandParseError::BadTag(TagValueError { tag_num: 10 }))
    );
    assert_eq!(Command::parse("tag toggle x"), Err(CommandParseError::BadTag(TagValueError { tag_num: 0 })));
    assert_eq!(Command::parse("win kill"), Ok(Command::Window(WindowSubcommand::Destroy)));
    assert_eq!(
        Command::parse("window send tag 2"),
        Ok(Command::Window(WindowSubcommand::Send(Destination::Tag { tag_id: TagId(2) })))
    );
    assert_eq!(
        Command::parse("window send monitor up"),
        Ok(Command::Window(WindowSubcommand::Send(Destination::Monitor(Direction::Up))))
    );
    assert_eq!(Command::parse("window focus Down"), Ok(Command::Window(WindowSubcommand::Focus(Direction::Down))));
    assert_eq!(Command::parse("window move up"), Ok(Command::Window(WindowSubcommand::Shift(Direction::Up))));
    assert_eq!(
        Command::parse("window toggle float"),
        Ok(Command::Window(WindowSubcommand::Toggle(WindowToggle::Float)))
    );
    assert_eq!(Command::parse("layout previous"), Ok(Command::Layout(LayoutSubcommand::Prev)));
    assert_eq!(Command::parse("layout next"), Ok(Command::Layout(LayoutSubcommand::Next)));
    assert_eq!(Command::parse("config print"), Ok(Command::Config(ConfigSubcommand::Print)));
    assert_eq!(Command::parse("config load"), Ok(Command::Config(ConfigSubcommand::Load { path: None })));
    assert_eq!(
        Command::parse("Config LOAD /tmp/Good.ron"),
        Ok(Command::Config(ConfigSubcommand::Load { path: Some(String::from("/tmp/Good.ron")) }))
    );
    assert_eq!(
        Command::parse("monitor focus down"),
        Ok(Command::Monitor(MonitorSubcommand::Focus(Direction::Down)))
    );
    assert_eq!(Command::parse(""), Err(CommandParseError::Unrecognised));
    assert_eq!(Command::parse("window focus left"), Err(CommandParseError::Unrecognised));
    assert_eq!(Command::parse("quit now"), Err(CommandParseError::Unrecognised));
}

#[test]
fn words_split_on_white_space() {
    assert_eq!(rwm::command::split_words("  a bb\tccc \n"), vec!["a", "bb", "ccc"]);
    assert!(rwm::command::split_words(" \t ").is_empty());
}

#[test]
fn tag_slots_and_monitors_compare_by_id() {
    let a = TagState { id: TagId(2), visible: true, layout: LayoutType::Grid };
    let b = TagState { id: TagId(2), visible: false, layout: LayoutType::Floating };
    let c = TagState { id: TagId(3), visible: true, layout: LayoutType::Grid };
    assert!(a == b);
    assert!(a != c);
    let m1 = Monitor::with_id(5, LayoutType::Grid, Rect::new(0, 0, 10, 10));
    let m2 = Monitor::with_id(5, LayoutType::MonadTall, Rect::new(10, 0, 10, 10));
    let m3 = Monitor::with_id(6, LayoutType::Grid, Rect::new(0, 0, 10, 10));
    assert!(m1 == m2);
    assert!(m1 != m3);
}
