use std::collections::BTreeMap;

use bmpwatch::browser::{
    add_recent, clamp_opt, collector_label, dec_opt, ensure_visible, handle_mouse_event, inc_opt, point_in, Action,
    ActionResult, BrowserKey, BrowserLayout, BrowserModel, BrowserSession, BrowserStep, ClickTracker, MouseKind, Pane,
    Rect,
};
use bmpwatch::names::NameBook;
use bmpwatch::panels::{browser_subtitle, collector_rows, selection_line, stream_rows, stream_title, ListRow, Tint};
use bmpwatch::topics::truncate_str;

fn no_names() -> NameBook {
    NameBook::new(BTreeMap::new(), BTreeMap::new(), BTreeMap::new(), BTreeMap::new())
}

fn test_topics() -> Vec<String> {
    vec![
        "routeviews.chicago.13335.bmp_raw".into(),
        "routeviews.chicago.2914.bmp_raw".into(),
        "routeviews.linx.13335.bmp_raw".into(),
        "routeviews.linx.3257.bmp_raw".into(),
        "routeviews.nwax.714.bmp_raw".into(),
        "routeviews.UNDEFINED_ROUTER_GROUP.99999.bmp_raw".into(),
    ]
}

fn assert_invariants(m: &BrowserModel) {
    if let Some(i) = m.selected_collector {
        assert!(i < m.filtered_indices.len());
    }
    if let Some(i) = m.selected_stream {
        assert!(i < m.current_streams().len());
    }
    if m.filtered_indices.is_empty() && m.active_pane == Pane::Collectors {
        assert!(m.current_streams().is_empty());
    }
}

fn model() -> BrowserModel {
    BrowserModel::new(&test_topics(), &no_names())
}

fn rect(x: u16, y: u16, width: u16, height: u16) -> Rect {
    Rect { x, y, width, height }
}

// Panes of an 80x24 terminal: title y=0..3, search y=3..6, body y=6..21,
// footer y=21..24; the body split in halves.
fn test_layout() -> BrowserLayout {
    BrowserLayout { collector_pane: rect(0, 6, 40, 15), stream_pane: rect(40, 6, 40, 15) }
}

fn mouse(m: &mut BrowserModel, kind: MouseKind, col: u16, row: u16, tracker: &mut ClickTracker, now_ms: u64) -> ActionResult {
    handle_mouse_event(m, &test_layout(), kind, col, row, tracker, now_ms)
}

fn click(m: &mut BrowserModel, col: u16, row: u16) -> ActionResult {
    mouse(m, MouseKind::LeftDown, col, row, &mut ClickTracker::new(), 0)
}

// ── Initialization ──

#[test]
fn test_new_empty() {
    let m = BrowserModel::new(&[], &no_names());
    assert!(m.filtered_indices.is_empty());
    assert_eq!(m.selected_collector, None);
    assert_eq!(m.selected_stream, None);
    assert_eq!(m.selected_topic(), None);
    assert_invariants(&m);
}

#[test]
fn test_new_one_collector_one_stream() {
    let m = BrowserModel::new(&["routeviews.chicago.13335.bmp_raw".to_string()], &no_names());
    assert_eq!(m.filtered_indices.len(), 1);
    assert_eq!(m.selected_collector, Some(0));
    assert_eq!(m.current_streams().len(), 1);
    assert_invariants(&m);
}

#[test]
fn test_empty_filter_hides_undefined() {
    let m = model();
    let has_undef = m.filtered_indices.iter().any(|&i| m.all_collectors[i].raw_name.contains("UNDEFINED"));
    assert!(!has_undef);
    assert_invariants(&m);
}

#[test]
fn test_filter_reveals_undefined_if_matched() {
    let mut m = model();
    let names = no_names();
    for _ in 0..5 {
        m.apply(Action::TypeChar('9'), &names);
    }
    let has_undef = m.filtered_indices.iter().any(|&i| m.all_collectors[i].raw_name.contains("UNDEFINED"));
    assert!(has_undef);
    assert_invariants(&m);
}

#[test]
fn test_filter_by_asn() {
    let mut m = model();
    let names = no_names();
    for c in "13335".chars() {
        m.apply(Action::TypeChar(c), &names);
    }
    assert!(!m.filtered_indices.is_empty());
    assert_invariants(&m);
}

#[test]
fn test_filter_by_collector_name() {
    let mut m = model();
    let names = no_names();
    for c in "chicago".chars() {
        m.apply(Action::TypeChar(c), &names);
    }
    assert_eq!(m.filtered_indices.len(), 1);
    assert_invariants(&m);
}

#[test]
fn test_filter_zero_results() {
    let mut m = model();
    let names = no_names();
    for c in "zzzzzzz".chars() {
        m.apply(Action::TypeChar(c), &names);
    }
    assert!(m.filtered_indices.is_empty());
    assert_eq!(m.selected_collector, None);
    assert_eq!(m.selected_topic(), None);
    assert_invariants(&m);
}

#[test]
fn test_backspace_restores_list() {
    let mut m = model();
    let names = no_names();
    let before = m.filtered_indices.len();
    for c in "zzz".chars() {
        m.apply(Action::TypeChar(c), &names);
    }
    assert!(m.filtered_indices.is_empty());
    m.apply(Action::Backspace, &names);
    m.apply(Action::Backspace, &names);
    m.apply(Action::Backspace, &names);
    assert_eq!(m.filtered_indices.len(), before);
    assert_invariants(&m);
}

// ── Navigation ──

#[test]
fn test_move_up_at_top_stays() {
    let mut m = model();
    m.apply(Action::MoveUp, &no_names());
    assert_eq!(m.selected_collector, Some(0));
    assert_invariants(&m);
}

#[test]
fn test_move_down_at_bottom_stays() {
    let mut m = model();
    let names = no_names();
    let len = m.filtered_indices.len();
    for _ in 0..100 {
        m.apply(Action::MoveDown, &names);
    }
    assert_eq!(m.selected_collector, Some(len - 1));
    assert_invariants(&m);
}

#[test]
fn test_move_down_stream_clamped() {
    let mut m = model();
    let names = no_names();
    m.apply(Action::Enter, &names);
    for _ in 0..100 {
        m.apply(Action::MoveDown, &names);
    }
    let max = m.current_streams().len() - 1;
    assert_eq!(m.selected_stream, Some(max));
    assert_invariants(&m);
}

#[test]
fn test_switch_pane_to_empty_stays() {
    let mut m = BrowserModel::new(&[], &no_names());
    m.apply(Action::SwitchPane, &no_names());
    assert_eq!(m.active_pane, Pane::Collectors);
    assert_invariants(&m);
}

#[test]
fn test_switch_pane_works_after_collector_selection() {
    let mut m = model();
    m.apply(Action::SwitchPane, &no_names());
    assert_eq!(m.active_pane, Pane::Streams);
    assert_invariants(&m);
}

// ── Enter behavior ──

#[test]
fn test_enter_on_collector_switches_to_streams() {
    let mut m = model();
    let result = m.apply(Action::Enter, &no_names());
    assert_eq!(result, ActionResult::Nothing);
    assert_eq!(m.active_pane, Pane::Streams);
    assert_invariants(&m);
}

#[test]
fn test_enter_on_stream_returns_topic() {
    let mut m = model();
    let names = no_names();
    m.apply(Action::Enter, &names);
    let topic = m.selected_topic().unwrap();
    let result = m.apply(Action::Enter, &names);
    assert_eq!(result, ActionResult::Selected(topic));
    assert_invariants(&m);
}

#[test]
fn test_enter_on_zero_result_does_nothing() {
    let mut m = model();
    let names = no_names();
    for c in "zzz".chars() {
        m.apply(Action::TypeChar(c), &names);
    }
    m.apply(Action::Enter, &names);
    let result = m.apply(Action::Enter, &names);
    assert_eq!(result, ActionResult::Nothing);
    assert_eq!(m.selected_topic(), None);
    assert_invariants(&m);
}

#[test]
fn test_filter_shrink_clamps_selection() {
    let mut m = model();
    let names = no_names();
    m.apply(Action::MoveDown, &names);
    assert_eq!(m.selected_collector, Some(1));
    for c in "chicago".chars() {
        m.apply(Action::TypeChar(c), &names);
    }
    assert_eq!(m.selected_collector, Some(0));
    assert_invariants(&m);
}

// ── Scroll ──

#[test]
fn test_ensure_visible_empty() {
    let mut scroll = 5;
    ensure_visible(None, &mut scroll, 0, 10);
    assert_eq!(scroll, 0);
}

#[test]
fn test_ensure_visible_in_viewport_unchanged() {
    let mut scroll = 5;
    ensure_visible(Some(7), &mut scroll, 20, 10);
    assert_eq!(scroll, 5);
}

#[test]
fn test_ensure_visible_above_scrolls_up() {
    let mut scroll = 10;
    ensure_visible(Some(3), &mut scroll, 20, 10);
    assert_eq!(scroll, 3);
}

#[test]
fn test_ensure_visible_below_scrolls_down() {
    let mut scroll = 0;
    ensure_visible(Some(15), &mut scroll, 20, 10);
    assert_eq!(scroll, 6);
}

#[test]
fn test_ensure_visible_at_edge_no_scroll() {
    let mut scroll = 5;
    ensure_visible(Some(5), &mut scroll, 20, 10);
    assert_eq!(scroll, 5);
    ensure_visible(Some(14), &mut scroll, 20, 10);
    assert_eq!(scroll, 5);
}

#[test]
fn test_ensure_visible_clamps_invalid_scroll() {
    let mut scroll = 100;
    ensure_visible(Some(18), &mut scroll, 20, 10);
    assert_eq!(scroll, 10);
}

// ── Endurance ──

#[test]
fn test_endurance_500_actions() {
    let mut m = model();
    let names = no_names();
    let actions = [
        Action::MoveDown,
        Action::MoveDown,
        Action::MoveUp,
        Action::SwitchPane,
        Action::MoveDown,
        Action::MoveUp,
        Action::SwitchPane,
        Action::TypeChar('1'),
        Action::TypeChar('3'),
        Action::Backspace,
        Action::Backspace,
        Action::Enter,
        Action::MoveDown,
        Action::Enter,
    ];
    for _ in 0..500 {
        for &a in &actions {
            m.apply(a, &names);
            assert_invariants(&m);
        }
    }
}

// ── Typing ──

#[test]
fn test_normal_typing_still_works() {
    let mut m = model();
    let names = no_names();
    m.apply(Action::TypeChar('a'), &names);
    m.apply(Action::TypeChar('b'), &names);
    assert_eq!(m.filter, "ab");
}

#[test]
fn test_bracket_without_esc_is_allowed() {
    let mut m = model();
    let names = no_names();
    m.apply(Action::TypeChar('['), &names);
    m.apply(Action::TypeChar('A'), &names);
    assert_eq!(m.filter, "[A");
}

#[test]
fn test_truncate_ascii() {
    assert_eq!(truncate_str("Hello", 3), "Hel…");
    assert_eq!(truncate_str("Hello", 10), "Hello");
}

#[test]
fn test_truncate_multibyte() {
    assert_eq!(truncate_str("São Paulo", 4), "São …");
    assert_eq!(truncate_str("Malmö", 8), "Malmö");
    assert_eq!(truncate_str("Querétaro", 6), "Querét…");
}

// ── Mouse ──

#[test]
fn test_click_collector_row_selects() {
    let mut m = model();
    let result = click(&mut m, 1, 7);
    assert_eq!(result, ActionResult::Nothing);
    assert_eq!(m.selected_collector, Some(0));
    assert_eq!(m.active_pane, Pane::Collectors);
}

#[test]
fn test_click_collector_header_noop() {
    let mut m = model();
    let initial = m.selected_collector;
    let result = click(&mut m, 1, 6);
    assert_eq!(result, ActionResult::Nothing);
    assert_eq!(m.selected_collector, initial);
}

#[test]
fn test_click_stream_row_selects() {
    let mut m = model();
    let result = click(&mut m, 41, 7);
    assert_eq!(result, ActionResult::Nothing);
    assert_eq!(m.selected_stream, Some(0));
    assert_eq!(m.active_pane, Pane::Streams);
}

#[test]
fn test_click_below_stream_rows_noop() {
    let mut m = model();
    let initial = m.selected_stream;
    let streams_len = m.current_streams().len();
    let below_content = test_layout().stream_pane.y + 1 + streams_len as u16;
    let result = click(&mut m, 41, below_content);
    assert_eq!(result, ActionResult::Nothing);
    assert_eq!(m.selected_stream, initial);
}

#[test]
fn test_click_outside_panes_noop() {
    let mut m = model();
    let initial_col = m.selected_collector;
    let result = click(&mut m, 1, 1);
    assert_eq!(result, ActionResult::Nothing);
    assert_eq!(m.selected_collector, initial_col);
}

#[test]
fn test_click_does_not_return_selected() {
    let mut m = model();
    let result = click(&mut m, 41, 7);
    assert_eq!(result, ActionResult::Nothing);
}

#[test]
fn test_wheel_collector_moves_selection() {
    let mut m = model();
    let result = mouse(&mut m, MouseKind::ScrollDown, 1, 7, &mut ClickTracker::new(), 0);
    assert_eq!(result, ActionResult::Nothing);
    assert_eq!(m.selected_collector, Some(1));
    assert_eq!(m.active_pane, Pane::Collectors);
}

#[test]
fn test_wheel_stream_moves_selection() {
    let mut m = model();
    let result = mouse(&mut m, MouseKind::ScrollDown, 41, 7, &mut ClickTracker::new(), 0);
    assert_eq!(result, ActionResult::Nothing);
    assert_eq!(m.selected_stream, Some(1));
    assert_eq!(m.active_pane, Pane::Streams);
}

#[test]
fn test_wheel_over_footer_noop() {
    let mut m = model();
    let initial_col = m.selected_collector;
    let initial_stream = m.selected_stream;
    let result = mouse(&mut m, MouseKind::ScrollDown, 1, 22, &mut ClickTracker::new(), 0);
    assert_eq!(result, ActionResult::Nothing);
    assert_eq!(m.selected_collector, initial_col);
    assert_eq!(m.selected_stream, initial_stream);
}

#[test]
fn test_drag_ignored() {
    let mut m = model();
    let initial_col = m.selected_collector;
    let result = mouse(&mut m, MouseKind::Other, 1, 7, &mut ClickTracker::new(), 0);
    assert_eq!(result, ActionResult::Nothing);
    assert_eq!(m.selected_collector, initial_col);
}

#[test]
fn test_moved_ignored() {
    let mut m = model();
    let initial_col = m.selected_collector;
    let result = mouse(&mut m, MouseKind::Other, 1, 7, &mut ClickTracker::new(), 0);
    assert_eq!(result, ActionResult::Nothing);
    assert_eq!(m.selected_collector, initial_col);
}

#[test]
fn test_up_ignored() {
    let mut m = model();
    let initial_col = m.selected_collector;
    let result = mouse(&mut m, MouseKind::Other, 1, 7, &mut ClickTracker::new(), 0);
    assert_eq!(result, ActionResult::Nothing);
    assert_eq!(m.selected_collector, initial_col);
}

#[test]
fn test_enter_after_click_stream_selected() {
    let mut m = model();
    click(&mut m, 41, 7);
    assert_eq!(m.selected_stream, Some(0));
    assert_eq!(m.active_pane, Pane::Streams);
    match m.apply(Action::Enter, &no_names()) {
        ActionResult::Selected(t) => assert!(!t.is_empty()),
        _ => panic!("expected Selected after Enter on clicked stream"),
    }
}

#[test]
fn test_click_zero_results_noop() {
    let mut m = model();
    let names = no_names();
    for c in "zzzzzzz".chars() {
        m.apply(Action::TypeChar(c), &names);
    }
    assert!(m.filtered_indices.is_empty());
    let result = click(&mut m, 1, 7);
    assert_eq!(result, ActionResult::Nothing);
    assert_eq!(m.selected_collector, None);
}

#[test]
fn test_wheel_over_title_noop() {
    let mut m = model();
    let initial_col = m.selected_collector;
    let result = mouse(&mut m, MouseKind::ScrollDown, 1, 1, &mut ClickTracker::new(), 0);
    assert_eq!(result, ActionResult::Nothing);
    assert_eq!(m.selected_collector, initial_col);
}

#[test]
fn test_wheel_over_search_noop() {
    let mut m = model();
    let initial_col = m.selected_collector;
    let result = mouse(&mut m, MouseKind::ScrollDown, 1, 4, &mut ClickTracker::new(), 0);
    assert_eq!(result, ActionResult::Nothing);
    assert_eq!(m.selected_collector, initial_col);
}

#[test]
fn test_wheel_up_collector() {
    let mut m = model();
    m.apply(Action::MoveDown, &no_names());
    assert_eq!(m.selected_collector, Some(1));
    let result = mouse(&mut m, MouseKind::ScrollUp, 1, 7, &mut ClickTracker::new(), 0);
    assert_eq!(result, ActionResult::Nothing);
    assert_eq!(m.selected_collector, Some(0));
}

#[test]
fn test_click_maps_through_scroll_offset() {
    let mut topics = Vec::new();
    for i in 0..30 {
        topics.push(format!("routeviews.collector{}.{}.bmp_raw", i, 1000 + i));
    }
    let mut m = BrowserModel::new(&topics, &no_names());
    m.collector_scroll = 10;
    m.selected_collector = Some(12);
    let layout = BrowserLayout { collector_pane: rect(0, 6, 40, 10), stream_pane: rect(40, 6, 40, 10) };
    let result = handle_mouse_event(&mut m, &layout, MouseKind::LeftDown, 1, 7, &mut ClickTracker::new(), 0);
    assert_eq!(result, ActionResult::Nothing);
    assert_eq!(m.selected_collector, Some(10));
    let result = handle_mouse_event(&mut m, &layout, MouseKind::LeftDown, 1, 9, &mut ClickTracker::new(), 0);
    assert_eq!(result, ActionResult::Nothing);
    assert_eq!(m.selected_collector, Some(12));
}

#[test]
fn test_double_click_stream_returns_selected() {
    let mut m = model();
    let mut tracker = ClickTracker::new();
    let result = mouse(&mut m, MouseKind::LeftDown, 41, 7, &mut tracker, 1000);
    assert_eq!(result, ActionResult::Nothing);
    assert_eq!(m.selected_stream, Some(0));
    match mouse(&mut m, MouseKind::LeftDown, 41, 7, &mut tracker, 1200) {
        ActionResult::Selected(t) => assert!(!t.is_empty()),
        _ => panic!("expected Selected on double-click"),
    }
}

#[test]
fn test_double_click_collector_does_not_return_selected() {
    let mut m = model();
    let mut tracker = ClickTracker::new();
    mouse(&mut m, MouseKind::LeftDown, 1, 7, &mut tracker, 1000);
    assert_eq!(m.selected_collector, Some(0));
    let result = mouse(&mut m, MouseKind::LeftDown, 1, 7, &mut tracker, 1100);
    assert_eq!(result, ActionResult::Nothing);
    assert_eq!(m.selected_collector, Some(0));
}

#[test]
fn test_click_different_streams_no_double_click() {
    let mut m = model();
    let mut tracker = ClickTracker::new();
    mouse(&mut m, MouseKind::LeftDown, 41, 7, &mut tracker, 1000);
    assert_eq!(m.selected_stream, Some(0));
    let result = mouse(&mut m, MouseKind::LeftDown, 41, 8, &mut tracker, 1100);
    assert_eq!(result, ActionResult::Nothing);
    assert_eq!(m.selected_stream, Some(1));
}

#[test]
fn test_click_after_threshold_no_double_click() {
    let mut m = model();
    let mut tracker = ClickTracker::new();
    mouse(&mut m, MouseKind::LeftDown, 41, 7, &mut tracker, 1000);
    let result = mouse(&mut m, MouseKind::LeftDown, 41, 7, &mut tracker, 1501);
    assert_eq!(result, ActionResult::Nothing);
}

#[test]
fn test_wheel_between_clicks_clears_double_click_state() {
    let mut m = model();
    let mut tracker = ClickTracker::new();
    mouse(&mut m, MouseKind::LeftDown, 41, 7, &mut tracker, 1000);
    mouse(&mut m, MouseKind::ScrollDown, 41, 7, &mut tracker, 1050);
    let result = mouse(&mut m, MouseKind::LeftDown, 41, 7, &mut tracker, 1100);
    assert_eq!(result, ActionResult::Nothing);
}

#[test]
fn test_tracker_reset_prevents_double_click() {
    let mut m = model();
    let mut tracker = ClickTracker::new();
    mouse(&mut m, MouseKind::LeftDown, 41, 7, &mut tracker, 1000);
    tracker.reset();
    let result = mouse(&mut m, MouseKind::LeftDown, 41, 7, &mut tracker, 1100);
    assert_eq!(result, ActionResult::Nothing);
}

// ── More ──

#[test]
fn test_collectors_ordered_and_streams_by_asn() {
    let m = model();
    let names: Vec<&str> = m.all_collectors.iter().map(|c| c.raw_name.as_str()).collect();
    // More streams first (chicago and linx have two), name order between
    // equals, UNDEFINED last.
    assert_eq!(names, vec!["chicago", "linx", "nwax", "UNDEFINED_ROUTER_GROUP"]);
    let chicago: Vec<&str> = m.all_collectors[0].streams.iter().map(|p| p.asn_str.as_str()).collect();
    assert_eq!(chicago, vec!["2914", "13335"]);
}

#[test]
fn test_collector_label_known_and_unknown() {
    assert_eq!(collector_label("route-views.linx"), "London, United Kingdom (LINX)");
    assert_eq!(collector_label("amsix.ams"), "Amsterdam, Netherlands (AMS-IX)");
    assert_eq!(collector_label("frr"), "Test collector (FRR, Univ of Oregon)");
    assert_eq!(collector_label("nowhere"), "nowhere");
}

#[test]
fn test_filter_matches_label_case_insensitively() {
    let topics = vec!["routeviews.route-views.linx.3257.bmp_raw".to_string(), "routeviews.nwax.714.bmp_raw".to_string()];
    let mut m = BrowserModel::new(&topics, &no_names());
    let names = no_names();
    for c in "LONDON".chars() {
        m.apply(Action::TypeChar(c), &names);
    }
    assert_eq!(m.filtered_indices.len(), 1);
    assert_eq!(m.all_collectors[m.filtered_indices[0]].raw_name, "route-views.linx");
}

#[test]
fn test_filter_matches_as_name() {
    let mut seed = BTreeMap::new();
    seed.insert(714u32, "Apple Inc.".to_string());
    let names = NameBook::new(seed, BTreeMap::new(), BTreeMap::new(), BTreeMap::new());
    let mut m = BrowserModel::new(&test_topics(), &names);
    for c in "apple".chars() {
        m.apply(Action::TypeChar(c), &names);
    }
    assert_eq!(m.filtered_indices.len(), 1);
    assert_eq!(m.all_collectors[m.filtered_indices[0]].raw_name, "nwax");
}

#[test]
fn test_selection_helpers() {
    assert_eq!(clamp_opt(Some(3), 5), Some(3));
    assert_eq!(clamp_opt(Some(7), 5), Some(0));
    assert_eq!(clamp_opt(None, 5), Some(0));
    assert_eq!(clamp_opt(Some(1), 0), None);
    assert_eq!(dec_opt(Some(0)), Some(0));
    assert_eq!(dec_opt(Some(4)), Some(3));
    assert_eq!(dec_opt(None), None);
    assert_eq!(inc_opt(Some(3), 5), Some(4));
    assert_eq!(inc_opt(Some(4), 5), Some(4));
    assert_eq!(inc_opt(None, 5), None);
}

#[test]
fn test_point_in_edges() {
    let r = rect(10, 5, 4, 3);
    assert!(point_in(10, 5, &r));
    assert!(point_in(13, 7, &r));
    assert!(!point_in(14, 7, &r));
    assert!(!point_in(13, 8, &r));
    assert!(!point_in(9, 5, &r));
    let edge = rect(u16::MAX - 1, 0, 10, 1);
    assert!(point_in(u16::MAX - 1, 0, &edge));
}

#[test]
fn test_add_recent_moves_to_front_and_caps() {
    let mut recent: Vec<String> = (0..10).map(|i| format!("t{i}")).collect();
    add_recent(&mut recent, "t5");
    assert_eq!(recent[0], "t5");
    assert_eq!(recent.len(), 10);
    assert_eq!(recent.iter().filter(|t| *t == "t5").count(), 1);
    add_recent(&mut recent, "new");
    assert_eq!(recent[0], "new");
    assert_eq!(recent.len(), 10);
    assert!(!recent.contains(&"t9".to_string()));
}

#[test]
fn test_session_escape_sequence_swallowed_in_debug_mode() {
    let names = no_names();
    let mut s = BrowserSession::new(&test_topics(), &names);
    assert_eq!(s.on_key(BrowserKey::Esc, true, &names), BrowserStep::Continue);
    assert_eq!(s.on_key(BrowserKey::Char('['), true, &names), BrowserStep::Continue);
    assert_eq!(s.on_key(BrowserKey::Char('A'), true, &names), BrowserStep::Continue);
    assert_eq!(s.model.filter, "");
    assert_eq!(s.on_key(BrowserKey::Char('x'), true, &names), BrowserStep::Continue);
    assert_eq!(s.model.filter, "x");
}

#[test]
fn test_session_quit_keys() {
    let names = no_names();
    let mut s = BrowserSession::new(&test_topics(), &names);
    assert_eq!(s.on_key(BrowserKey::Esc, false, &names), BrowserStep::Quit);
    assert_eq!(s.on_key(BrowserKey::Char('q'), false, &names), BrowserStep::Quit);
}

#[test]
fn test_session_enter_twice_selects_topic() {
    let names = no_names();
    let mut s = BrowserSession::new(&test_topics(), &names);
    assert_eq!(s.on_key(BrowserKey::Enter, false, &names), BrowserStep::Continue);
    assert_eq!(
        s.on_key(BrowserKey::Enter, false, &names),
        BrowserStep::Selected("routeviews.chicago.2914.bmp_raw".to_string())
    );
}

#[test]
fn test_session_double_click_selects_topic() {
    let names = no_names();
    let mut s = BrowserSession::new(&test_topics(), &names);
    let layout = test_layout();
    assert_eq!(s.on_mouse(&layout, MouseKind::LeftDown, 41, 8, 10), BrowserStep::Continue);
    assert_eq!(
        s.on_mouse(&layout, MouseKind::LeftDown, 41, 8, 20),
        BrowserStep::Selected("routeviews.chicago.13335.bmp_raw".to_string())
    );
}

#[test]
fn test_pane_names() {
    assert_eq!(Pane::Collectors.name(), "Collectors");
    assert_eq!(Pane::Streams.name(), "Streams");
}

#[test]
fn test_collector_move_clamps_stream_selection() {
    let mut m = model();
    let actions = [
        Action::Enter,
        Action::MoveDown,
        Action::SwitchPane,
        Action::MoveDown,
        Action::MoveDown,
    ];
    for &a in &actions {
        m.apply(a, &no_names());
        assert_invariants(&m);
    }
    assert_eq!(m.active_pane, Pane::Collectors);
}

fn row_text(r: &ListRow) -> String {
    r.pieces.iter().map(|p| p.text.as_str()).collect::<Vec<&str>>().concat()
}

#[test]
fn test_browser_rows() {
    let mut m = model();
    let rows = collector_rows(&m, 20);
    assert_eq!(rows.len(), m.filtered_indices.len());
    for (i, r) in rows.iter().enumerate() {
        let mc = &m.all_collectors[m.filtered_indices[i]];
        let text = row_text(r);
        assert_eq!(text, format!(" {:<38} {:>4}", mc.label, mc.streams.len()));
        assert_eq!(r.selected, m.active_pane == Pane::Collectors && m.selected_collector == Some(i));
    }
    assert_eq!(collector_rows(&m, 1).len(), 1);
    let streams = stream_rows(&m, &no_names(), 20);
    let current = m.current_streams();
    assert_eq!(streams.len(), current.len());
    assert_eq!(row_text(&streams[0]), format!("  AS{} ", current[0].asn_str));
    let topic = m.selected_topic().unwrap();
    assert_eq!(selection_line(&m).tint, Tint::Green);
    assert_eq!(selection_line(&m).text, topic);
    for c in "zzzz".chars() {
        m.apply(Action::TypeChar(c), &no_names());
    }
    let none = collector_rows(&m, 20);
    assert_eq!(none.len(), 1);
    assert_eq!(row_text(&none[0]), " (no matches)");
    let none = stream_rows(&m, &no_names(), 20);
    assert_eq!(row_text(&none[0]), " (no streams)");
    assert_eq!(selection_line(&m).tint, Tint::DarkGray);
    assert_eq!(selection_line(&m).text, "no stream selected");
}

#[test]
fn test_browser_titles() {
    let m = model();
    let total: usize = m.all_collectors.iter().map(|c| c.streams.len()).sum();
    assert_eq!(browser_subtitle(&m), format!("{} collectors  ·  {} streams", m.filtered_indices.len(), total));
    let label = m.current_collector().map(|c| c.label.clone());
    match label {
        Some(l) => assert_eq!(stream_title(&m), format!("Streams — {l}")),
        None => assert_eq!(stream_title(&m), "Streams"),
    }
}
