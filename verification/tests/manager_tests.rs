use wired::cli::{CLIError, SocketCommand, WindowSelector};
use wired::config::{AnchorPosition, ShortcutsConfig};
use wired::layout::{Hook, LayoutBlock, LayoutElementKind, RenderCriteria};
use wired::manager::{
    layouts_for, shortcut_response, ActionTrigger, AfterPress, Arrival, NotifyWindow,
    NotifyWindowManager, Placement, PressAction, PressOutcome, SocketOutcome, UpdateModes,
};
use wired::notification::{Notification, Urgency};

fn note(id: u32, app: &str, tag: Option<&str>) -> Notification {
    Notification {
        id,
        tag: tag.map(|t| t.to_string()),
        app_name: app.to_string(),
        summary: format!("summary {}", id),
        body: String::new(),
        actions: vec![
            ("default".to_string(), "Open".to_string()),
            ("reply".to_string(), "Reply".to_string()),
        ],
        has_app_image: false,
        has_hint_image: false,
        value: None,
        urgency: Urgency::Normal,
        time_secs: 0,
        time_nanos: 0,
        timeout: 1000,
    }
}

fn manager(history: usize) -> NotifyWindowManager {
    NotifyWindowManager::new(vec!["main".to_string(), "side".to_string()], history)
}

fn layout(name: &str, criteria: Vec<RenderCriteria>) -> LayoutBlock<u32> {
    let hook = Hook { parent_anchor: AnchorPosition::TL, self_anchor: AnchorPosition::TL };
    LayoutBlock {
        name: name.to_string(),
        parent: String::new(),
        hook,
        kind: LayoutElementKind::NotificationBlock,
        params: 0,
        render_criteria: vec![],
        render_anti_criteria: vec![],
        children: vec![LayoutBlock {
            name: "text".to_string(),
            parent: name.to_string(),
            hook,
            kind: LayoutElementKind::TextBlock,
            params: 0,
            render_criteria: criteria,
            render_anti_criteria: vec![],
            children: vec![],
        }],
    }
}

#[test]
fn update_modes_bits() {
    let mut m = UpdateModes::all();
    assert!(m.contains(UpdateModes::draw_mode()) && m.contains(UpdateModes::fuse_mode()));
    m.toggle(UpdateModes::fuse_mode());
    assert_eq!(m, UpdateModes::draw_mode());
    assert!(!m.contains(UpdateModes::all()));
    m.toggle(UpdateModes::fuse_mode());
    assert_eq!(m, UpdateModes::all());
    assert_eq!(UpdateModes::default(), UpdateModes::empty());
}

#[test]
fn new_window_counts_down_from_timeout() {
    let mut w = NotifyWindow::new(5, note(1, "a", None), 10);
    assert!(w.dirty && !w.marked_for_destroy);
    assert_eq!(w.fuse, 1000);
    assert!(!w.burn_fuse(400));
    assert_eq!(w.fuse, 600);
    assert!(w.burn_fuse(600));
    assert!(w.marked_for_destroy);
    assert!(w.settle(false));
    assert!(!w.dirty);
    assert!(!w.settle(false));
}

#[test]
fn paused_window_keeps_its_fuse() {
    let mut w = NotifyWindow::new(5, note(1, "a", None), 10);
    w.update_mode.toggle(UpdateModes::fuse_mode());
    assert!(!w.burn_fuse(5000));
    assert_eq!(w.fuse, 1000);
    assert!(!w.marked_for_destroy);
}

#[test]
fn max_notifications_marks_the_oldest() {
    let mut m = manager(10);
    m.add_window(0, NotifyWindow::new(1, note(1, "a", None), 1), 2);
    m.add_window(0, NotifyWindow::new(2, note(2, "a", None), 2), 2);
    assert!(!m.layout_windows[0].windows[0].marked_for_destroy);
    m.add_window(0, NotifyWindow::new(3, note(3, "a", None), 3), 2);
    assert!(m.layout_windows[0].windows[0].marked_for_destroy);
    assert!(!m.layout_windows[0].windows[2].marked_for_destroy);
    assert!(m.dirty);
}

#[test]
fn drop_and_find() {
    let mut m = manager(10);
    m.add_window(0, NotifyWindow::new(11, note(1, "a", None), 1), 0);
    m.add_window(1, NotifyWindow::new(12, note(2, "a", None), 2), 0);
    assert_eq!(m.find_window_nid(2), Some(12));
    assert_eq!(m.find_window_nid(3), None);
    assert_eq!(m.find_window_idx(12), Some((1, 0)));
    assert!(m.drop_window_id(12));
    assert!(m.layout_windows[1].windows[0].marked_for_destroy);
    assert!(!m.drop_window_id(99));
    assert!(m.drop_notification(1));
    assert!(m.layout_windows[0].windows[0].marked_for_destroy);
    assert!(m.has_windows());
    assert!(m.request_redraw(11));
}

#[test]
fn closed_windows_go_to_capped_history() {
    let mut m = manager(2);
    for k in 0..4u32 {
        m.add_window(0, NotifyWindow::new(k as u64, note(k, "a", None), k as i64), 0);
    }
    m.drop_windows();
    let closed = m.retire_marked(2);
    assert_eq!(closed, vec![(0, 0), (1, 1), (2, 2), (3, 3)]);
    assert!(!m.has_windows());
    assert!(!m.dirty);
    let ids: Vec<u32> = m.history.iter().map(|n| n.id).collect();
    assert_eq!(ids, vec![2, 3]);
}

#[test]
fn zero_history_length_keeps_one() {
    let mut m = manager(0);
    m.add_window(0, NotifyWindow::new(1, note(1, "a", None), 1), 0);
    m.add_window(0, NotifyWindow::new(2, note(2, "a", None), 2), 0);
    m.drop_windows();
    m.retire_marked(0);
    assert_eq!(m.history.len(), 1);
    assert_eq!(m.history[0].id, 2);
}

#[test]
fn only_marked_windows_retire() {
    let mut m = manager(5);
    m.add_window(0, NotifyWindow::new(1, note(1, "a", None), 1), 0);
    m.add_window(0, NotifyWindow::new(2, note(2, "a", None), 2), 0);
    m.drop_window_id(1);
    assert_eq!(m.placement_plan()[0], vec![Placement::Skip, Placement::Monitor]);
    assert_eq!(m.retire_marked(5), vec![(1, 1)]);
    assert_eq!(m.layout_windows[0].windows.len(), 1);
    assert_eq!(m.layout_windows[0].windows[0].key, 2);
}

#[test]
fn fuse_burning_through_the_manager() {
    let mut m = manager(5);
    m.add_window(0, NotifyWindow::new(1, note(1, "a", None), 1), 0);
    m.dirty = false;
    assert!(!m.burn_fuse_at(0, 0, 999));
    assert!(!m.dirty);
    assert!(m.burn_fuse_at(0, 0, 1));
    assert!(m.dirty);
    assert!(m.settle_at(0, 0, false));
    assert!(!m.layout_windows[0].windows[0].dirty);
}

#[test]
fn placement_plan_chains_windows() {
    let mut m = manager(5);
    for k in 0..3u64 {
        m.add_window(1, NotifyWindow::new(k, note(k as u32, "a", None), k as i64), 0);
    }
    let plan = m.placement_plan();
    assert!(plan[0].is_empty());
    assert_eq!(plan[1], vec![Placement::Monitor, Placement::Previous, Placement::Previous]);
}

#[test]
fn idle_pauses_and_input_resumes() {
    let mut m = manager(5);
    m.add_window(0, NotifyWindow::new(1, note(1, "a", None), 1), 0);
    m.apply_idle(30_000, 20, true);
    assert_eq!(m.layout_windows[0].windows[0].update_mode, UpdateModes::draw_mode());
    assert!(m.is_idle_1s() && m.is_idle_for(30) && !m.is_idle_for(31));
    m.apply_idle(10, 20, true);
    assert_eq!(m.layout_windows[0].windows[0].update_mode, UpdateModes::all());
    assert!(!m.is_idle_1s());
}

#[test]
fn shortcuts_with_defaults() {
    let s = ShortcutsConfig::default();
    assert_eq!(shortcut_response(None, &s), PressAction::Nothing);
    assert_eq!(shortcut_response(Some(1), &s), PressAction::Interact);
    assert_eq!(shortcut_response(Some(7), &s), PressAction::CloseAll);
    assert_eq!(
        shortcut_response(Some(2), &s),
        PressAction::Act { close: true, then: AfterPress::Nothing }
    );
    assert_eq!(
        shortcut_response(Some(3), &s),
        PressAction::Act { close: false, then: AfterPress::Invoke(0) }
    );
    assert_eq!(
        shortcut_response(Some(9), &s),
        PressAction::Act { close: false, then: AfterPress::Nothing }
    );
}

#[test]
fn shortcuts_close_and_act() {
    let mut s = ShortcutsConfig::default();
    s.notification_action2_and_close = Some(4);
    s.notification_interact_and_close = Some(5);
    s.notification_pause = Some(6);
    assert_eq!(
        shortcut_response(Some(4), &s),
        PressAction::Act { close: true, then: AfterPress::Invoke(1) }
    );
    assert_eq!(
        shortcut_response(Some(5), &s),
        PressAction::Act { close: true, then: AfterPress::Interact }
    );
    assert_eq!(shortcut_response(Some(6), &s), PressAction::TogglePause);
    assert_eq!(shortcut_response(Some(300), &s), PressAction::Act { close: false, then: AfterPress::Nothing });
}

#[test]
fn presses_on_a_window() {
    let s = ShortcutsConfig::default();
    let mut m = manager(5);
    m.add_window(0, NotifyWindow::new(8, note(4, "a", None), 1), 0);
    assert!(matches!(m.process_press(8, Some(1), &s), PressOutcome::Click(8)));
    assert!(matches!(m.process_press(9, Some(1), &s), PressOutcome::Nothing));
    match m.process_press(8, Some(3), &s) {
        PressOutcome::Action(ActionTrigger::Invoke(id, key)) => {
            assert_eq!(id, 4);
            assert_eq!(key, "default");
        }
        other => panic!("unexpected {:?}", other),
    }
    assert!(!m.layout_windows[0].windows[0].marked_for_destroy);
    assert!(matches!(m.process_press(8, Some(2), &s), PressOutcome::Nothing));
    assert!(m.layout_windows[0].windows[0].marked_for_destroy);
}

#[test]
fn pause_toggle_through_press() {
    let mut s = ShortcutsConfig::default();
    s.notification_pause = Some(6);
    let mut m = manager(5);
    m.add_window(0, NotifyWindow::new(8, note(4, "a", None), 1), 0);
    m.process_press(8, Some(6), &s);
    assert_eq!(m.layout_windows[0].windows[0].update_mode, UpdateModes::draw_mode());
    m.process_press(8, Some(6), &s);
    assert_eq!(m.layout_windows[0].windows[0].update_mode, UpdateModes::all());
}

#[test]
fn action_slots() {
    let mut m = manager(5);
    m.add_window(0, NotifyWindow::new(8, note(4, "a", None), 1), 0);
    match m.trigger_action_idx(8, 1) {
        ActionTrigger::Invoke(4, k) => assert_eq!(k, "reply"),
        other => panic!("unexpected {:?}", other),
    }
    assert!(matches!(m.trigger_action_idx(8, 2), ActionTrigger::NoAction));
    assert!(matches!(m.trigger_action_idx(1, 0), ActionTrigger::NoWindow));
}

#[test]
fn arrivals_replace_by_id_or_tag() {
    let layouts = vec![layout("main", vec![]), layout("side", vec![RenderCriteria::Body])];
    let mut m = manager(5);
    m.add_window(0, NotifyWindow::new(1, note(1, "a", Some("vol")), 1), 0);
    m.add_window(0, NotifyWindow::new(2, note(2, "b", None), 2), 0);
    let mut n = note(7, "a", Some("vol"));
    n.timeout = 4000;
    match m.replace_or_spawn(n, &layouts, true, true) {
        Arrival::Replaced(ps) => assert_eq!(ps, vec![(0, 0)]),
        other => panic!("unexpected {:?}", other),
    }
    assert_eq!(m.layout_windows[0].windows[0].notification.id, 7);
    assert_eq!(m.layout_windows[0].windows[0].fuse, 4000);
    match m.replace_or_spawn(note(2, "z", None), &layouts, true, false) {
        Arrival::Replaced(ps) => assert_eq!(ps, vec![(0, 1)]),
        other => panic!("unexpected {:?}", other),
    }
    match m.replace_or_spawn(note(2, "z", None), &layouts, false, false) {
        Arrival::Spawn(n, ls) => {
            assert_eq!(n.id, 2);
            assert_eq!(ls, vec![0]);
        }
        other => panic!("unexpected {:?}", other),
    }
}

#[test]
fn arrivals_ignored_under_dnd() {
    let layouts = vec![layout("main", vec![])];
    let mut m = manager(5);
    m.set_dnd(true);
    assert!(matches!(m.replace_or_spawn(note(1, "a", None), &layouts, true, true), Arrival::Ignored));
}

#[test]
fn layouts_for_checks_criteria() {
    let layouts = vec![layout("main", vec![]), layout("side", vec![RenderCriteria::Body])];
    assert_eq!(layouts_for(&note(1, "a", None), &layouts), vec![0]);
    let mut n = note(1, "a", None);
    n.body = "text".to_string();
    assert_eq!(layouts_for(&n, &layouts), vec![0, 1]);
}

#[test]
fn creation_order() {
    let mut m = manager(5);
    m.add_window(1, NotifyWindow::new(30, note(3, "a", None), 5), 0);
    m.add_window(0, NotifyWindow::new(10, note(1, "a", None), 9), 0);
    m.add_window(0, NotifyWindow::new(20, note(2, "a", None), 5), 0);
    assert_eq!(m.window_count(), 3);
    // Stamp 5 twice: the one in the earlier layout comes first.
    assert_eq!(m.find_window_ordered(0), Some(20));
    assert_eq!(m.find_window_ordered(1), Some(30));
    assert_eq!(m.find_window_ordered(2), Some(10));
    assert_eq!(m.find_window_ordered(3), None);
    assert_eq!(m.get_window_id(WindowSelector::Latest).unwrap(), 10);
    assert_eq!(m.get_window_id(WindowSelector::Id(3)).unwrap(), 30);
    assert!(matches!(m.get_window_id(WindowSelector::Index(7)), Err(CLIError::NotificationNotFound)));
    // Indices count back from the newest window.
    assert_eq!(m.get_window_id(WindowSelector::Index(0)).unwrap(), 10);
    assert_eq!(m.get_window_id(WindowSelector::Index(1)).unwrap(), 30);
    assert_eq!(m.get_window_id(WindowSelector::Index(2)).unwrap(), 20);
    assert!(matches!(m.get_window_id(WindowSelector::Index(3)), Err(CLIError::NotificationNotFound)));
}

#[test]
fn socket_commands_on_the_manager() {
    let mut m = manager(5);
    m.add_window(0, NotifyWindow::new(1, note(1, "a", None), 1), 0);
    m.add_window(0, NotifyWindow::new(2, note(2, "a", None), 2), 0);
    assert!(matches!(m.handle_socket_command(SocketCommand::Drop(WindowSelector::Latest)), Ok(SocketOutcome::Done)));
    assert!(m.layout_windows[0].windows[1].marked_for_destroy);
    assert!(matches!(
        m.handle_socket_command(SocketCommand::Drop(WindowSelector::Id(9))),
        Err(CLIError::NotificationNotFound)
    ));
    match m.handle_socket_command(SocketCommand::Action(WindowSelector::Index(0), "1".to_string())) {
        Ok(SocketOutcome::Invoke(ActionTrigger::Invoke(2, k))) => assert_eq!(k, "reply"),
        other => panic!("unexpected {:?}", other),
    }
    assert!(matches!(
        m.handle_socket_command(SocketCommand::Action(WindowSelector::Index(0), "x".to_string())),
        Err(CLIError::Parse("Value is not of type usize."))
    ));
    m.retire_marked(5);
    match m.handle_socket_command(SocketCommand::ShowId(2)) {
        Ok(SocketOutcome::Show(ns)) => assert_eq!(ns.len(), 1),
        other => panic!("unexpected {:?}", other),
    }
    assert!(m.history.is_empty());
    assert!(matches!(m.handle_socket_command(SocketCommand::ShowId(2)), Err(CLIError::NotificationNotFound)));
    assert!(matches!(m.handle_socket_command(SocketCommand::Dnd(Some(true))), Ok(SocketOutcome::Done)));
    assert!(matches!(m.handle_socket_command(SocketCommand::Kill), Ok(SocketOutcome::Done)));
    assert!(m.should_exit);
}

#[test]
fn show_last_takes_newest_first() {
    let mut m = manager(5);
    for k in 0..3u32 {
        m.add_window(0, NotifyWindow::new(k as u64, note(k, "a", None), k as i64), 0);
    }
    m.drop_windows();
    m.retire_marked(5);
    match m.handle_socket_command(SocketCommand::ShowLast(2)) {
        Ok(SocketOutcome::Show(ns)) => {
            let ids: Vec<u32> = ns.iter().map(|n| n.id).collect();
            assert_eq!(ids, vec![2, 1]);
        }
        other => panic!("unexpected {:?}", other),
    }
    assert_eq!(m.history.len(), 1);
    match m.handle_socket_command(SocketCommand::ShowLast(9)) {
        Ok(SocketOutcome::Show(ns)) => assert_eq!(ns.len(), 1),
        other => panic!("unexpected {:?}", other),
    }
    assert!(m.history.is_empty());
}

#[test]
fn spawn_windows_gives_one_window_per_matching_layout() {
    let layouts = vec![layout("main", vec![]), layout("side", vec![RenderCriteria::Body])];
    let mut m = manager(5);
    let made = m.spawn_windows(&note(4, "a", None), &layouts, 0, 100, 7);
    assert_eq!(made, vec![(0, 100)]);
    assert_eq!(m.layout_windows[0].windows.len(), 1);
    assert!(m.layout_windows[1].windows.is_empty());
    let w = &m.layout_windows[0].windows[0];
    assert_eq!((w.key, w.notification.id, w.creation_stamp, w.fuse), (100, 4, 7, 1000));
    assert!(m.dirty);

    let mut n = note(5, "a", None);
    n.body = "text".to_string();
    let made = m.spawn_windows(&n, &layouts, 1, 200, 8);
    assert_eq!(made, vec![(0, 200), (1, 201)]);
    // Only one window may stay in a layout: the older one in "main" is marked.
    assert!(m.layout_windows[0].windows[0].marked_for_destroy);
    assert!(!m.layout_windows[0].windows[1].marked_for_destroy);
    assert_eq!(m.layout_windows[1].windows[0].key, 201);
}
