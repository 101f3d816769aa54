use wired::button_block::{action_of, button_key_and_text, pick_hovered, Action};
use wired::manager::UpdateModes;
use wired::maths_utility::MinMax;
use wired::notification::{Notification, Urgency};
use wired::notification_block::{border_color, track_update_mode};
use wired::progress_block::fill_color;
use wired::scrolling_text_block::get_width;
use wired::text::{
    pango_extent, sized_extents, AlignMode, Antialias, EllipsizeMode, FontOptions, HintMetrics,
    HintStyle, SubpixelOrder,
};
use wired::text_block::{get_dimensions, Dimensions};

fn note(app_image: bool, hint_image: bool) -> Notification {
    Notification {
        id: 3,
        tag: None,
        app_name: "app".to_string(),
        summary: "S".to_string(),
        body: "B".to_string(),
        actions: vec![
            ("default".to_string(), "Open".to_string()),
            ("later".to_string(), "Later".to_string()),
        ],
        has_app_image: app_image,
        has_hint_image: hint_image,
        value: None,
        urgency: Urgency::Low,
        time_secs: 0,
        time_nanos: 0,
        timeout: 1000,
    }
}

fn dims(n: i32) -> Dimensions {
    Dimensions { width: MinMax { min: n, max: n }, height: MinMax { min: 0, max: n } }
}

#[test]
fn dimensions_follow_images() {
    let (plain, hint, app, both) = (dims(1), Some(dims(2)), Some(dims(3)), Some(dims(4)));
    assert_eq!(*get_dimensions(&plain, &hint, &app, &both, &note(false, false)), dims(1));
    assert_eq!(*get_dimensions(&plain, &hint, &app, &both, &note(false, true)), dims(2));
    assert_eq!(*get_dimensions(&plain, &hint, &app, &both, &note(true, false)), dims(3));
    assert_eq!(*get_dimensions(&plain, &hint, &app, &both, &note(true, true)), dims(4));
    assert_eq!(*get_dimensions(&plain, &None, &None, &None, &note(true, true)), dims(1));
}

#[test]
fn scrolling_width_follows_images() {
    let w = MinMax { min: 1, max: 9 };
    let both = Some(MinMax { min: 2, max: 3 });
    assert_eq!(*get_width(&w, &None, &None, &both, &note(true, true)), MinMax { min: 2, max: 3 });
    assert_eq!(*get_width(&w, &None, &None, &both, &note(true, false)), w);
}

#[test]
fn button_actions() {
    let n = note(false, false);
    assert_eq!(
        action_of(&Action::DefaultAction, &n),
        Some(("default".to_string(), "Open".to_string()))
    );
    assert_eq!(
        action_of(&Action::OtherAction(0), &n),
        Some(("later".to_string(), "Later".to_string()))
    );
    assert_eq!(action_of(&Action::OtherAction(1), &n), None);
    let (key, text) = button_key_and_text(&Action::OtherAction(0), "[%a] %s", &n);
    assert_eq!((key.as_str(), text.as_str()), ("later", "[Later] S"));
    let (key, text) = button_key_and_text(&Action::OtherAction(5), "[%a]", &n);
    assert_eq!((key.as_str(), text.as_str()), ("", "[]"));
}

#[test]
fn hover_colors() {
    assert_eq!(*pick_hovered(true, &1, &Some(2)), 2);
    assert_eq!(*pick_hovered(false, &1, &Some(2)), 1);
    assert_eq!(*pick_hovered(true, &1, &None), 1);
    assert_eq!(*fill_color(true, &1, &Some(2), true), 2);
    assert_eq!(*fill_color(true, &1, &Some(2), false), 1);
}

#[test]
fn border_colors() {
    let all = UpdateModes::all();
    assert_eq!(*border_color(all, Urgency::Low, &0, &Some(1), &Some(2), &Some(3)), 1);
    assert_eq!(*border_color(all, Urgency::Normal, &0, &Some(1), &Some(2), &Some(3)), 0);
    assert_eq!(*border_color(all, Urgency::Critical, &0, &Some(1), &Some(2), &Some(3)), 2);
    assert_eq!(*border_color(all, Urgency::Critical, &0, &Some(1), &None, &Some(3)), 0);
    let paused = UpdateModes::draw_mode();
    assert_eq!(*border_color(paused, Urgency::Critical, &0, &Some(1), &Some(2), &Some(3)), 3);
    assert_eq!(*border_color(paused, Urgency::Critical, &0, &Some(1), &Some(2), &None), 0);
}

#[test]
fn update_mode_tracking() {
    let mut cur = UpdateModes::all();
    assert!(!track_update_mode(&mut cur, UpdateModes::all()));
    assert!(track_update_mode(&mut cur, UpdateModes::draw_mode()));
    assert_eq!(cur, UpdateModes::draw_mode());
}

#[test]
fn text_defaults() {
    assert_eq!(EllipsizeMode::default(), EllipsizeMode::Middle);
    assert_eq!(AlignMode::default(), AlignMode::Left);
    let o = FontOptions::default();
    assert_eq!(o.antialias, Antialias::System);
    assert_eq!(o.hint_style, HintStyle::Slight);
    assert_eq!(o.hint_metrics, HintMetrics::On);
    assert_eq!(o.subpixel_order, SubpixelOrder::System);
}

#[test]
fn text_extents() {
    assert_eq!(pango_extent(-5, 1024), -1);
    assert_eq!(pango_extent(10, 1024), 10240);
    assert_eq!(pango_extent(0, 1024), 0);
    assert_eq!(sized_extents(5, 20, 10, 10), (10, 20));
}
