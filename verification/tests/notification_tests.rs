use wired::bus::{hint_image_source, notification_id, BusNotification, HintImageSource};
use wired::notification::{
    actions_from_list, fetch_id, urgency_from_hint, IdCounter, Notification, Urgency,
};

fn strings(xs: &[&str]) -> Vec<String> {
    xs.iter().map(|s| s.to_string()).collect()
}

#[test]
fn ids_count_up_from_one() {
    let mut c = IdCounter::new();
    assert_eq!(fetch_id(&mut c), 1);
    assert_eq!(fetch_id(&mut c), 2);
    assert_eq!(fetch_id(&mut c), 3);
}

#[test]
fn replacing_id_is_kept() {
    let mut c = IdCounter::new();
    assert_eq!(notification_id(&mut c, 0), 1);
    assert_eq!(notification_id(&mut c, 77), 77);
    assert_eq!(notification_id(&mut c, 0), 2);
}

#[test]
fn urgency_hints() {
    assert_eq!(urgency_from_hint(Some(0)), Urgency::Low);
    assert_eq!(urgency_from_hint(Some(1)), Urgency::Normal);
    assert_eq!(urgency_from_hint(Some(2)), Urgency::Critical);
    assert_eq!(urgency_from_hint(Some(9)), Urgency::Normal);
    assert_eq!(urgency_from_hint(None), Urgency::Normal);
    assert_eq!(Urgency::default(), Urgency::Normal);
}

#[test]
fn action_list_pairs_up_and_later_wins() {
    let pairs = actions_from_list(&strings(&["default", "Open", "x", "X", "default", "Go"]));
    assert_eq!(
        pairs,
        vec![
            ("default".to_string(), "Go".to_string()),
            ("x".to_string(), "X".to_string())
        ]
    );
}

fn sample() -> Notification {
    Notification::from_dbus(
        9,
        "app".to_string(),
        "Tom & Jerry",
        "x < y",
        &strings(&["default", "Open", "reply", "Reply", "mute", "Mute"]),
        Some(2),
        Some("tag".to_string()),
        Some(40),
        0,
        3000,
        true,
        false,
        100,
        5,
    )
}

#[test]
fn from_dbus_fields() {
    let n = sample();
    assert_eq!(n.id, 9);
    assert_eq!(n.app_name, "app");
    assert_eq!(n.summary, "Tom &amp; Jerry");
    assert_eq!(n.body, "x &lt; y");
    assert_eq!(n.urgency, Urgency::Critical);
    assert_eq!(n.tag, Some("tag".to_string()));
    assert_eq!(n.value, Some(40));
    assert_eq!(n.timeout, 3000);
    assert!(n.has_app_image && !n.has_hint_image);
    assert_eq!((n.time_secs, n.time_nanos), (100, 5));
}

#[test]
fn from_dbus_keeps_positive_timeout() {
    let n = Notification::from_dbus(
        1, "a".to_string(), "s", "b", &vec![], None, None, None, 1234, 3000, false, false, 0, 0,
    );
    assert_eq!(n.timeout, 1234);
    assert_eq!(n.urgency, Urgency::Normal);
}

#[test]
fn default_and_other_actions() {
    let n = sample();
    assert_eq!(
        n.get_default_action(),
        Some(("default".to_string(), "Open".to_string()))
    );
    assert_eq!(
        n.get_other_action(0),
        Some(("reply".to_string(), "Reply".to_string()))
    );
    assert_eq!(
        n.get_other_action(1),
        Some(("mute".to_string(), "Mute".to_string()))
    );
    assert_eq!(n.get_other_action(2), None);
    assert_eq!(n.action_key_for_slot(0), Some("default".to_string()));
    assert_eq!(n.action_key_for_slot(2), Some("mute".to_string()));
    assert_eq!(n.action_key_for_slot(3), None);
}

#[test]
fn from_self_is_low_urgency_from_wired() {
    let n = Notification::from_self(3, "Wired", "Config was reloaded.", 5000, 0, 0);
    assert_eq!(n.app_name, "Wired");
    assert_eq!(n.urgency, Urgency::Low);
    assert_eq!(n.summary, "Wired");
    assert_eq!(n.body, "Config was reloaded.");
    assert!(n.actions.is_empty());
    assert_eq!(n.get_default_action(), None);
}

#[test]
fn duplicate_is_equal() {
    let n = sample();
    let d = n.duplicate();
    assert_eq!(format!("{:?}", n), format!("{:?}", d));
}

#[test]
fn bus_capabilities_and_information() {
    let b = BusNotification;
    assert_eq!(
        b.get_capabilities(),
        vec!["actions", "body", "body-hyperlinks", "body-markup", "icon-static"]
    );
    let (n, v, ver, spec) = b.get_server_information("wired", "me", "0.1.0");
    assert_eq!((n.as_str(), v.as_str(), ver.as_str(), spec.as_str()), ("wired", "me", "0.1.0", "1.2"));
}

#[test]
fn an_unpaired_last_action_is_dropped() {
    let pairs = actions_from_list(&strings(&["default", "Open", "x"]));
    assert_eq!(pairs, vec![("default".to_string(), "Open".to_string())]);
    let n = Notification::from_dbus(
        1, "a".to_string(), "s", "b", &strings(&["default", "Open", "x"]), None, None, None, 5, 3000,
        false, false, 0, 0,
    );
    assert_eq!(n.actions, vec![("default".to_string(), "Open".to_string())]);
    assert!(actions_from_list(&strings(&["lonely"])).is_empty());
}

#[test]
fn many_ids_are_distinct_and_never_zero() {
    let mut c = IdCounter::new();
    let ids: Vec<u32> = (0..1000).map(|_| fetch_id(&mut c)).collect();
    for (i, id) in ids.iter().enumerate() {
        assert_eq!(*id, i as u32 + 1);
    }
}

#[test]
fn hint_image_comes_from_the_first_present_hint() {
    assert_eq!(hint_image_source(true, true, true, true, true), Some(HintImageSource::ImageData));
    assert_eq!(hint_image_source(false, true, true, false, true), Some(HintImageSource::ImageDataOld));
    assert_eq!(hint_image_source(false, false, true, true, true), Some(HintImageSource::ImagePath));
    assert_eq!(hint_image_source(false, false, false, true, true), Some(HintImageSource::ImagePathOld));
    assert_eq!(hint_image_source(false, false, false, false, true), Some(HintImageSource::IconData));
    assert_eq!(hint_image_source(false, false, false, false, false), None);
}
