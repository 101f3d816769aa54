use wired::config::{AnchorPosition, Error};
use wired::layout::{
    criteria_holds, notification_meets_layout_criteria, transform_and_validate, Hook,
    LayoutBlock, LayoutElementKind, RenderCriteria,
};
use wired::notification::{Notification, Urgency};

fn note(summary: &str, body: &str) -> Notification {
    Notification {
        id: 1,
        tag: None,
        app_name: "app".to_string(),
        summary: summary.to_string(),
        body: body.to_string(),
        actions: vec![("default".to_string(), "Open".to_string())],
        has_app_image: false,
        has_hint_image: true,
        value: Some(50),
        urgency: Urgency::Normal,
        time_secs: 0,
        time_nanos: 0,
        timeout: 1000,
    }
}

fn hook() -> Hook {
    Hook { parent_anchor: AnchorPosition::TL, self_anchor: AnchorPosition::TL }
}

fn block(name: &str, parent: &str, kind: LayoutElementKind, criteria: Vec<RenderCriteria>) -> LayoutBlock<u32> {
    LayoutBlock {
        name: name.to_string(),
        parent: parent.to_string(),
        hook: hook(),
        kind,
        params: 0,
        render_criteria: criteria,
        render_anti_criteria: vec![],
        children: vec![],
    }
}

#[test]
fn criteria_on_fields() {
    let n = note("S", "");
    assert!(criteria_holds(&RenderCriteria::Summary, &n));
    assert!(!criteria_holds(&RenderCriteria::Body, &n));
    assert!(criteria_holds(&RenderCriteria::HintImage, &n));
    assert!(!criteria_holds(&RenderCriteria::AppImage, &n));
    assert!(criteria_holds(&RenderCriteria::AppName("app".to_string()), &n));
    assert!(!criteria_holds(&RenderCriteria::AppName("other".to_string()), &n));
    assert!(criteria_holds(&RenderCriteria::Progress, &n));
    assert!(criteria_holds(&RenderCriteria::ActionDefault, &n));
    assert!(!criteria_holds(&RenderCriteria::ActionOther(0), &n));
    assert!(!criteria_holds(
        &RenderCriteria::And(vec![RenderCriteria::Summary, RenderCriteria::Body]),
        &n
    ));
    assert!(criteria_holds(
        &RenderCriteria::Or(vec![RenderCriteria::Summary, RenderCriteria::Body]),
        &n
    ));
}

#[test]
fn anti_criteria_hide_a_block() {
    let n = note("S", "B");
    let mut b = block("t", "root", LayoutElementKind::TextBlock, vec![]);
    assert!(b.should_draw(&n));
    b.render_anti_criteria = vec![RenderCriteria::Summary];
    assert!(!b.should_draw(&n));
    b.render_criteria = vec![RenderCriteria::Body];
    assert!(!b.should_draw(&n));
}

#[test]
fn layout_needs_a_drawn_child() {
    let n = note("S", "");
    let mut root = block("root", "", LayoutElementKind::NotificationBlock, vec![]);
    assert!(!notification_meets_layout_criteria(&root, &n));
    root.children.push(block("body", "root", LayoutElementKind::TextBlock, vec![RenderCriteria::Body]));
    assert!(!notification_meets_layout_criteria(&root, &n));
    root.children.push(block("summary", "root", LayoutElementKind::TextBlock, vec![RenderCriteria::Summary]));
    assert!(notification_meets_layout_criteria(&root, &n));
}

#[test]
fn tree_is_built_from_parent_names() {
    let blocks = vec![
        block("root", "", LayoutElementKind::NotificationBlock, vec![]),
        block("image", "root", LayoutElementKind::ImageBlock, vec![]),
        block("summary", "image", LayoutElementKind::TextBlock, vec![]),
        block("orphan", "nobody", LayoutElementKind::TextBlock, vec![]),
        block("body", "summary", LayoutElementKind::TextBlock, vec![]),
    ];
    let (root, left) = transform_and_validate(blocks).unwrap();
    assert_eq!(root.name, "root");
    assert_eq!(root.children.len(), 1);
    let image = &root.children[0];
    assert_eq!(image.name, "image");
    assert_eq!(image.children.len(), 1);
    assert_eq!(image.children[0].name, "summary");
    assert_eq!(image.children[0].children[0].name, "body");
    assert_eq!(left.len(), 1);
    assert_eq!(left[0].name, "orphan");
}

#[test]
fn tree_needs_blocks_and_a_notification_root() {
    let r = transform_and_validate::<u32>(vec![]);
    assert!(matches!(r, Err(Error::Validate("Config did not contain any layout blocks!"))));
    let r = transform_and_validate(vec![block("t", "", LayoutElementKind::TextBlock, vec![])]);
    assert!(matches!(
        r,
        Err(Error::Validate("The first LayoutBlock params must be of type NotificationBlock!"))
    ));
}
