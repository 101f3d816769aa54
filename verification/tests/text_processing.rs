use wired::maths_utility::{
    escape_decode, escape_decode_accepts, find_url, format_action_notification_string,
    format_notification_string, format_string_accepts, parse_format_string, render_format,
    time_formats,
    FormatPiece, MinMax, val_true,
};
use wired::notification::{Notification, Urgency};

fn note(id: u32, summary: &str, body: &str, app: &str) -> Notification {
    Notification {
        id,
        tag: None,
        app_name: app.to_string(),
        summary: summary.to_string(),
        body: body.to_string(),
        actions: vec![],
        has_app_image: false,
        has_hint_image: false,
        value: None,
        urgency: Urgency::Normal,
        time_secs: 0,
        time_nanos: 0,
        timeout: 5000,
    }
}

#[test]
fn escape_decode_escapes_bare_ampersands_and_angle_brackets() {
    assert_eq!(escape_decode("a & b"), "a &amp; b");
    assert_eq!(escape_decode("x < y"), "x &lt; y");
}

#[test]
fn escape_decode_keeps_known_entities() {
    assert_eq!(escape_decode("&lt;tag&gt; &amp;"), "&lt;tag&gt; &amp;");
}

#[test]
fn escape_decode_decodes_quotes() {
    assert_eq!(escape_decode("it&#39;s &quot;ok&#34; &apos;"), "it's \"ok\" '");
}

#[test]
fn escape_decode_is_idempotent_on_example() {
    let once = escape_decode("Tom & Jerry <3 &#39;");
    let twice = escape_decode(&once);
    assert_eq!(once, twice);
    assert_eq!(once, "Tom &amp; Jerry &lt;3 '");
}

#[test]
fn escape_decode_accepts_ascii() {
    assert!(escape_decode_accepts("plain & simple"));
    assert!(escape_decode_accepts(""));
}

#[test]
fn find_url_takes_first_http_word() {
    assert_eq!(
        find_url("see http://example.com/a?b now"),
        Some("http://example.com/a?b".to_string())
    );
}

#[test]
fn find_url_takes_whichever_prefix_comes_first() {
    assert_eq!(
        find_url("see https://a.org or http://b.org now"),
        Some("https://a.org".to_string())
    );
    assert_eq!(
        find_url("see http://b.org or https://a.org now"),
        Some("http://b.org".to_string())
    );
}

#[test]
fn find_url_falls_back_to_https() {
    assert_eq!(find_url("go to https://x.y/z"), Some("https://x.y/z".to_string()));
}

#[test]
fn find_url_none_without_url() {
    assert_eq!(find_url("nothing to open here"), None);
}

#[test]
fn format_fields_are_filled_in() {
    let n = note(42, "Hello", "World", "app");
    assert_eq!(
        format_notification_string("%s - %b (%n) #%i", &n),
        "Hello - World (app) #42"
    );
}

#[test]
fn format_action_name_is_filled_in() {
    let n = note(7, "S", "B", "A");
    assert_eq!(format_action_notification_string("[%a]", "Open", &n), "[Open]");
    assert_eq!(format_notification_string("[%a]", &n), "[]");
}

#[test]
fn format_unknown_and_trailing_percent_stay() {
    let n = note(1, "S", "B", "A");
    assert_eq!(format_notification_string("100%", &n), "100%");
    assert_eq!(format_notification_string("%x%s", &n), "%xS");
}

#[test]
fn format_pieces_parse() {
    let pieces = parse_format_string("a%s%t(%H)");
    assert_eq!(pieces.len(), 3);
    assert!(matches!(pieces[0], FormatPiece::Text('a')));
    assert!(matches!(pieces[1], FormatPiece::Summary));
    match &pieces[2] {
        FormatPiece::Time(f) => assert_eq!(f.iter().collect::<String>(), "%H"),
        other => panic!("unexpected piece {:?}", other),
    }
}

#[test]
fn render_format_uses_given_times() {
    let n = note(3, "S", "B", "A");
    let pieces = parse_format_string("at %t(%H:%M) for %s");
    let out = render_format(&pieces, "", &n, &vec!["12:34".to_string()]);
    assert_eq!(out, "at 12:34 for S");
}

#[test]
fn format_time_is_written_by_chrono() {
    // The time part goes through chrono: the result is the formatted year, not the format.
    let mut n = note(3, "S", "B", "A");
    n.time_secs = 86_400 * 365 * 30;
    let out = format_notification_string("%t(%Y)", &n);
    assert_ne!(out, "%Y");
    assert_eq!(out.len(), 4);
    assert!(out.starts_with("19") || out.starts_with("20"));
}

#[test]
fn format_string_accepts_ascii_formats() {
    assert!(format_string_accepts("%s %b %t(%H)"));
}

#[test]
fn minmax_and_val_true() {
    let m = MinMax { min: 1, max: 2 };
    assert_eq!(m.min + m.max, 3);
    assert!(val_true());
}

#[test]
fn escaped_text_is_pango_safe() {
    let out = escape_decode("<b> & &lt; &nbsp; &#39;");
    assert!(!out.contains('<'));
    for (i, _) in out.match_indices('&') {
        let rest = &out[i..];
        assert!(rest.starts_with("&lt;") || rest.starts_with("&gt;") || rest.starts_with("&amp;"));
    }
    assert_eq!(out, "&lt;b> &amp; &lt; &amp;nbsp; '");
}

#[test]
fn escaped_text_is_accepted_again() {
    let out = escape_decode("a < b & c");
    assert!(escape_decode_accepts(&out));
}

#[test]
fn time_formats_come_in_order() {
    let pieces = parse_format_string("%t(%H:%M) %s %t(%Y)");
    assert_eq!(time_formats(&pieces), vec!["%H:%M".to_string(), "%Y".to_string()]);
    assert!(time_formats(&parse_format_string("%s %b")).is_empty());
}
