use wired::config::{Error, HexColor, ShortcutsConfig};

#[test]
fn hex_with_alpha() {
    assert_eq!(
        HexColor::from_hex("#80ff0010"),
        Ok(HexColor { a: 0x80, r: 0xff, g: 0x00, b: 0x10 })
    );
}

#[test]
fn hex_without_alpha_is_opaque() {
    assert_eq!(
        HexColor::from_hex("#102030"),
        Ok(HexColor { a: 255, r: 0x10, g: 0x20, b: 0x30 })
    );
}

#[test]
fn hex_prefixes_read_alike() {
    let a = HexColor::from_hex("#ff000000");
    assert_eq!(a, HexColor::from_hex("0xff000000"));
    assert_eq!(a, HexColor::from_hex("#0xff000000"));
    assert_eq!(a, HexColor::from_hex("##ff000000"));
    assert_eq!(a, Ok(HexColor { a: 0xff, r: 0, g: 0, b: 0 }));
}

#[test]
fn hex_errors() {
    assert_eq!(
        HexColor::from_hex("#zzzzzz"),
        Err(Error::Hexidecimal("Invalid hexidecimal string."))
    );
    assert_eq!(
        HexColor::from_hex("#fff"),
        Err(Error::Hexidecimal("Incorrect hexidecimal string length."))
    );
    assert_eq!(
        HexColor::from_hex(""),
        Err(Error::Hexidecimal("Invalid hexidecimal string."))
    );
}

#[test]
fn default_shortcuts() {
    let s = ShortcutsConfig::default();
    assert_eq!(s.notification_interact, Some(1));
    assert_eq!(s.notification_close, Some(2));
    assert_eq!(s.notification_closeall, Some(7));
    assert_eq!(s.notification_pause, None);
    assert_eq!(s.notification_action1, Some(3));
    assert_eq!(s.notification_action2, None);
    assert_eq!(s.notification_action1_and_close, None);
    assert_eq!(s.notification_interact_and_close, None);
}
