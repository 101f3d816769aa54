use wired::icons::{expand_tilde, icon_dirs, icon_files, theme_dirs, theme_or_default};

#[test]
fn tilde_expansion() {
    assert_eq!(expand_tilde("~/.icons", Some("/home/u")), "/home/u/.icons");
    assert_eq!(expand_tilde("~/.icons", Some("/home/u/")), "/home/u/.icons");
    assert_eq!(expand_tilde("~/.icons", None), "~/.icons");
    assert_eq!(expand_tilde("/abs", Some("/home/u")), "/abs");
    assert_eq!(expand_tilde("~/~/x", Some("/h")), "/h/x");
}

#[test]
fn icon_directories_in_order() {
    let dirs = icon_dirs(Some("/home/u"), Some("/usr/share/:/opt/data::"));
    assert_eq!(
        dirs,
        vec![
            "/usr/share/icons",
            "/usr/local/share/icons",
            "/home/u/.icons",
            "/home/u/.local/share/icons",
            "/usr/share/pixmaps",
            "/var/lib/flatpak/exports/share/icons",
            "/usr/share/icons",
            "/opt/data/icons",
            "/icons",
            "/icons",
        ]
    );
    assert_eq!(icon_dirs(None, None).len(), 6);
}

#[test]
fn theme_directories() {
    let dirs = theme_dirs("/usr/share/icons", "Adwaita");
    assert_eq!(dirs.len(), 63);
    assert_eq!(dirs[0], "/usr/share/icons/Adwaita/scalable/apps");
    assert_eq!(dirs[1], "/usr/share/icons/Adwaita/scalable/status");
    assert_eq!(dirs[7], "/usr/share/icons/Adwaita/symbolic/apps");
    assert_eq!(dirs[62], "/usr/share/icons/Adwaita/128x128/mimetypes");
}

#[test]
fn icon_file_candidates() {
    assert_eq!(
        icon_files("/d", "firefox"),
        vec!["/d/firefox.svg", "/d/firefox.svgz", "/d/firefox.png", "/d/firefox.xpm"]
    );
}

#[test]
fn default_theme() {
    assert_eq!(theme_or_default(&None), "Adwaita");
    assert_eq!(theme_or_default(&Some("Papirus".to_string())), "Papirus");
}
