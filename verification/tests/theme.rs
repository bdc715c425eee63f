use noull_pm::theme::{
    can_parse, can_read_color, config_path, load, parse, reload_if_changed, rgb, system_theme_path,
    Color, Stamps, Theme, ThemeCache, DEFAULT_CONFIG,
};

fn colors(t: &Theme) -> Vec<Color> {
    vec![
        t.base, t.mantle, t.surface0, t.surface1, t.overlay0, t.subtext0, t.text, t.mauve, t.blue,
        t.red, t.green, t.yellow, t.peach, t.hover, t.selected,
    ]
}

#[test]
fn colors_are_read() {
    assert_eq!(rgb("#1e1e2e"), Color::Rgb(0x1e, 0x1e, 0x2e));
    assert_eq!(rgb("  ##FFaa00 "), Color::Rgb(255, 170, 0));
    assert_eq!(rgb("cdd6f4"), Color::Rgb(0xcd, 0xd6, 0xf4));
    assert_eq!(rgb("#12345"), Color::Reset);
    assert_eq!(rgb("#1234567"), Color::Reset);
    assert_eq!(rgb(""), Color::Reset);
    assert_eq!(rgb("#zz10+f"), Color::Rgb(0, 16, 15));
    assert!(can_read_color("#ééé"));
    assert_eq!(rgb("#ééé"), Color::Rgb(0, 0, 0));
    assert!(!can_read_color("#1é123"));
    assert!(can_read_color("#1é"));
}

#[test]
fn the_default_is_mocha() {
    let t = Theme::default();
    assert_eq!(t.name, "catppuccin-mocha");
    assert_eq!(t.base, Color::Rgb(0x1e, 0x1e, 0x2e));
    assert_eq!(t.selected, Color::Rgb(0x2a, 0x2b, 0x3d));
    let none = load(None, Some("nord"));
    assert_eq!(none.name, "catppuccin-mocha");
    assert_eq!(colors(&none), colors(&t));
}

#[test]
fn auto_follows_the_desktop() {
    let t = parse(DEFAULT_CONFIG, Some(" nord\n"));
    assert_eq!(t.name, "nord");
    assert_eq!(t.base, Color::Rgb(0x2e, 0x34, 0x40));
    assert_eq!(t.selected, Color::Rgb(0x3b, 0x42, 0x52));
    assert_eq!(parse(DEFAULT_CONFIG, Some("gruvbox")).name, "gruvbox");
    assert_eq!(parse(DEFAULT_CONFIG, Some("everforest")).mauve, Color::Rgb(0xa7, 0xc0, 0x80));
    assert_eq!(parse(DEFAULT_CONFIG, Some("monochrome")).red, Color::Rgb(0xf5, 0xf5, 0xf5));
}

#[test]
fn an_unknown_desktop_theme_gives_the_first_palette() {
    for recorded in [Some("unknown"), Some("  "), None] {
        assert_eq!(parse(DEFAULT_CONFIG, recorded).name, "catppuccin-mocha");
    }
    assert_eq!(parse("[b]\n[a]\n", Some("c")).name, "b");
    assert_eq!(parse("", Some("c")).name, "catppuccin-mocha");
}

#[test]
fn a_name_pins_a_palette() {
    let config = DEFAULT_CONFIG.replace("theme = auto", "theme = gruvbox");
    let t = parse(&config, Some("nord"));
    assert_eq!(t.name, "gruvbox");
    assert_eq!(t.text, Color::Rgb(0xeb, 0xdb, 0xb2));
}

#[test]
fn missing_keys_fall_back() {
    let t = parse("theme=x\n[x]\nbase = #010203\nred = oops\n", None);
    let mocha = Theme::default();
    assert_eq!(t.name, "x");
    assert_eq!(t.base, Color::Rgb(1, 2, 3));
    assert_eq!(t.red, Color::Reset);
    assert_eq!(t.green, mocha.green);
    assert_eq!(t.selected, mocha.selected);
}

#[test]
fn number_signs_are_comments_at_the_start_of_a_line_only() {
    let t = parse("  # theme = y\ntheme = x\n#[y]\n[ x ]\n# base = #000000\nbase = #0a0b0c\n", None);
    assert_eq!(t.name, "x");
    assert_eq!(t.base, Color::Rgb(10, 11, 12));
}

#[test]
fn later_settings_win() {
    let t = parse("theme = x\n[x]\nbase = #000001\n[y]\nbase=#000009\n[x]\nbase = #000002\n", None);
    assert_eq!(t.base, Color::Rgb(0, 0, 2));
    let first = parse("[x]\ntheme = y\n[y]\n", None);
    assert_eq!(first.name, "x");
}

#[test]
fn unreadable_colors_are_told() {
    assert!(can_parse(Some(DEFAULT_CONFIG), Some("nord")));
    assert!(!can_parse(Some("theme = x\n[x]\nbase = #1é123\n"), None));
    assert!(can_parse(Some("theme = x\n[x]\n[y]\nbase = #1é123\n"), None));
    assert!(can_parse(Some("theme = x\n[x]\nother = #1é123\n"), None));
    assert!(can_parse(None, None));
}

#[test]
fn the_theme_is_read_again_when_a_file_changed() {
    let mut cache = ThemeCache::new();
    let then = Stamps { config: Some(1), desktop: None };
    let now = Stamps { config: Some(1), desktop: Some(2) };
    assert!(!cache.is_current(then));
    assert!(!reload_if_changed(&mut cache, then, Some(DEFAULT_CONFIG), None));
    assert!(cache.is_current(then));
    assert!(!reload_if_changed(&mut cache, then, Some(DEFAULT_CONFIG), Some("nord")));
    assert_eq!(cache.theme.as_ref().unwrap().name, "catppuccin-mocha");
    assert!(reload_if_changed(&mut cache, now, Some(DEFAULT_CONFIG), Some("nord")));
    assert_eq!(cache.theme.as_ref().unwrap().name, "nord");
    assert!(!reload_if_changed(&mut cache, then, Some(DEFAULT_CONFIG), Some("nord")));
    cache.reload(now, None, None);
    assert_eq!(cache.theme.as_ref().unwrap().name, "catppuccin-mocha");
    assert!(cache.is_current(now));
}

#[test]
fn a_change_of_one_color_is_a_change() {
    let keys = [
        "base", "mantle", "surface0", "surface1", "overlay0", "subtext0", "text", "mauve", "blue",
        "red", "green", "yellow", "peach", "hover", "selected",
    ];
    for (i, key) in keys.iter().enumerate() {
        let mut cache = ThemeCache::new();
        let plain = "theme = x\n[x]\n".to_string();
        let colored = format!("{plain}{key} = #010203\n");
        let at = |n: i128| Stamps { config: Some(n), desktop: None };
        assert!(!reload_if_changed(&mut cache, at(1), Some(&plain), None));
        assert!(!reload_if_changed(&mut cache, at(2), Some(&plain), None));
        assert!(reload_if_changed(&mut cache, at(3), Some(&colored), None), "{key}");
        let theme = cache.theme.as_ref().unwrap();
        assert_eq!(theme.name, "x");
        assert_eq!(colors(theme)[i], Color::Rgb(1, 2, 3), "{key}");
        assert!(!reload_if_changed(&mut cache, at(4), Some(&colored), None));
    }
}

#[test]
fn the_files_of_the_theme_have_their_places() {
    assert_eq!(config_path(None, "/home/u"), "/home/u/.config/noull-pm/theme.conf");
    assert_eq!(config_path(Some("/x"), "/home/u"), "/x/noull-pm/theme.conf");
    assert_eq!(system_theme_path("/home/u"), "/home/u/.config/quickshell/theme.txt");
}
