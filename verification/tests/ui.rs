use noull_pm::app::{App, KeyCode, KeyPress, Landed, Msg, Overlay, Tab};
use noull_pm::layout::Rect;
use noull_pm::ops::{remove_mega, MegaPlan};
use noull_pm::pacman::Pkg;
use noull_pm::theme::{Color, Theme};
use noull_pm::ui::{
    buttons, can_draw, compose, draw, draw_busy, draw_details, draw_installed, draw_list,
    draw_mega_confirm, draw_search, draw_status, draw_tabs, Border, Line, Pane, Screen, Span, Style,
};

fn strings(list: &[&str]) -> Vec<String> {
    list.iter().map(|s| s.to_string()).collect()
}

fn pkg(name: &str, installed: bool) -> Pkg {
    let mut p = Pkg::default();
    p.name = name.to_string();
    p.version = "1-1".to_string();
    p.installed = installed;
    p
}

fn area() -> Rect {
    Rect::new(0, 0, 100, 40)
}

fn press(app: &mut App, code: KeyCode) {
    let key = KeyPress { code, shift: false, ctrl: false };
    assert!(app.accepts(key));
    let _ = app.on_key(key, 0);
}

fn start() -> App {
    let mut bash = pkg("bash", true);
    bash.provides = strings(&["sh"]);
    let mut fd = pkg("fd", true);
    fd.repo = "aur".to_string();
    fd.description = "Find files".to_string();
    fd.url = "https://x.org".to_string();
    fd.depends = strings(&["sh", "libz>=1"]);
    fd.optdepends = strings(&["bash", "git"]);
    fd.required_by = strings(&["fzf"]);
    fd.size = "1 MiB".to_string();
    fd.votes = Some("7".to_string());
    App::new(vec![bash, fd], 0)
}

fn text_of(line: &Line) -> String {
    match line {
        Line::Text { text, .. } => text.clone(),
        Line::Spans(spans) => spans.iter().map(|s| s.text.as_str()).collect(),
        Line::Right(spans) => spans.iter().map(|s| s.text.as_str()).collect(),
    }
}

fn texts(lines: &[Line]) -> Vec<String> {
    lines.iter().map(text_of).collect()
}

fn spans_of(line: &Line) -> &Vec<Span> {
    match line {
        Line::Spans(spans) => spans,
        Line::Right(spans) => spans,
        Line::Text { .. } => panic!("pieces"),
    }
}

fn ink(c: Color) -> Style {
    Style { fg: Some(c), bg: None, bold: false }
}

fn strong(c: Color) -> Style {
    Style { fg: Some(c), bg: None, bold: true }
}

fn title_of(border: &Border) -> String {
    border.title.as_ref().map(|t| t.text.clone()).unwrap_or_default()
}

fn border_of(pane: &Pane) -> &Border {
    pane.border.as_ref().unwrap()
}

#[test]
fn the_list_shows_marks_and_origins() {
    let c = Theme::default();
    let mut app = start();
    press(&mut app, KeyCode::Char(' '));
    let list = draw_list(&app, &c, area());
    assert_eq!(title_of(&list.border), " Installed (2) ");
    assert_eq!(list.border.title.as_ref().unwrap().style, strong(c.mauve));
    assert_eq!(list.border.color, c.surface0);
    assert_eq!(texts(&list.rows), strings(&["▐ bash 1-1", "  fd 1-1  aur"]));
    assert_eq!(list.highlight, Style { fg: None, bg: Some(c.selected), bold: true });
    let spans = spans_of(&list.rows[1]);
    assert_eq!(spans[1].style, ink(c.text));
    assert_eq!(spans[4].style, ink(c.peach));
    press(&mut app, KeyCode::Tab);
    press(&mut app, KeyCode::Char('x'));
    app.handle_msg(Msg::Search("x".to_string(), vec![pkg("x", false), pkg("bash", true)]));
    let list = draw_list(&app, &c, area());
    assert_eq!(title_of(&list.border), " Results (2) ");
    assert_eq!(texts(&list.rows), strings(&["  x 1-1", "  bash 1-1  installed"]));
    assert_eq!(spans_of(&list.rows[0])[1].style, ink(c.subtext0));
}

#[test]
fn details_mark_what_is_installed() {
    let c = Theme::default();
    let mut app = start();
    press(&mut app, KeyCode::Down);
    let pane = draw_details(&app, &c, area());
    assert_eq!(
        texts(&pane.lines),
        strings(&[
            "fd  1-1",
            "AUR  ·  installed  ·  7 votes  ·  1 MiB",
            "",
            "Find files",
            "",
            "https://x.org",
            "",
            "",
            "Requires",
            "  ✓ sh",
            "  ✗ libz>=1   will be installed",
            "",
            "Optional",
            "  ✓ bash",
            "  · git",
            "",
            "Required by",
            "  fzf",
            "",
            "Files (0)",
            "  reading…",
        ])
    );
    assert_eq!(title_of(border_of(&pane)), " Details ");
    assert!(pane.wrap);
    assert_eq!(spans_of(&pane.lines[9])[0].style, ink(c.green));
    assert_eq!(spans_of(&pane.lines[10])[0].style, ink(c.red));
    app.handle_msg(Msg::Files("fd".to_string(), strings(&["/usr/bin/fd"])));
    press(&mut app, KeyCode::Right);
    let pane = draw_details(&app, &c, area());
    assert_eq!(text_of(&pane.lines[19]), "Files (1)");
    assert_eq!(text_of(&pane.lines[20]), "  /usr/bin/fd");
    assert_eq!(pane.scroll, 5);
}

#[test]
fn details_load_or_stay_empty() {
    let c = Theme::default();
    let mut app = start();
    press(&mut app, KeyCode::Tab);
    let pane = draw_details(&app, &c, area());
    assert!(pane.lines.is_empty() && !pane.wrap);
    press(&mut app, KeyCode::Char('x'));
    app.handle_msg(Msg::Search("x".to_string(), vec![pkg("x", false)]));
    let pane = draw_details(&app, &c, area());
    assert_eq!(
        texts(&pane.lines),
        strings(&["x  1-1", "repo", "", "  loading…", "", "Requires", "  none"])
    );
}

#[test]
fn tabs_and_search_follow_the_state() {
    let c = Theme::default();
    let mut app = start();
    let tabs = draw_tabs(&app, &c, area());
    assert_eq!(text_of(&tabs.lines[0]), "  Downloaded   AUR + pacman    ⇥ Tab");
    let on = Style { fg: Some(c.base), bg: Some(c.mauve), bold: true };
    assert_eq!(spans_of(&tabs.lines[0])[1].style, on);
    assert_eq!(spans_of(&tabs.lines[0])[3].style, ink(c.overlay0));
    let search = draw_search(&app, &c, area());
    assert_eq!(text_of(&search.lines[0]), "  type to filter installed packages");
    assert_eq!(border_of(&search).color, c.surface1);
    press(&mut app, KeyCode::Tab);
    assert!(app.tab == Tab::Remote);
    let search = draw_search(&app, &c, area());
    assert_eq!(text_of(&search.lines[0]), "  type to search pacman + AUR");
    press(&mut app, KeyCode::Char('r'));
    let search = draw_search(&app, &c, area());
    assert_eq!(text_of(&search.lines[0]), "  r█");
    assert_eq!(border_of(&search).color, c.mauve);
    assert!(app.maybe_search(1000).is_some());
    let search = draw_search(&app, &c, area());
    assert_eq!(text_of(&search.lines[0]), "  r█ …");
    let tabs = draw_tabs(&app, &c, area());
    assert_eq!(spans_of(&tabs.lines[0])[3].style, on);
}

#[test]
fn the_status_line_ends_with_the_theme() {
    let c = Theme::default();
    let mut app = start();
    let status = draw_status(&app, &c, area());
    assert_eq!(
        text_of(&status.lines[0]),
        " 2 packages installed · Tab switch · space mark · shift+space range · D delete · Esc quit  [catppuccin-mocha]"
    );
    press(&mut app, KeyCode::Char(' '));
    let status = draw_status(&app, &c, area());
    assert_eq!(spans_of(&status.lines[0])[1].text, "· 1 marked ");
    press(&mut app, KeyCode::Tab);
    let status = draw_status(&app, &c, area());
    assert_eq!(
        spans_of(&status.lines[0])[1].text,
        "· Tab switch · space mark · shift+space range · D install · Esc clear"
    );
}

#[test]
fn the_screen_is_put_together() {
    let c = Theme::default();
    let mut app = start();
    let screen = draw(&mut app, &c, area());
    assert_eq!(screen.list.area, Rect::new(0, 0, 42, 35));
    let areas: Vec<Rect> = screen.panes.iter().map(|p| p.area).collect();
    assert_eq!(
        areas,
        vec![
            Rect::new(42, 0, 58, 35),
            Rect::new(0, 35, 100, 1),
            Rect::new(0, 36, 100, 3),
            Rect::new(0, 39, 100, 1),
        ]
    );
    assert!(screen.dialog_rows.is_empty());
}

#[test]
fn the_delete_choices_are_shown() {
    let c = Theme::default();
    let mut app = start();
    press(&mut app, KeyCode::Char('D'));
    press(&mut app, KeyCode::Down);
    let screen = draw(&mut app, &c, area());
    assert_eq!(screen.panes.len(), 5);
    let pane = &screen.panes[4];
    assert_eq!(pane.area, Rect::new(19, 13, 62, 14));
    assert!(pane.clear);
    assert_eq!(title_of(border_of(pane)), " Delete ");
    assert_eq!(border_of(pane).fill, Some(c.base));
    assert_eq!(
        texts(&pane.lines),
        strings(&[
            "",
            "  bash",
            "",
            "    Normal delete",
            "      only this package, dependencies and configs stay",
            "",
            "  ▸ MEGA delete",
            "      package + unused deps + home leftovers + .pacsave + cache",
            "",
            "  ↑↓ choose · Enter confirm · Esc cancel",
        ])
    );
    assert_eq!(spans_of(&pane.lines[6])[1].style, strong(c.red));
    assert_eq!(spans_of(&pane.lines[3])[1].style, ink(c.subtext0));
}

fn plan() -> MegaPlan {
    let mut plan = MegaPlan::default();
    plan.packages = strings(&["bash"]);
    plan.cascade = strings(&["bash", "readline"]);
    plan.owned_files = 9;
    plan.home_paths = strings(&["/h/.config/bash"]);
    plan.system_leftovers = (0..40).map(|i| format!("/etc/{i}.pacsave")).collect();
    plan.cache_files = strings(&["/c/bash-1"]);
    plan
}

fn confirming(plan: MegaPlan) -> App {
    let mut app = start();
    app.handle_msg(Msg::Plan("bash".to_string(), Box::new(plan)));
    app
}

fn drawn(app: &mut App) -> Screen {
    assert!(can_draw(app));
    draw(app, &Theme::default(), area())
}

#[test]
fn the_confirmation_shows_everything() {
    let c = Theme::default();
    let mut app = confirming(plan());
    let screen = drawn(&mut app);
    assert_eq!(screen.panes.len(), 8);
    let frame = &screen.panes[4];
    assert_eq!(frame.area, Rect::new(9, 4, 82, 32));
    assert_eq!(title_of(border_of(frame)), " MEGA delete: bash · 2 pkg + 42 extra ");
    let body = &screen.panes[5];
    assert_eq!(body.area, Rect::new(10, 5, 80, 29));
    let shown = texts(&body.lines);
    assert_eq!(shown[0], "This will permanently remove:");
    assert_eq!(shown[2], "Packages (2) — 9 files");
    assert_eq!(shown[6], "Orphaned deps of these (0)");
    assert_eq!(shown[7], "  none");
    assert_eq!(shown[9], "Home leftovers (1)");
    assert_eq!(shown[12], "Config leftovers (40 candidates)");
    assert_eq!(shown[13], "  /etc/0.pacsave");
    assert_eq!(shown[14], "  /etc/0.pacnew");
    assert_eq!(shown[91], "  /etc/39.pacsave");
    assert_eq!(shown[92], "  /etc/39.pacnew");
    assert_eq!(shown[94], "Cached archives (1)");
    assert_eq!(shown.len(), 96);
    let plan = plan();
    for list in [&plan.cascade, &plan.home_paths, &plan.system_leftovers, &plan.cache_files] {
        for item in list {
            assert!(shown.contains(&format!("  {item}")));
        }
    }
    for command in remove_mega(&plan).commands {
        if command.contains(&"rm".to_string()) {
            let paths = command.iter().skip_while(|w| *w != "--").skip(1);
            for path in paths {
                assert!(shown.contains(&format!("  {path}")));
            }
        }
    }
    assert!(body.wrap);
    assert_eq!(text_of(&screen.panes[6].lines[0]), " ↑↓ scroll · 29/96 lines");
    assert_eq!(screen.panes[6].area, Rect::new(10, 34, 36, 1));
    assert_eq!(screen.panes[7].area, Rect::new(46, 34, 44, 1));
    assert_eq!(text_of(&screen.panes[7].lines[0]), "  Cancel      Continue   ");
    match &app.overlay {
        Overlay::MegaConfirm { content_lines, view_lines, .. } => {
            assert_eq!((*content_lines, *view_lines), (96, 29));
        }
        _ => panic!("the confirmation"),
    }
    press(&mut app, KeyCode::End);
    press(&mut app, KeyCode::Right);
    let screen = drawn(&mut app);
    assert_eq!(screen.panes[5].scroll, 67);
    assert_eq!(text_of(&screen.panes[6].lines[0]), " ↑↓ scroll · 96/96 lines");
    let on = Style { fg: Some(c.base), bg: Some(c.red), bold: true };
    assert_eq!(spans_of(&screen.panes[7].lines[0])[2].style, on);
}

#[test]
fn a_refusal_is_shown() {
    let c = Theme::default();
    let mut refused = MegaPlan::default();
    refused.packages = strings(&["bash"]);
    refused.error = Some("error: no\n:: needed by x".to_string());
    let mut app = confirming(refused);
    let screen = drawn(&mut app);
    assert_eq!(title_of(border_of(&screen.panes[4])), " Cannot remove: bash ");
    assert_eq!(
        texts(&screen.panes[5].lines),
        strings(&[
            "pacman refused this removal:",
            "",
            "  error: no",
            "  :: needed by x",
            "",
            "  Nothing was changed.",
        ])
    );
    assert_eq!(text_of(&screen.panes[6].lines[0]), "");
    let idle = buttons(1, c.red, false, &c);
    let grey = Style { fg: Some(c.base), bg: Some(c.surface1), bold: true };
    assert_eq!(spans_of(&idle)[2].style, grey);
    assert_eq!(spans_of(&idle)[0].style, ink(c.subtext0));
    assert!(matches!(idle, Line::Right(_)));
}

#[test]
fn given_rows_are_used() {
    let c = Theme::default();
    let rows = vec![Rect::new(1, 1, 20, 3), Rect::new(1, 4, 20, 1)];
    let (panes, content, view) = draw_mega_confirm(&plan(), 100, 0, &c, area(), &rows);
    assert_eq!((content, view), (96, 3));
    assert_eq!(panes[1].scroll, 93);
    assert_eq!(panes[1].area, rows[0]);
    assert_eq!(panes[2].area, Rect::new(1, 4, 9, 1));
    let panes = draw_installed(&strings(&["a"]), &strings(&["── a", "/x"]), 9, &c, area(), &rows);
    assert_eq!(panes[1].scroll, 1);
    assert_eq!(texts(&panes[1].lines), strings(&["Installed: a", "", "── a", "/x"]));
    let mut app = start();
    let split = noull_pm::layout::screen_rows(area());
    let screen = compose(&mut app, &c, area(), split, Vec::new());
    assert_eq!(screen.panes.len(), 4);
}

#[test]
fn what_was_installed_is_shown() {
    let c = Theme::default();
    let mut app = start();
    app.show_installed(vec![Landed {
        name: "fd".to_string(),
        listing: "fd /usr/\n".to_string(),
    }]);
    let screen = drawn(&mut app);
    assert_eq!(screen.panes.len(), 7);
    assert_eq!(screen.panes[4].area, Rect::new(9, 4, 82, 32));
    assert_eq!(title_of(border_of(&screen.panes[4])), " Installed files ");
    assert_eq!(texts(&screen.panes[5].lines), strings(&["Installed: fd", "", "── fd", "/usr/"]));
    match &screen.panes[5].lines[2] {
        Line::Text { style, .. } => assert_eq!(*style, strong(c.blue)),
        _ => panic!("a text"),
    }
    assert_eq!(text_of(&screen.panes[6].lines[0]), " ↑↓ scroll · Esc close");
}

#[test]
fn waiting_is_shown() {
    let c = Theme::default();
    let pane = draw_busy("bash: working out the plan…", &c, area());
    assert!(pane.centered && pane.clear);
    assert_eq!(texts(&pane.lines), strings(&["bash: working out the plan…"]));
    assert!(border_of(&pane).title.is_none());
    let mut app = start();
    press(&mut app, KeyCode::Char('D'));
    press(&mut app, KeyCode::Down);
    press(&mut app, KeyCode::Enter);
    let screen = drawn(&mut app);
    assert_eq!(screen.panes[4].area, Rect::new(27, 17, 46, 6));
}

#[test]
fn small_screens_hold_everything() {
    for height in 0..20 {
        for width in [0, 1, 2, 5, 30] {
            let whole = Rect::new(0, 0, width, height);
            let mut app = confirming(plan());
            let screen = draw(&mut app, &Theme::default(), whole);
            for pane in &screen.panes {
                assert!(pane.area.x + pane.area.width <= width);
                assert!(pane.area.y + pane.area.height <= height);
            }
        }
    }
}
