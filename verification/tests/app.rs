use noull_pm::app::{App, Effect, KeyCode, KeyPress, Landed, Msg, Overlay, Request, Tab};
use noull_pm::ops::MegaPlan;
use noull_pm::pacman::Pkg;

fn strings(list: &[&str]) -> Vec<String> {
    list.iter().map(|s| s.to_string()).collect()
}

fn pkg(name: &str, description: &str, installed: bool) -> Pkg {
    let mut p = Pkg::default();
    p.name = name.to_string();
    p.description = description.to_string();
    p.installed = installed;
    p
}

fn start() -> App {
    let mut bash = pkg("bash", "The GNU shell", true);
    bash.provides = strings(&["sh=5"]);
    App::new(
        vec![bash, pkg("fd", "Find files", true), pkg("ripgrep", "Search FILES", true), pkg("zsh", "Another SHELL", true)],
        1000,
    )
}

fn press(app: &mut App, code: KeyCode) -> Effect {
    let key = KeyPress { code, shift: false, ctrl: false };
    assert!(app.accepts(key));
    app.on_key(key, 5000)
}

fn shifted(app: &mut App, c: char) -> Effect {
    let key = KeyPress { code: KeyCode::Char(c), shift: true, ctrl: false };
    assert!(app.accepts(key));
    app.on_key(key, 5000)
}

fn held(app: &mut App, c: char) -> Effect {
    let key = KeyPress { code: KeyCode::Char(c), shift: false, ctrl: true };
    assert!(app.accepts(key));
    app.on_key(key, 5000)
}

fn type_in(app: &mut App, s: &str) {
    for c in s.chars() {
        assert!(matches!(press(app, KeyCode::Char(c)), Effect::Nothing));
    }
}

fn shown(app: &App) -> Vec<String> {
    app.list().iter().map(|p| p.name.clone()).collect()
}

fn remote() -> App {
    let mut app = start();
    press(&mut app, KeyCode::Tab);
    type_in(&mut app, "rip");
    app.handle_msg(Msg::Search(
        "rip".to_string(),
        vec![pkg("rip", "", false), pkg("ripgrep", "", true), pkg("ripper", "", false)],
    ));
    app
}

#[test]
fn it_starts_with_the_installed_packages() {
    let app = start();
    assert_eq!(shown(&app), strings(&["bash", "fd", "ripgrep", "zsh"]));
    assert_eq!(app.status, "4 packages installed");
    assert_eq!(app.current().unwrap().name, "bash");
    assert!(app.tab == Tab::Downloaded);
    assert!(App::new(Vec::new(), 0).current().is_none());
}

#[test]
fn virtual_names_count_as_installed() {
    let app = start();
    assert!(app.installed_names.contains("sh"));
    assert!(app.installed_names.contains("bash"));
    assert!(!app.installed_names.contains("cron"));
    assert_eq!(app.installed_names.len(), 5);
}

#[test]
fn typing_filters_the_installed_packages() {
    let mut app = start();
    type_in(&mut app, "fIle");
    assert_eq!(shown(&app), strings(&["fd", "ripgrep"]));
    assert_eq!(app.status, "2 installed packages match");
    press(&mut app, KeyCode::Backspace);
    press(&mut app, KeyCode::Backspace);
    press(&mut app, KeyCode::Backspace);
    press(&mut app, KeyCode::Backspace);
    assert_eq!(shown(&app).len(), 4);
    press(&mut app, KeyCode::Backspace);
    assert_eq!(app.query, "");
}

#[test]
fn the_query_survives_a_tab_switch() {
    let mut app = start();
    type_in(&mut app, "shell");
    press(&mut app, KeyCode::Tab);
    assert!(app.tab == Tab::Remote);
    assert_eq!(app.query, "shell");
    assert!(app.list().is_empty());
    press(&mut app, KeyCode::BackTab);
    assert!(app.tab == Tab::Downloaded);
    assert_eq!(app.query, "shell");
    assert_eq!(shown(&app), strings(&["bash", "zsh"]));
    assert_eq!(Tab::Downloaded.label(), "Downloaded");
    assert_eq!(Tab::Remote.label(), "AUR + pacman");
    assert!(Tab::Remote.other() == Tab::Downloaded);
}

#[test]
fn the_search_waits_and_fires_once() {
    let mut app = start();
    assert!(app.maybe_search(9000).is_none());
    press(&mut app, KeyCode::Tab);
    assert!(app.maybe_search(9000).is_none());
    type_in(&mut app, "rip");
    assert!(app.maybe_search(5279).is_none());
    assert!(app.maybe_search(4000).is_none());
    assert_eq!(app.maybe_search(5280), Some("rip".to_string()));
    assert_eq!(app.status, "searching rip…");
    assert!(app.search_pending);
    assert!(app.maybe_search(9000).is_none());
}

#[test]
fn every_key_that_changes_the_query_delays_the_search() {
    let mut app = start();
    press(&mut app, KeyCode::Tab);
    type_in(&mut app, "rip");
    press(&mut app, KeyCode::Backspace);
    assert!(app.maybe_search(5279).is_none());
    assert_eq!(app.maybe_search(5280), Some("ri".to_string()));
    shifted(&mut app, 'x');
    assert!(app.maybe_search(5279).is_none());
    assert_eq!(app.maybe_search(5280), Some("riX".to_string()));
    press(&mut app, KeyCode::Esc);
    assert!(app.maybe_search(99999).is_none());
}

#[test]
fn late_results_are_dropped() {
    let mut app = start();
    press(&mut app, KeyCode::Tab);
    type_in(&mut app, "rip");
    app.handle_msg(Msg::Search("ri".to_string(), vec![pkg("x", "", false)]));
    assert!(app.list().is_empty());
    app.handle_msg(Msg::Search("rip".to_string(), vec![pkg("x", "", false)]));
    assert_eq!(shown(&app), strings(&["x"]));
    assert_eq!(app.status, "1 results for \"rip\"");
    press(&mut app, KeyCode::Tab);
    app.handle_msg(Msg::Search("rip".to_string(), Vec::new()));
    assert_eq!(app.results.len(), 1);
}

#[test]
fn details_are_asked_for_once_and_late_ones_dropped() {
    let mut app = remote();
    match app.maybe_load_details() {
        Some(Request::Details(p)) => assert_eq!(p.name, "rip"),
        _ => panic!("details of rip"),
    }
    assert!(app.maybe_load_details().is_none());
    app.handle_msg(Msg::Details("other".to_string(), Box::new(pkg("other", "", false))));
    assert!(app.details.is_none());
    app.handle_msg(Msg::Details("rip".to_string(), Box::new(pkg("rip", "full", false))));
    assert_eq!(app.details.as_ref().unwrap().description, "full");
    press(&mut app, KeyCode::Down);
    match app.maybe_load_details() {
        Some(Request::Files(name)) => assert_eq!(name, "ripgrep"),
        _ => panic!("files of ripgrep"),
    }
    assert_eq!(app.details.as_ref().unwrap().description, "Search FILES");
    app.handle_msg(Msg::Files("rip".to_string(), strings(&["/a"])));
    assert!(app.files.is_empty());
    app.handle_msg(Msg::Files("ripgrep".to_string(), strings(&["/a"])));
    assert_eq!(app.files, strings(&["/a"]));
    assert!(App::new(Vec::new(), 0).maybe_load_details().is_none());
}

#[test]
fn the_cursor_stays_in_the_list() {
    let mut app = start();
    press(&mut app, KeyCode::Up);
    assert_eq!(app.state.selected, Some(0));
    press(&mut app, KeyCode::Down);
    press(&mut app, KeyCode::Down);
    assert_eq!(app.state.selected, Some(2));
    press(&mut app, KeyCode::PageDown);
    assert_eq!(app.state.selected, Some(3));
    press(&mut app, KeyCode::PageUp);
    assert_eq!(app.state.selected, Some(0));
    app.move_cursor(isize::MAX);
    assert_eq!(app.state.selected, Some(3));
    app.move_cursor(isize::MIN);
    assert_eq!(app.state.selected, Some(0));
    let mut empty = App::new(Vec::new(), 0);
    press(&mut empty, KeyCode::Down);
    assert_eq!(empty.state.selected, None);
}

#[test]
fn a_space_marks_and_unmarks() {
    let mut app = start();
    press(&mut app, KeyCode::Char(' '));
    assert_eq!(app.marked.to_vec(), strings(&["bash"]));
    press(&mut app, KeyCode::Char(' '));
    assert!(app.marked.is_empty());
    assert_eq!(app.query, "");
}

#[test]
fn a_range_is_marked_in_either_direction() {
    let mut app = start();
    shifted(&mut app, ' ');
    assert_eq!(app.marked.to_vec(), strings(&["bash"]));
    press(&mut app, KeyCode::Down);
    press(&mut app, KeyCode::Down);
    shifted(&mut app, ' ');
    assert_eq!(app.marked.to_vec(), strings(&["bash", "fd", "ripgrep"]));
    assert_eq!(app.status, "3 marked in range · 3 total");
    let mut back = start();
    press(&mut back, KeyCode::Down);
    press(&mut back, KeyCode::Down);
    press(&mut back, KeyCode::Char(' '));
    press(&mut back, KeyCode::Up);
    held(&mut back, ' ');
    assert_eq!(back.marked.to_vec(), strings(&["fd", "ripgrep"]));
}

#[test]
fn a_range_from_a_row_that_is_gone_is_told() {
    let mut app = remote();
    press(&mut app, KeyCode::Down);
    press(&mut app, KeyCode::Down);
    press(&mut app, KeyCode::Char(' '));
    app.handle_msg(Msg::Search("rip".to_string(), vec![pkg("rip", "", false)]));
    let key = KeyPress { code: KeyCode::Char(' '), shift: true, ctrl: false };
    assert!(!app.accepts(key));
    assert!(app.accepts(KeyPress { code: KeyCode::Char(' '), shift: false, ctrl: false }));
}

#[test]
fn targets_are_labelled() {
    let mut app = start();
    assert_eq!(app.delete_targets_label(), "bash");
    press(&mut app, KeyCode::Char(' '));
    press(&mut app, KeyCode::PageDown);
    press(&mut app, KeyCode::Char(' '));
    assert_eq!(app.targets(), strings(&["bash", "zsh"]));
    assert_eq!(app.delete_targets_label(), "bash, zsh");
    press(&mut app, KeyCode::PageUp);
    press(&mut app, KeyCode::Down);
    press(&mut app, KeyCode::Char(' '));
    press(&mut app, KeyCode::Down);
    press(&mut app, KeyCode::Char(' '));
    assert_eq!(app.delete_targets_label(), "bash, fd … (4 packages)");
    assert_eq!(App::new(Vec::new(), 0).delete_targets_label(), "");
}

#[test]
fn esc_clears_and_then_quits() {
    let mut app = remote();
    press(&mut app, KeyCode::Esc);
    assert_eq!(app.query, "");
    assert!(app.list().is_empty());
    assert_eq!(app.status, "4 packages installed");
    assert!(!app.quit);
    press(&mut app, KeyCode::Esc);
    assert!(app.quit);
}

#[test]
fn ctrl_c_quits_from_anywhere() {
    let mut app = start();
    press(&mut app, KeyCode::Char('D'));
    held(&mut app, 'c');
    assert!(app.quit);
    assert!(matches!(app.overlay, Overlay::DeleteChoice { .. }));
    let mut typed = start();
    type_in(&mut typed, "c");
    assert!(!typed.quit);
}

#[test]
fn arrows_scroll_the_details() {
    let mut app = start();
    press(&mut app, KeyCode::Right);
    press(&mut app, KeyCode::Right);
    assert_eq!(app.detail_scroll, 10);
    press(&mut app, KeyCode::Left);
    assert_eq!(app.detail_scroll, 5);
    press(&mut app, KeyCode::Left);
    press(&mut app, KeyCode::Left);
    assert_eq!(app.detail_scroll, 0);
    app.detail_scroll = 65533;
    press(&mut app, KeyCode::Right);
    assert_eq!(app.detail_scroll, 65535);
}

#[test]
fn shifted_letters_are_capitals() {
    let mut app = start();
    assert!(matches!(shifted(&mut app, 'd'), Effect::Nothing));
    assert!(matches!(app.overlay, Overlay::DeleteChoice { cursor: 0 }));
    let mut typed = start();
    shifted(&mut typed, 'x');
    type_in(&mut typed, "d");
    assert_eq!(typed.query, "Xd");
}

#[test]
fn d_installs_what_is_missing() {
    let mut app = remote();
    match press(&mut app, KeyCode::Char('D')) {
        Effect::Install(names) => assert_eq!(names, strings(&["rip"])),
        _ => panic!("an install"),
    }
    press(&mut app, KeyCode::Char(' '));
    press(&mut app, KeyCode::PageDown);
    shifted(&mut app, ' ');
    match press(&mut app, KeyCode::Char('D')) {
        Effect::Install(names) => assert_eq!(names, strings(&["rip", "ripper"])),
        _ => panic!("an install"),
    }
    let mut have = remote();
    press(&mut have, KeyCode::Down);
    assert!(matches!(press(&mut have, KeyCode::Char('D')), Effect::Nothing));
    assert_eq!(have.status, "already installed");
    let mut none = start();
    press(&mut none, KeyCode::Tab);
    assert!(matches!(press(&mut none, KeyCode::Char('D')), Effect::Nothing));
}

#[test]
fn what_landed_is_listed() {
    let mut app = remote();
    app.after_change(vec![pkg("bash", "", true), pkg("rip", "", true)]);
    assert_eq!(app.status, "2 packages installed");
    let wanted = strings(&["rip", "ripper"]);
    assert_eq!(app.installed_now(&wanted), strings(&["rip"]));
    app.show_installed(vec![Landed {
        name: "rip".to_string(),
        listing: "rip /usr/\nrip /usr/bin/rip\n".to_string(),
    }]);
    match &app.overlay {
        Overlay::Installed { names, files, scroll } => {
            assert_eq!(names, &strings(&["rip"]));
            assert_eq!(files, &strings(&["── rip", "/usr/", "/usr/bin/rip"]));
            assert_eq!(*scroll, 0);
        }
        _ => panic!("what was installed"),
    }
    for (code, expected) in [
        (KeyCode::Down, 1),
        (KeyCode::PageDown, 16),
        (KeyCode::Up, 15),
        (KeyCode::PageUp, 0),
        (KeyCode::Up, 0),
        (KeyCode::Left, 0),
    ] {
        press(&mut app, code);
        match &app.overlay {
            Overlay::Installed { scroll, .. } => assert_eq!(*scroll, expected),
            _ => panic!("what was installed"),
        }
    }
    press(&mut app, KeyCode::Enter);
    assert!(matches!(app.overlay, Overlay::Closed));
}

#[test]
fn a_normal_delete_is_confirmed() {
    let mut app = start();
    press(&mut app, KeyCode::Down);
    press(&mut app, KeyCode::Char('D'));
    press(&mut app, KeyCode::Down);
    press(&mut app, KeyCode::Up);
    press(&mut app, KeyCode::Char('x'));
    match press(&mut app, KeyCode::Enter) {
        Effect::Remove(names) => assert_eq!(names, strings(&["fd"])),
        _ => panic!("a removal"),
    }
    assert!(matches!(app.overlay, Overlay::Closed));
    press(&mut app, KeyCode::Char('D'));
    assert!(matches!(press(&mut app, KeyCode::Esc), Effect::Nothing));
    assert!(matches!(app.overlay, Overlay::Closed));
    assert!(!app.quit);
}

fn confirming(plan: MegaPlan) -> App {
    let mut app = start();
    press(&mut app, KeyCode::Char(' '));
    press(&mut app, KeyCode::Down);
    press(&mut app, KeyCode::Char(' '));
    press(&mut app, KeyCode::Char('D'));
    press(&mut app, KeyCode::Down);
    match press(&mut app, KeyCode::Enter) {
        Effect::Plan { key, targets } => {
            assert_eq!(key, "bash,fd");
            assert_eq!(targets, strings(&["bash", "fd"]));
        }
        _ => panic!("a plan"),
    }
    match &app.overlay {
        Overlay::Busy(msg) => assert_eq!(msg, "bash, fd: working out the plan…"),
        _ => panic!("busy"),
    }
    app.handle_msg(Msg::Plan("bash,fd".to_string(), Box::new(plan)));
    app
}

#[test]
fn a_mega_delete_is_confirmed() {
    let mut plan = MegaPlan::default();
    plan.packages = strings(&["bash", "fd"]);
    let mut app = confirming(plan);
    match press(&mut app, KeyCode::Enter) {
        Effect::Nothing => {}
        _ => panic!("cancelled"),
    }
    assert!(matches!(app.overlay, Overlay::Closed));
    let mut plan = MegaPlan::default();
    plan.packages = strings(&["bash", "fd"]);
    let mut again = confirming(plan);
    press(&mut again, KeyCode::Right);
    press(&mut again, KeyCode::Left);
    press(&mut again, KeyCode::Tab);
    match press(&mut again, KeyCode::Enter) {
        Effect::RemoveMega(p) => assert_eq!(p.packages, strings(&["bash", "fd"])),
        _ => panic!("carried out"),
    }
}

#[test]
fn a_refused_plan_is_not_carried_out() {
    let mut plan = MegaPlan::default();
    plan.error = Some("no".to_string());
    let mut app = confirming(plan);
    press(&mut app, KeyCode::Right);
    assert!(matches!(press(&mut app, KeyCode::Enter), Effect::Nothing));
    assert!(matches!(app.overlay, Overlay::Closed));
}

#[test]
fn a_plan_for_another_selection_is_dropped() {
    let mut app = start();
    app.handle_msg(Msg::Plan("fd".to_string(), Box::new(MegaPlan::default())));
    assert!(matches!(app.overlay, Overlay::Closed));
    assert_eq!(app.status, "selection changed, mega delete cancelled");
    app.handle_msg(Msg::Plan("bash".to_string(), Box::new(MegaPlan::default())));
    assert!(matches!(app.overlay, Overlay::MegaConfirm { button: 0, .. }));
}

#[test]
fn the_confirmation_scrolls_within_its_lines() {
    let mut app = confirming(MegaPlan::default());
    app.measured(30, 8);
    for (code, expected) in [
        (KeyCode::Down, 1),
        (KeyCode::PageDown, 9),
        (KeyCode::End, 22),
        (KeyCode::Down, 22),
        (KeyCode::PageDown, 22),
        (KeyCode::Up, 21),
        (KeyCode::PageUp, 13),
        (KeyCode::Home, 0),
        (KeyCode::Up, 0),
        (KeyCode::Char('x'), 0),
    ] {
        press(&mut app, code);
        match &app.overlay {
            Overlay::MegaConfirm { scroll, .. } => assert_eq!(*scroll, expected),
            _ => panic!("the confirmation"),
        }
    }
    app.measured(65535, 0);
    press(&mut app, KeyCode::End);
    assert!(!app.accepts(KeyPress { code: KeyCode::Down, shift: false, ctrl: false }));
    assert!(!app.accepts(KeyPress { code: KeyCode::PageDown, shift: false, ctrl: false }));
    assert!(app.accepts(KeyPress { code: KeyCode::Up, shift: false, ctrl: false }));
}

#[test]
fn the_list_is_refreshed_after_a_removal() {
    let mut app = start();
    press(&mut app, KeyCode::PageDown);
    press(&mut app, KeyCode::Char(' '));
    app.after_change(vec![pkg("bash", "", true), pkg("fd", "", true)]);
    assert_eq!(app.state.selected, Some(1));
    assert!(app.marked.is_empty());
    assert!(!app.installed_names.contains("sh"));
    app.after_change(Vec::new());
    assert_eq!(app.state.selected, None);
    assert_eq!(app.status, "0 packages installed");
}

#[test]
fn the_theme_is_looked_at_once_a_second() {
    let mut app = start();
    assert!(!app.maybe_reload_theme(1999));
    assert!(app.maybe_reload_theme(2000));
    assert!(!app.maybe_reload_theme(2999));
    assert!(app.maybe_reload_theme(3000));
    app.theme_changed("nord");
    assert_eq!(app.status, "theme: nord");
}

#[test]
fn the_first_row_shown_is_kept() {
    let mut app = start();
    app.scrolled_to(2);
    assert_eq!(app.state.offset, 2);
    type_in(&mut app, "nothing like it");
    assert_eq!(app.state.selected, None);
    assert_eq!(app.state.offset, 0);
}
