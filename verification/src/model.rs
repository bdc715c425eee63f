//! The application as a state machine: its state, what every key and every
//! reply does to it, and what holds of all its states.
//!
//! `app` holds the code that carries these transitions out.

use vstd::prelude::*;

use crate::app::KeyCode;
use crate::app::KeyPress;
use crate::app::ListState;
use crate::app::Tab;
use crate::names;
use crate::ops;
use crate::ops::MegaPlanView;
use crate::pacman;
use crate::pacman::PkgView;
use crate::text;

verus! {

// ---------------------------------------------------------------------------
// The state
// ---------------------------------------------------------------------------

/// What lies over the main screen.
#[verifier::ext_equal]
pub enum OverlayView {
    Closed,
    DeleteChoice { cursor: usize },
    MegaConfirm {
        plan: MegaPlanView,
        scroll: u16,
        button: usize,
        content_lines: u16,
        view_lines: u16,
    },
    Installed { names: Seq<Seq<char>>, files: Seq<Seq<char>>, scroll: u16 },
    Busy(Seq<char>),
}

/// The state of the application.
#[verifier::ext_equal]
pub struct AppView {
    pub installed: Seq<PkgView>,
    pub installed_names: Set<Seq<char>>,
    pub query: Seq<char>,
    pub results: Seq<PkgView>,
    pub filtered: Seq<PkgView>,
    pub tab: Tab,
    pub search_pending: bool,
    pub state: ListState,
    pub marked: Set<Seq<char>>,
    pub anchor: Option<usize>,
    pub details: Option<PkgView>,
    pub files: Seq<Seq<char>>,
    pub detail_scroll: u16,
    pub overlay: OverlayView,
    pub status: Seq<char>,
    pub last_key: u64,
    pub last_theme_check: u64,
    pub last_searched: Seq<char>,
    pub detail_requested: Seq<char>,
    pub quit: bool,
}

/// A reply from the background.
pub enum MsgView {
    Search(Seq<char>, Seq<PkgView>),
    Details(Seq<char>, PkgView),
    Files(Seq<char>, Seq<Seq<char>>),
    Plan(Seq<char>, MegaPlanView),
}

/// What a key asks the world for.
#[verifier::ext_equal]
pub enum EffectView {
    /// Nothing
    Nothing,
    /// Install packages
    Install(Seq<Seq<char>>),
    /// Remove packages and nothing else
    Remove(Seq<Seq<char>>),
    /// Work out the plan of a mega delete, to be sent back under the key
    Plan { key: Seq<char>, targets: Seq<Seq<char>> },
    /// Carry a plan out
    RemoveMega(MegaPlanView),
}

/// What is asked for in the background.
#[verifier::ext_equal]
pub enum RequestView {
    /// The files of an installed package
    Files(Seq<char>),
    /// The details of a package that is not installed
    Details(PkgView),
}

/// The names that a package counts as installed under: its own and the
/// virtual ones that it provides.
pub open spec fn names_of_one(pkg: PkgView) -> Set<Seq<char>> {
    ops::bare_names(pkg.provides).to_set().insert(pkg.name)
}

/// The names that count as installed.
pub open spec fn names_of(pkgs: Seq<PkgView>) -> Set<Seq<char>>
    decreases pkgs.len(),
{
    if pkgs.len() == 0 {
        Set::empty()
    } else {
        names_of(pkgs.drop_last()).union(names_of_one(pkgs.last()))
    }
}

/// Whether a package fits a query in lower case by its name or description.
pub open spec fn fits(pkg: PkgView, query: Seq<char>) -> bool {
    ||| text::includes(text::lowercase(pkg.name), query)
    ||| text::includes(text::lowercase(pkg.description), query)
}

/// The packages that fit a query in lower case.
pub open spec fn fitting(pkgs: Seq<PkgView>, query: Seq<char>) -> Seq<PkgView>
    decreases pkgs.len(),
{
    if pkgs.len() == 0 {
        seq![]
    } else {
        let rest = fitting(pkgs.drop_last(), query);
        if fits(pkgs.last(), query) {
            rest.push(pkgs.last())
        } else {
            rest
        }
    }
}

/// The first package of a name.
pub open spec fn first_named(pkgs: Seq<PkgView>, name: Seq<char>) -> Option<PkgView>
    decreases pkgs.len(),
{
    if pkgs.len() == 0 {
        None
    } else if pkgs[0].name == name {
        Some(pkgs[0])
    } else {
        first_named(pkgs.drop_first(), name)
    }
}

/// The names of the rows from `lo` to `hi`.
pub open spec fn row_names(pkgs: Seq<PkgView>, lo: int, hi: int) -> Seq<Seq<char>> {
    Seq::new((hi + 1 - lo) as nat, |i: int| pkgs[lo + i].name)
}

/// The names that are not in a set.
pub open spec fn names_outside(list: Seq<Seq<char>>, set: Set<Seq<char>>) -> Seq<Seq<char>>
    decreases list.len(),
{
    if list.len() == 0 {
        seq![]
    } else {
        let rest = names_outside(list.drop_last(), set);
        if set.contains(list.last()) {
            rest
        } else {
            rest.push(list.last())
        }
    }
}

/// The names that are in a set.
pub open spec fn names_inside(list: Seq<Seq<char>>, set: Set<Seq<char>>) -> Seq<Seq<char>>
    decreases list.len(),
{
    if list.len() == 0 {
        seq![]
    } else {
        let rest = names_inside(list.drop_last(), set);
        if set.contains(list.last()) {
            rest.push(list.last())
        } else {
            rest
        }
    }
}

/// What landed where: for each package a heading and its files.
pub open spec fn landed_files(landed: Seq<(Seq<char>, Seq<char>)>) -> Seq<Seq<char>>
    decreases landed.len(),
{
    if landed.len() == 0 {
        seq![]
    } else {
        landed_files(landed.drop_last()) + seq!["── "@ + landed.last().0] + pacman::paths_in(
            text::lines_of(landed.last().1),
        )
    }
}

/// A number held between two bounds.
pub open spec fn clamp(n: int, lo: int, hi: int) -> int {
    if n < lo {
        lo
    } else if n > hi {
        hi
    } else {
        n
    }
}

/// The difference of two numbers, no less than 0.
pub open spec fn less(a: int, b: int) -> int {
    if a < b {
        0
    } else {
        a - b
    }
}

/// The smaller of two numbers.
pub open spec fn min(a: int, b: int) -> int {
    if a < b {
        a
    } else {
        b
    }
}

/// The greater of two numbers.
pub open spec fn max(a: int, b: int) -> int {
    if a < b {
        b
    } else {
        a
    }
}

/// How long after the last keystroke the remote search fires, in
/// milliseconds.
pub const DEBOUNCE: u64 = 280;

/// How often the theme files are checked for changes, in milliseconds.
pub const THEME_POLL: u64 = 1000;

impl AppView {
    /// The state at startup.
    pub open spec fn initial(installed: Seq<PkgView>, now: u64) -> AppView {
        AppView {
            status: text::counted(seq![], installed.len(), " packages installed"@),
            installed,
            installed_names: names_of(installed),
            query: seq![],
            results: seq![],
            filtered: seq![],
            tab: Tab::Downloaded,
            search_pending: false,
            state: ListState {
                offset: 0,
                selected: if installed.len() > 0 {
                    Some(0usize)
                } else {
                    None
                },
            },
            marked: Set::empty(),
            anchor: None,
            details: None,
            files: seq![],
            detail_scroll: 0,
            overlay: OverlayView::Closed,
            last_key: now,
            last_theme_check: now,
            last_searched: seq![],
            detail_requested: seq![],
            quit: false,
        }
    }

    /// The list on screen, per the active tab.
    pub open spec fn list(self) -> Seq<PkgView> {
        match self.tab {
            Tab::Downloaded => if self.query.len() == 0 {
                self.installed
            } else {
                self.filtered
            },
            Tab::Remote => self.results,
        }
    }

    /// The package under the cursor.
    pub open spec fn current(self) -> Option<PkgView> {
        match self.state.selected {
            Some(i) => if i < self.list().len() {
                Some(self.list()[i as int])
            } else {
                None
            },
            None => None,
        }
    }

    /// What holds of every state: the cursor is on a row of the list, the
    /// filtered packages are those that fit the query while they are shown,
    /// the installed names are those of the installed packages, the marks
    /// are finitely many, and a choice is one of two.
    pub open spec fn ok(self) -> bool {
        &&& self.marked.finite()
        &&& self.state.selected matches Some(i) ==> i < self.list().len()
        &&& self.tab == Tab::Downloaded && self.query.len() > 0 ==> self.filtered == fitting(
            self.installed,
            text::lowercase(self.query),
        )
        &&& self.installed_names == names_of(self.installed)
        &&& self.overlay matches OverlayView::DeleteChoice { cursor } ==> cursor <= 1
        &&& self.overlay matches OverlayView::MegaConfirm { button, .. } ==> button <= 1
    }

    // -----------------------------------------------------------------------
    // Lists and selections
    // -----------------------------------------------------------------------

    /// Puts the cursor on a row, or on none.
    pub open spec fn select(self, row: Option<usize>) -> AppView {
        AppView {
            state: ListState {
                selected: row,
                offset: if row is None {
                    0
                } else {
                    self.state.offset
                },
            },
            ..self
        }
    }

    /// Puts the cursor on the first row, if there is one.
    pub open spec fn select_first(self) -> AppView {
        self.select(
            if self.list().len() == 0 {
                None
            } else {
                Some(0)
            },
        )
    }

    /// Filters the installed packages by the query.
    pub open spec fn refilter(self) -> AppView {
        if self.tab != Tab::Downloaded || self.query.len() == 0 {
            self
        } else {
            let filtered = fitting(self.installed, text::lowercase(self.query));
            AppView {
                filtered,
                status: text::counted(seq![], filtered.len(), " installed packages match"@),
                ..self
            }
        }
    }

    /// Forgets what the right pane shows.
    pub open spec fn reset_detail(self) -> AppView {
        AppView {
            details: None,
            files: seq![],
            detail_requested: seq![],
            detail_scroll: 0,
            ..self
        }
    }

    /// Forgets the marks.
    pub open spec fn unmark(self) -> AppView {
        AppView { marked: Set::empty(), anchor: None, ..self }
    }

    /// Says how many packages are installed.
    pub open spec fn count_installed(self) -> AppView {
        AppView {
            status: text::counted(seq![], self.installed.len(), " packages installed"@),
            ..self
        }
    }

    /// Switches tabs.
    pub open spec fn switch_tab(self, now: u64) -> AppView {
        let other = AppView { tab: self.tab.opposite(), ..self }.unmark().refilter();
        let timed = if other.tab == Tab::Remote {
            AppView { last_key: now, ..other }
        } else {
            other
        };
        let shown = timed.select_first().reset_detail();
        if shown.tab == Tab::Downloaded && shown.query.len() == 0 {
            shown.count_installed()
        } else {
            shown
        }
    }

    /// Shows the list for a query that changed.
    pub open spec fn on_query_changed(self) -> AppView {
        let filtered = self.refilter();
        let cleared = if filtered.tab == Tab::Remote && filtered.query.len() == 0 {
            AppView { results: seq![], last_searched: seq![], ..filtered }
        } else {
            filtered
        };
        cleared.unmark().select_first().reset_detail()
    }

    /// Moves the cursor by some rows, within the list.
    pub open spec fn move_cursor(self, delta: int) -> AppView {
        let len = self.list().len() as int;
        if len == 0 {
            self
        } else {
            let cur = match self.state.selected {
                Some(i) => i as int,
                None => 0,
            };
            self.select(Some(clamp(cur + delta, 0, len - 1) as usize))
        }
    }

    /// Marked packages in ascending order, or the one under the cursor when
    /// nothing is marked.
    pub open spec fn targets(self) -> Seq<Seq<char>> {
        if self.marked != Set::<Seq<char>>::empty() {
            names::in_order(self.marked)
        } else {
            match self.current() {
                Some(p) => seq![p.name],
                None => seq![],
            }
        }
    }

    /// Label for the delete dialog.
    pub open spec fn delete_targets_label(self) -> Seq<char> {
        let t = self.targets();
        if t.len() == 0 {
            seq![]
        } else if t.len() == 1 {
            t[0]
        } else if t.len() <= 3 {
            text::joined(t, ", "@)
        } else {
            t[0] + ", "@ + t[1] + text::counted(" … ("@, t.len(), " packages)"@)
        }
    }

    /// Marks the row under the cursor, or unmarks it.
    pub open spec fn toggle_mark(self) -> AppView {
        match self.current() {
            Some(p) => AppView {
                marked: if self.marked.contains(p.name) {
                    self.marked.remove(p.name)
                } else {
                    self.marked.insert(p.name)
                },
                anchor: self.state.selected,
                ..self
            },
            None => self,
        }
    }

    /// Whether the rows between the last mark and the cursor are all there.
    pub open spec fn has_range(self) -> bool {
        (self.state.selected is Some && self.anchor is Some) ==> self.anchor->0
            < self.list().len() && self.state.selected->0 < self.list().len()
    }

    /// Marks everything between the last mark and the cursor. Without a last
    /// mark, marks like a plain space.
    pub open spec fn mark_range(self) -> AppView {
        match (self.state.selected, self.anchor) {
            (None, _) => self,
            (Some(_), None) => self.toggle_mark(),
            (Some(index), Some(anchor)) => {
                let lo = min(anchor as int, index as int);
                let hi = max(anchor as int, index as int);
                let marked = self.marked.union(row_names(self.list(), lo, hi).to_set());
                AppView {
                    marked,
                    anchor: Some(index),
                    status: text::counted(
                        seq![],
                        (hi + 1 - lo) as nat,
                        " marked in range · "@,
                    ) + text::counted(seq![], marked.len(), " total"@),
                    ..self
                }
            },
        }
    }

    // -----------------------------------------------------------------------
    // The background
    // -----------------------------------------------------------------------

    /// Takes a reply in. A late one, for a query, package or selection that
    /// has moved on, is dropped.
    pub open spec fn handle_msg(self, msg: MsgView) -> AppView {
        match msg {
            MsgView::Search(q, results) => if q != self.query || self.tab != Tab::Remote {
                self
            } else {
                AppView {
                    search_pending: false,
                    status: text::counted(seq![], results.len(), " results for \""@) + q + "\""@,
                    results,
                    ..self
                }.select_first().reset_detail()
            },
            MsgView::Details(name, pkg) => if self.is_current(name) {
                AppView { details: Some(pkg), ..self }
            } else {
                self
            },
            MsgView::Files(name, files) => if self.is_current(name) {
                AppView { files, ..self }
            } else {
                self
            },
            MsgView::Plan(key, plan) => if text::joined(self.targets(), ","@) == key {
                AppView {
                    overlay: OverlayView::MegaConfirm {
                        plan,
                        scroll: 0,
                        button: 0,
                        content_lines: 0,
                        view_lines: 0,
                    },
                    ..self
                }
            } else {
                AppView {
                    overlay: OverlayView::Closed,
                    status: "selection changed, mega delete cancelled"@,
                    ..self
                }
            },
        }
    }

    /// Whether the package under the cursor has a name.
    pub open spec fn is_current(self, name: Seq<char>) -> bool {
        self.current() matches Some(p) && p.name == name
    }

    /// Whether the remote search is due: the query settled, and it was not
    /// searched for yet.
    pub open spec fn search_is_due(self, now: u64) -> bool {
        &&& self.tab == Tab::Remote
        &&& self.query.len() > 0
        &&& self.query != self.last_searched
        &&& less(now as int, self.last_key as int) >= DEBOUNCE
    }

    /// The remote search begins.
    pub open spec fn searching(self) -> AppView {
        AppView {
            last_searched: self.query,
            search_pending: true,
            status: "searching "@ + self.query + "…"@,
            ..self
        }
    }

    /// Asks for the details of the package under the cursor, once. Installed
    /// ones are in memory, so that only their files are asked for.
    pub open spec fn load_details(self) -> (AppView, Option<RequestView>) {
        match self.current() {
            None => (self, None),
            Some(pkg) => if pkg.name == self.detail_requested {
                (self, None)
            } else {
                let asked = AppView {
                    detail_requested: pkg.name,
                    details: None,
                    files: seq![],
                    detail_scroll: 0,
                    ..self
                };
                if pkg.installed {
                    let full = match first_named(self.installed, pkg.name) {
                        Some(p) => p,
                        None => pkg,
                    };
                    (AppView { details: Some(full), ..asked }, Some(RequestView::Files(pkg.name)))
                } else {
                    (asked, Some(RequestView::Details(pkg)))
                }
            },
        }
    }

    /// Whether the theme files are to be looked at again.
    pub open spec fn theme_is_due(self, now: u64) -> bool {
        less(now as int, self.last_theme_check as int) >= THEME_POLL
    }

    /// The state after an install or a removal, with the packages that are
    /// installed now.
    pub open spec fn after_change(self, installed: Seq<PkgView>) -> AppView {
        let a = AppView { installed, installed_names: names_of(installed), ..self }.unmark()
            .refilter().reset_detail();
        let len = a.list().len();
        let cur = match a.state.selected {
            Some(i) => i as int,
            None => 0,
        };
        let b = if len == 0 {
            a.select(None)
        } else if cur >= len {
            a.select(Some((len - 1) as usize))
        } else {
            a
        };
        b.count_installed()
    }

    /// Shows what landed where after an install.
    pub open spec fn show_installed(self, landed: Seq<(Seq<char>, Seq<char>)>) -> AppView {
        AppView {
            overlay: OverlayView::Installed {
                names: Seq::new(landed.len(), |i: int| landed[i].0),
                files: landed_files(landed),
                scroll: 0,
            },
            ..self
        }
    }

    /// Keeps how tall the mega dialog was.
    pub open spec fn measured(self, content: u16, view: u16) -> AppView {
        match self.overlay {
            OverlayView::MegaConfirm { plan, scroll, button, .. } => AppView {
                overlay: OverlayView::MegaConfirm {
                    plan,
                    scroll,
                    button,
                    content_lines: content,
                    view_lines: view,
                },
                ..self
            },
            _ => self,
        }
    }

    // -----------------------------------------------------------------------
    // Keys
    // -----------------------------------------------------------------------

    /// D: installs on the remote tab, opens the delete choices on the
    /// installed one.
    pub open spec fn on_d(self) -> (AppView, EffectView) {
        let targets = self.targets();
        if targets.len() == 0 {
            (self, EffectView::Nothing)
        } else if self.tab == Tab::Remote {
            let wanted = names_outside(targets, self.installed_names);
            if wanted.len() == 0 {
                (AppView { status: "already installed"@, ..self }, EffectView::Nothing)
            } else {
                (self, EffectView::Install(wanted))
            }
        } else {
            (
                AppView { overlay: OverlayView::DeleteChoice { cursor: 0 }, ..self },
                EffectView::Nothing,
            )
        }
    }

    /// Esc: clears the query, or quits when there is none.
    pub open spec fn on_esc(self) -> AppView {
        if self.query.len() == 0 {
            AppView { quit: true, ..self }
        } else {
            AppView {
                query: seq![],
                results: seq![],
                filtered: seq![],
                last_searched: seq![],
                ..self
            }.on_query_changed().count_installed()
        }
    }

    /// A character: a space marks, D acts, anything else is typed.
    pub open spec fn on_char(self, c: char, shift: bool, ctrl: bool, now: u64) -> (
        AppView,
        EffectView,
    ) {
        let ch = if shift {
            text::ascii_upper(c)
        } else {
            c
        };
        if ch == ' ' && (shift || ctrl) {
            (self.mark_range(), EffectView::Nothing)
        } else if ch == ' ' {
            (self.toggle_mark(), EffectView::Nothing)
        } else if ch == 'D' {
            self.on_d()
        } else {
            (
                AppView { query: self.query.push(ch), last_key: now, ..self }.on_query_changed(),
                EffectView::Nothing,
            )
        }
    }

    /// A key on the main screen.
    pub open spec fn on_main_key(self, key: KeyPress, now: u64) -> (AppView, EffectView) {
        let nothing = EffectView::Nothing;
        match key.code {
            KeyCode::Esc => (self.on_esc(), nothing),
            KeyCode::Up => (self.move_cursor(-1), nothing),
            KeyCode::Down => (self.move_cursor(1), nothing),
            KeyCode::PageUp => (self.move_cursor(-10), nothing),
            KeyCode::PageDown => (self.move_cursor(10), nothing),
            KeyCode::Left => (
                AppView { detail_scroll: less(self.detail_scroll as int, 5) as u16, ..self },
                nothing,
            ),
            KeyCode::Right => (
                AppView {
                    detail_scroll: min(self.detail_scroll + 5, u16::MAX as int) as u16,
                    ..self
                },
                nothing,
            ),
            KeyCode::Tab => (self.switch_tab(now), nothing),
            KeyCode::BackTab => (self.switch_tab(now), nothing),
            KeyCode::Backspace => (
                AppView {
                    query: if self.query.len() == 0 {
                        self.query
                    } else {
                        self.query.drop_last()
                    },
                    last_key: now,
                    ..self
                }.on_query_changed(),
                nothing,
            ),
            KeyCode::Char(c) => self.on_char(c, key.shift, key.ctrl, now),
            _ => (self, nothing),
        }
    }

    /// A key over the delete choices.
    pub open spec fn on_choice_key(self, cursor: usize, key: KeyPress) -> (AppView, EffectView) {
        let closed = AppView { overlay: OverlayView::Closed, ..self };
        match key.code {
            KeyCode::Esc => (closed, EffectView::Nothing),
            KeyCode::Up | KeyCode::Down => (
                AppView {
                    overlay: OverlayView::DeleteChoice { cursor: (1 - cursor) as usize },
                    ..self
                },
                EffectView::Nothing,
            ),
            KeyCode::Enter => {
                let targets = self.targets();
                if targets.len() == 0 {
                    (closed, EffectView::Nothing)
                } else if cursor == 1 {
                    (
                        AppView {
                            overlay: OverlayView::Busy(
                                text::joined(targets, ", "@) + ": working out the plan…"@,
                            ),
                            ..self
                        },
                        EffectView::Plan { key: text::joined(targets, ","@), targets },
                    )
                } else {
                    (closed, EffectView::Remove(targets))
                }
            },
            _ => (self, EffectView::Nothing),
        }
    }

    /// A key over the confirmation of a mega delete.
    pub open spec fn on_confirm_key(
        self,
        plan: MegaPlanView,
        scroll: u16,
        button: usize,
        content_lines: u16,
        view_lines: u16,
        key: KeyPress,
    ) -> (AppView, EffectView) {
        let closed = AppView { overlay: OverlayView::Closed, ..self };
        let page = max(view_lines as int, 1);
        let max_scroll = less(content_lines as int, view_lines as int);
        let scrolled = |to: int|
            AppView {
                overlay: OverlayView::MegaConfirm {
                    plan,
                    scroll: to as u16,
                    button,
                    content_lines,
                    view_lines,
                },
                ..self
            };
        match key.code {
            KeyCode::Esc => (closed, EffectView::Nothing),
            KeyCode::Up => (scrolled(less(scroll as int, 1)), EffectView::Nothing),
            KeyCode::Down => (scrolled(min(scroll + 1, max_scroll)), EffectView::Nothing),
            KeyCode::PageUp => (scrolled(less(scroll as int, page)), EffectView::Nothing),
            KeyCode::PageDown => (scrolled(min(scroll + page, max_scroll)), EffectView::Nothing),
            KeyCode::Home => (scrolled(0), EffectView::Nothing),
            KeyCode::End => (scrolled(max_scroll), EffectView::Nothing),
            KeyCode::Left | KeyCode::Right | KeyCode::Tab => (
                AppView {
                    overlay: OverlayView::MegaConfirm {
                        plan,
                        scroll,
                        button: (1 - button) as usize,
                        content_lines,
                        view_lines,
                    },
                    ..self
                },
                EffectView::Nothing,
            ),
            KeyCode::Enter => if button == 1 && plan.error is None {
                (closed, EffectView::RemoveMega(plan))
            } else {
                (closed, EffectView::Nothing)
            },
            _ => (self, EffectView::Nothing),
        }
    }

    /// A key over the list of what was installed.
    pub open spec fn on_installed_key(
        self,
        names: Seq<Seq<char>>,
        files: Seq<Seq<char>>,
        scroll: u16,
        key: KeyPress,
    ) -> AppView {
        let scrolled = |to: int|
            AppView {
                overlay: OverlayView::Installed { names, files, scroll: to as u16 },
                ..self
            };
        match key.code {
            KeyCode::Esc | KeyCode::Enter => AppView { overlay: OverlayView::Closed, ..self },
            KeyCode::Up => scrolled(less(scroll as int, 1)),
            KeyCode::Down => scrolled(min(scroll + 1, u16::MAX as int)),
            KeyCode::PageUp => scrolled(less(scroll as int, 15)),
            KeyCode::PageDown => scrolled(min(scroll + 15, u16::MAX as int)),
            _ => self,
        }
    }

    /// A key over whatever lies over the main screen.
    pub open spec fn on_overlay_key(self, key: KeyPress) -> (AppView, EffectView) {
        match self.overlay {
            OverlayView::DeleteChoice { cursor } => self.on_choice_key(cursor, key),
            OverlayView::MegaConfirm { plan, scroll, button, content_lines, view_lines } =>
                self.on_confirm_key(plan, scroll, button, content_lines, view_lines, key),
            OverlayView::Installed { names, files, scroll } => (
                self.on_installed_key(names, files, scroll, key),
                EffectView::Nothing,
            ),
            OverlayView::Busy(_) => (
                if key.code == KeyCode::Esc {
                    AppView { overlay: OverlayView::Closed, ..self }
                } else {
                    self
                },
                EffectView::Nothing,
            ),
            OverlayView::Closed => (self, EffectView::Nothing),
        }
    }

    /// What a key does to the state, and what it asks the world for.
    pub open spec fn on_key(self, key: KeyPress, now: u64) -> (AppView, EffectView) {
        if key.ctrl && key.code == KeyCode::Char('c') {
            (AppView { quit: true, ..self }, EffectView::Nothing)
        } else if self.overlay != OverlayView::Closed {
            self.on_overlay_key(key)
        } else {
            self.on_main_key(key, now)
        }
    }

    /// Whether a key can be acted on. A range cannot be marked from a row
    /// that is no longer there, and the confirmation cannot be scrolled past
    /// the last line that can be counted.
    pub open spec fn accepts(self, key: KeyPress) -> bool {
        match self.overlay {
            OverlayView::Closed => key.code == KeyCode::Char(' ') && (key.shift || key.ctrl)
                ==> self.has_range(),
            OverlayView::MegaConfirm { scroll, view_lines, .. } => {
                &&& key.code == KeyCode::Down ==> scroll + 1 <= u16::MAX
                &&& key.code == KeyCode::PageDown ==> scroll + max(view_lines as int, 1) <= u16::MAX
            },
            _ => true,
        }
    }
}

// ---------------------------------------------------------------------------
// Laws
// ---------------------------------------------------------------------------

/// A changed query leads to a state that holds what `ok` says.
proof fn lemma_query_changed(app: AppView)
    requires
        app.installed_names == names_of(app.installed),
        app.overlay == OverlayView::Closed,
    ensures
        app.on_query_changed().ok(),
{
}

/// A changed query is the query from then on, and its time stays.
proof fn lemma_query_stays(app: AppView)
    ensures
        app.on_query_changed().query == app.query,
        app.on_query_changed().last_key == app.last_key,
{
}

/// A character leads to a state that holds what `ok` says.
proof fn lemma_char_keeps_ok(app: AppView, c: char, shift: bool, ctrl: bool, now: u64)
    requires
        app.ok(),
        app.overlay == OverlayView::Closed,
        c == ' ' && (shift || ctrl) ==> app.has_range(),
    ensures
        app.on_char(c, shift, ctrl, now).0.ok(),
{
    let ch = if shift {
        text::ascii_upper(c)
    } else {
        c
    };
    match (app.state.selected, app.anchor) {
        (Some(index), Some(anchor)) => {
            let lo = min(anchor as int, index as int);
            let hi = max(anchor as int, index as int);
            vstd::seq_lib::seq_to_set_is_finite(row_names(app.list(), lo, hi));
        },
        _ => {},
    }
    lemma_query_changed(AppView { query: app.query.push(ch), last_key: now, ..app });
}

/// A key on the main screen leads to a state that holds what `ok` says.
proof fn lemma_main_key_keeps_ok(app: AppView, key: KeyPress, now: u64)
    requires
        app.ok(),
        app.overlay == OverlayView::Closed,
        app.accepts(key),
    ensures
        app.on_main_key(key, now).0.ok(),
{
    match key.code {
        KeyCode::Esc => {
            lemma_query_changed(
                AppView {
                    query: seq![],
                    results: seq![],
                    filtered: seq![],
                    last_searched: seq![],
                    ..app
                },
            );
        },
        KeyCode::Backspace => {
            lemma_query_changed(
                AppView {
                    query: if app.query.len() == 0 {
                        app.query
                    } else {
                        app.query.drop_last()
                    },
                    last_key: now,
                    ..app
                },
            );
        },
        KeyCode::Char(c) => {
            lemma_char_keeps_ok(app, c, key.shift, key.ctrl, now);
        },
        _ => {},
    }
}

/// Every key that can be acted on leads from a state that holds what `ok`
/// says to another such state.
pub proof fn law_keys_keep_the_invariant(app: AppView, key: KeyPress, now: u64)
    requires
        app.ok(),
        app.accepts(key),
    ensures
        app.on_key(key, now).0.ok(),
{
    if app.overlay == OverlayView::Closed {
        lemma_main_key_keeps_ok(app, key, now);
    }
}

/// Every reply, and everything that is asked for in the background, leads to
/// a state that holds what `ok` says.
pub proof fn law_replies_keep_the_invariant(
    app: AppView,
    msg: MsgView,
    installed: Seq<PkgView>,
    landed: Seq<(Seq<char>, Seq<char>)>,
    content: u16,
    view: u16,
)
    requires
        app.ok(),
        installed.len() <= usize::MAX,
    ensures
        app.handle_msg(msg).ok(),
        app.searching().ok(),
        app.load_details().0.ok(),
        app.after_change(installed).ok(),
        app.show_installed(landed).ok(),
        app.measured(content, view).ok(),
{
    lemma_fitting_len(installed, text::lowercase(app.query));
}

/// No more packages fit a query than there are.
proof fn lemma_fitting_len(pkgs: Seq<PkgView>, query: Seq<char>)
    ensures
        fitting(pkgs, query).len() <= pkgs.len(),
    decreases pkgs.len(),
{
    if pkgs.len() > 0 {
        lemma_fitting_len(pkgs.drop_last(), query);
    }
}

/// The query survives a tab switch, and a second switch leads back to the
/// tab it started from, with the same query.
pub proof fn law_query_survives_a_tab_switch(app: AppView, now: u64, later: u64)
    ensures
        app.switch_tab(now).query == app.query,
        app.switch_tab(now).tab == app.tab.opposite(),
        app.switch_tab(now).tab != app.tab,
        app.switch_tab(now).switch_tab(later).tab == app.tab,
        app.switch_tab(now).switch_tab(later).query == app.query,
{
}

/// On the Downloaded tab the list shows every installed package while the
/// query is empty. Otherwise it shows those whose name or description
/// contains the query, whatever the case, and no others.
pub proof fn law_downloaded_list_is_filtered(app: AppView)
    requires
        app.ok(),
        app.tab == Tab::Downloaded,
    ensures
        app.query.len() == 0 ==> app.list() == app.installed,
        app.query.len() > 0 ==> forall|p: PkgView| #[trigger]
            app.list().contains(p) <==> app.installed.contains(p) && (text::includes(
                text::lowercase(p.name),
                text::lowercase(app.query),
            ) || text::includes(text::lowercase(p.description), text::lowercase(app.query))),
{
    if app.query.len() > 0 {
        lemma_fitting(app.installed, text::lowercase(app.query));
    }
}

/// The packages that fit are those among all that do.
proof fn lemma_fitting(pkgs: Seq<PkgView>, query: Seq<char>)
    ensures
        forall|p: PkgView| #[trigger]
            fitting(pkgs, query).contains(p) <==> pkgs.contains(p) && fits(p, query),
    decreases pkgs.len(),
{
    let all = fitting(pkgs, query);
    if pkgs.len() > 0 {
        let head = pkgs.drop_last();
        let rest = fitting(head, query);
        lemma_fitting(head, query);
        assert forall|p: PkgView| #[trigger] all.contains(p) <==> pkgs.contains(p) && fits(
            p,
            query,
        ) by {
            if all.contains(p) {
                let i = choose|i: int| 0 <= i < all.len() && all[i] == p;
                if i < rest.len() {
                    assert(rest[i] == p);
                    assert(rest.contains(p));
                    let k = choose|k: int| 0 <= k < head.len() && head[k] == p;
                    assert(pkgs[k] == p);
                } else {
                    assert(pkgs[pkgs.len() - 1] == p);
                }
            }
            if pkgs.contains(p) && fits(p, query) {
                let k = choose|k: int| 0 <= k < pkgs.len() && pkgs[k] == p;
                if k < head.len() {
                    assert(head[k] == p);
                    assert(rest.contains(p));
                    let i = choose|i: int| 0 <= i < rest.len() && rest[i] == p;
                    assert(all[i] == p);
                } else {
                    assert(all[all.len() - 1] == p);
                }
            }
        }
    }
}

/// A package counts as installed under its own name and under every virtual
/// name that it provides; no other name does.
pub proof fn law_virtual_names_count_as_installed(pkgs: Seq<PkgView>, name: Seq<char>)
    ensures
        names_of(pkgs).contains(name) <==> exists|i: int|
            0 <= i < pkgs.len() && ((#[trigger] pkgs[i]).name == name || ops::bare_names(
                pkgs[i].provides,
            ).contains(name)),
    decreases pkgs.len(),
{
    if pkgs.len() > 0 {
        let head = pkgs.drop_last();
        law_virtual_names_count_as_installed(head, name);
        if names_of(head).contains(name) {
            let i = choose|i: int|
                0 <= i < head.len() && ((#[trigger] head[i]).name == name || ops::bare_names(
                    head[i].provides,
                ).contains(name));
            assert(pkgs[i] == head[i]);
        }
        if names_of_one(pkgs.last()).contains(name) {
            assert(pkgs[pkgs.len() - 1] == pkgs.last());
        }
        if exists|i: int|
            0 <= i < pkgs.len() && ((#[trigger] pkgs[i]).name == name || ops::bare_names(
                pkgs[i].provides,
            ).contains(name)) {
            let i = choose|i: int|
                0 <= i < pkgs.len() && ((#[trigger] pkgs[i]).name == name || ops::bare_names(
                    pkgs[i].provides,
                ).contains(name));
            if i < head.len() {
                assert(head[i] == pkgs[i]);
            }
        }
    }
}

/// A key acts on the marked packages, in ascending order, or on the one under
/// the cursor when nothing is marked.
pub proof fn law_targets(app: AppView)
    requires
        app.ok(),
    ensures
        app.marked.len() > 0 ==> app.targets().to_set() == app.marked && names::ascending(
            app.targets(),
        ),
        app.marked.len() == 0 ==> app.targets() == match app.current() {
            Some(p) => seq![p.name],
            None => seq![],
        },
{
    if app.marked.len() > 0 {
        assert(app.marked != Set::<Seq<char>>::empty());
        names::lemma_in_order_of(app.marked);
    } else {
        assert(app.marked =~= Set::empty());
    }
}

/// Marking a row twice leaves the marks as they were.
pub proof fn law_marking_twice_unmarks(app: AppView)
    ensures
        app.toggle_mark().toggle_mark().marked == app.marked,
{
    match app.current() {
        Some(p) => {
            assert(app.toggle_mark().current() == app.current());
            assert(app.marked.insert(p.name).remove(p.name) =~= app.marked.remove(p.name));
            if app.marked.contains(p.name) {
                assert(app.marked.remove(p.name).insert(p.name) =~= app.marked);
            } else {
                assert(app.marked.remove(p.name) =~= app.marked);
            }
        },
        None => {},
    }
}

/// A range marks every row between the last mark and the cursor, keeps the
/// marks that were there, and marks nothing else.
pub proof fn law_range_marks_what_lies_between(app: AppView, name: Seq<char>)
    requires
        app.has_range(),
        app.state.selected is Some,
        app.anchor is Some,
    ensures
        app.mark_range().marked.contains(name) <==> app.marked.contains(name) || exists|i: int|
            min(app.anchor->0 as int, app.state.selected->0 as int) <= i <= max(
                app.anchor->0 as int,
                app.state.selected->0 as int,
            ) && (#[trigger] app.list()[i]).name == name,
{
    let lo = min(app.anchor->0 as int, app.state.selected->0 as int);
    let hi = max(app.anchor->0 as int, app.state.selected->0 as int);
    let rows = row_names(app.list(), lo, hi);
    if rows.contains(name) {
        let k = choose|k: int| 0 <= k < rows.len() && rows[k] == name;
        assert(app.list()[lo + k].name == name);
    }
    if exists|i: int| lo <= i <= hi && (#[trigger] app.list()[i]).name == name {
        let i = choose|i: int| lo <= i <= hi && (#[trigger] app.list()[i]).name == name;
        assert(rows[i - lo] == name);
    }
}

/// A range marks the same rows whichever end the cursor is on.
pub proof fn law_range_has_no_direction(app: AppView, a: usize, b: usize)
    ensures
        (AppView { anchor: Some(a), ..app }).select(Some(b)).mark_range().marked == (AppView {
            anchor: Some(b),
            ..app
        }).select(Some(a)).mark_range().marked,
{
}

/// The first press of Shift+Space marks the row under the cursor.
pub proof fn law_first_range_is_a_mark(app: AppView)
    requires
        app.ok(),
        app.anchor is None,
    ensures
        app.mark_range() == app.toggle_mark(),
        app.current() matches Some(p) ==> (app.mark_range().marked.contains(p.name)
            != app.marked.contains(p.name)),
{
}

/// Ctrl+C quits from anywhere, and does nothing else.
pub proof fn law_ctrl_c_quits(app: AppView, shift: bool, now: u64)
    ensures
        app.on_key(KeyPress { code: KeyCode::Char('c'), shift, ctrl: true }, now) == (
            AppView { quit: true, ..app },
            EffectView::Nothing,
        ),
{
}

/// Nothing but Ctrl+C, and Esc over an empty query on the main screen, quits.
pub proof fn law_what_quits(app: AppView, key: KeyPress, now: u64)
    requires
        !app.quit,
        app.on_key(key, now).0.quit,
    ensures
        (key.ctrl && key.code == KeyCode::Char('c')) || (key.code == KeyCode::Esc && app.overlay
            == OverlayView::Closed && app.query.len() == 0),
{
}

/// Esc on the main screen clears the query and shows the installed packages,
/// or an empty remote list; a second Esc quits.
pub proof fn law_esc_clears_and_then_quits(app: AppView, key: KeyPress, now: u64, later: u64)
    requires
        app.overlay == OverlayView::Closed,
        app.query.len() > 0,
        !app.quit,
        key.code == KeyCode::Esc,
    ensures
        ({
            let once = app.on_key(key, now).0;
            &&& !once.quit
            &&& once.query.len() == 0
            &&& once.list() == (if app.tab == Tab::Downloaded {
                app.installed
            } else {
                seq![]
            })
            &&& once.on_key(key, later).0.quit
        }),
{
}

/// Esc closes whatever lies over the main screen, asks for nothing and does
/// not quit.
pub proof fn law_esc_backs_out(app: AppView, key: KeyPress, now: u64)
    requires
        app.overlay != OverlayView::Closed,
        key.code == KeyCode::Esc,
    ensures
        app.on_key(key, now) == (
            AppView { overlay: OverlayView::Closed, ..app },
            EffectView::Nothing,
        ),
{
}

/// Shift with a letter is the capital letter: Shift+d acts as D does.
pub proof fn law_shifted_letters_agree(app: AppView, c: char, ctrl: bool, now: u64)
    requires
        c != ' ',
    ensures
        app.on_char(c, true, ctrl, now) == app.on_char(text::ascii_upper(c), false, ctrl, now),
{
}

/// Ctrl+Space does what Shift+Space does.
pub proof fn law_ctrl_space_is_shift_space(app: AppView, now: u64)
    ensures
        app.on_key(KeyPress { code: KeyCode::Char(' '), shift: false, ctrl: true }, now)
            == app.on_key(KeyPress { code: KeyCode::Char(' '), shift: true, ctrl: false }, now),
{
}

/// A query never holds a space or a D: a space marks, and D acts.
pub proof fn law_no_space_is_typed(app: AppView, key: KeyPress, now: u64)
    requires
        !app.query.contains(' '),
        !app.query.contains('D'),
    ensures
        !app.on_key(key, now).0.query.contains(' '),
        !app.on_key(key, now).0.query.contains('D'),
{
    if app.overlay == OverlayView::Closed {
        match key.code {
            KeyCode::Char(c) => {
                let ch = if key.shift {
                    text::ascii_upper(c)
                } else {
                    c
                };
                let typed = app.query.push(ch);
                lemma_query_stays(AppView { query: typed, last_key: now, ..app });
                if ch != ' ' && ch != 'D' {
                    assert forall|i: int| 0 <= i < typed.len() implies typed[i] != ' ' && typed[i]
                        != 'D' by {
                        if i < app.query.len() {
                            assert(app.query.contains(app.query[i]));
                        }
                    }
                }
            },
            KeyCode::Backspace => {
                if app.query.len() > 0 {
                    let shorter = app.query.drop_last();
                    lemma_query_stays(AppView { query: shorter, last_key: now, ..app });
                    assert forall|i: int| 0 <= i < shorter.len() implies shorter[i] != ' '
                        && shorter[i] != 'D' by {
                        assert(app.query.contains(app.query[i]));
                    }
                }
            },
            _ => {},
        }
    }
}

/// A late reply to a search, for a query or a tab that moved on, is dropped.
pub proof fn law_late_results_are_dropped(app: AppView, query: Seq<char>, results: Seq<PkgView>)
    ensures
        query != app.query || app.tab != Tab::Remote ==> app.handle_msg(
            MsgView::Search(query, results),
        ) == app,
        query == app.query && app.tab == Tab::Remote ==> app.handle_msg(
            MsgView::Search(query, results),
        ).list() == results,
{
}

/// Details and files of a package that is not under the cursor are dropped.
pub proof fn law_late_details_are_dropped(
    app: AppView,
    name: Seq<char>,
    pkg: PkgView,
    files: Seq<Seq<char>>,
)
    requires
        !app.is_current(name),
    ensures
        app.handle_msg(MsgView::Details(name, pkg)) == app,
        app.handle_msg(MsgView::Files(name, files)) == app,
{
}

/// A query is searched for once: when its search has begun, it is not due
/// again, at whatever time, until the query changes.
pub proof fn law_a_query_is_searched_once(app: AppView, later: u64)
    ensures
        !app.searching().search_is_due(later),
        app.searching().query == app.query,
{
}

/// A search waits until the query settled: whatever key changed the query,
/// none is due within the delay after it.
pub proof fn law_search_waits(app: AppView, key: KeyPress, typed: u64, now: u64)
    requires
        app.on_key(key, typed).0.query != app.query,
        now < typed + DEBOUNCE,
    ensures
        !app.on_key(key, typed).0.search_is_due(now),
{
    if app.overlay == OverlayView::Closed {
        match key.code {
            KeyCode::Char(c) => {
                let ch = if key.shift {
                    text::ascii_upper(c)
                } else {
                    c
                };
                lemma_query_stays(
                    AppView { query: app.query.push(ch), last_key: typed, ..app },
                );
            },
            KeyCode::Backspace => {
                if app.query.len() > 0 {
                    lemma_query_stays(
                        AppView { query: app.query.drop_last(), last_key: typed, ..app },
                    );
                }
            },
            _ => {},
        }
    }
}

/// Details are asked for once: a second look asks for nothing.
pub proof fn law_details_are_asked_for_once(app: AppView)
    ensures
        app.load_details().0.load_details() == (app.load_details().0, None::<RequestView>),
{
}

/// The cursor moves within the list, and by as many rows as were asked for
/// wherever the list is long enough.
pub proof fn law_cursor_stays_in_the_list(app: AppView, delta: int)
    requires
        app.ok(),
        app.list().len() > 0,
        app.list().len() <= usize::MAX,
        app.state.selected is Some,
    ensures
        app.move_cursor(delta).state.selected matches Some(i) && i < app.list().len() && (0
            <= app.state.selected->0 + delta < app.list().len() ==> i == app.state.selected->0
            + delta),
        app.move_cursor(delta).list() == app.list(),
{
}

/// The confirmation is never scrolled past its end by a key that scrolls
/// down.
pub proof fn law_scrolling_stops_at_the_end(
    app: AppView,
    plan: MegaPlanView,
    scroll: u16,
    button: usize,
    content_lines: u16,
    view_lines: u16,
    key: KeyPress,
    now: u64,
)
    requires
        app.overlay == (OverlayView::MegaConfirm {
            plan,
            scroll,
            button,
            content_lines,
            view_lines,
        }),
        key.code == KeyCode::Down || key.code == KeyCode::PageDown || key.code == KeyCode::End,
    ensures
        app.on_key(key, now).0.overlay matches OverlayView::MegaConfirm { plan: shown, scroll: to, .. }
            && shown == plan && to <= less(content_lines as int, view_lines as int),
{
}

/// The confirmation opens only for a plan that was asked for the packages
/// that are selected now; any other plan is dropped.
pub proof fn law_a_plan_is_for_the_selection(app: AppView, key: Seq<char>, plan: MegaPlanView)
    ensures
        text::joined(app.targets(), ","@) == key ==> (app.handle_msg(
            MsgView::Plan(key, plan),
        ).overlay matches OverlayView::MegaConfirm { plan: shown, button, .. } && shown == plan
            && button == 0),
        text::joined(app.targets(), ","@) != key ==> app.handle_msg(
            MsgView::Plan(key, plan),
        ).overlay == OverlayView::Closed,
{
}

/// A plan that was asked for from the delete choices is shown when it
/// arrives, whatever it is.
pub proof fn law_an_asked_plan_is_shown(app: AppView, enter: KeyPress, now: u64, plan: MegaPlanView)
    requires
        app.overlay == (OverlayView::DeleteChoice { cursor: 1 }),
        enter.code == KeyCode::Enter,
        app.targets().len() > 0,
    ensures
        ({
            let (waiting, effect) = app.on_key(enter, now);
            &&& effect matches EffectView::Plan { key, targets }
            &&& targets == app.targets()
            &&& waiting.handle_msg(MsgView::Plan(key, plan)).overlay
                matches OverlayView::MegaConfirm { plan: shown, .. }
            &&& shown == plan
        }),
{
    let waiting = app.on_key(enter, now).0;
    assert(waiting.targets() == app.targets());
}

/// Nothing is removed without a confirmation. A plan is carried out only when
/// Enter is pressed on Continue while that very plan is on the screen and was
/// not refused. Packages are removed only when Enter is pressed on the normal
/// delete, and only those selected.
pub proof fn law_nothing_is_removed_unconfirmed(app: AppView, key: KeyPress, now: u64)
    requires
        app.ok(),
    ensures
        app.on_key(key, now).1 matches EffectView::RemoveMega(p) ==> key.code == KeyCode::Enter && (
        app.overlay matches OverlayView::MegaConfirm { plan, button, .. } && plan == p && button
            == 1 && p.error is None),
        app.on_key(key, now).1 matches EffectView::Remove(names) ==> key.code == KeyCode::Enter
            && app.overlay == (OverlayView::DeleteChoice { cursor: 0 }) && names == app.targets()
            && names.len() > 0,
{
}

/// Over a plan that pacman refused no key asks for anything.
pub proof fn law_a_refused_plan_does_nothing(app: AppView, key: KeyPress, now: u64)
    requires
        app.overlay matches OverlayView::MegaConfirm { plan, .. } && plan.error is Some,
    ensures
        app.on_key(key, now).1 == EffectView::Nothing,
{
}

/// D installs on the remote tab only, and exactly those selected packages
/// that do not count as installed.
pub proof fn law_only_missing_packages_are_installed(
    app: AppView,
    key: KeyPress,
    now: u64,
    name: Seq<char>,
)
    ensures
        app.on_key(key, now).1 matches EffectView::Install(names) ==> app.tab == Tab::Remote
            && app.overlay == OverlayView::Closed && names.len() > 0 && (names.contains(name) <==> (
        app.targets().contains(name) && !app.installed_names.contains(name))),
{
    lemma_names_outside(app.targets(), app.installed_names, name);
}

/// The names that are not in a set are those of the list that are not.
proof fn lemma_names_outside(list: Seq<Seq<char>>, set: Set<Seq<char>>, name: Seq<char>)
    ensures
        names_outside(list, set).contains(name) <==> list.contains(name) && !set.contains(name),
    decreases list.len(),
{
    if list.len() > 0 {
        let head = list.drop_last();
        let rest = names_outside(head, set);
        let all = names_outside(list, set);
        lemma_names_outside(head, set, name);
        if all.contains(name) {
            let i = choose|i: int| 0 <= i < all.len() && all[i] == name;
            if i < rest.len() {
                assert(rest[i] == name);
                let k = choose|k: int| 0 <= k < head.len() && head[k] == name;
                assert(list[k] == name);
            } else {
                assert(list[list.len() - 1] == name);
            }
        }
        if list.contains(name) && !set.contains(name) {
            let k = choose|k: int| 0 <= k < list.len() && list[k] == name;
            if k < head.len() {
                assert(head[k] == name);
                let i = choose|i: int| 0 <= i < rest.len() && rest[i] == name;
                assert(all[i] == name);
            } else {
                assert(all[all.len() - 1] == name);
            }
        }
    }
}

/// D opens the delete choices on the Downloaded tab only, and removes nothing
/// itself.
pub proof fn law_d_opens_the_choices(app: AppView)
    ensures
        app.on_d().0.overlay != app.overlay ==> app.tab == Tab::Downloaded && app.on_d().0.overlay
            == (OverlayView::DeleteChoice { cursor: 0 }),
        app.tab == Tab::Downloaded ==> app.on_d().1 == EffectView::Nothing,
        app.tab == Tab::Downloaded && app.targets().len() > 0 ==> app.on_d().0.overlay == (
        OverlayView::DeleteChoice { cursor: 0 }),
{
}

/// After an install the files of everything that landed are listed, each
/// package under a heading of its own.
pub proof fn law_everything_that_landed_is_listed(landed: Seq<(Seq<char>, Seq<char>)>, i: int)
    requires
        0 <= i < landed.len(),
    ensures
        landed_files(landed).contains("── "@ + landed[i].0),
        forall|path: Seq<char>| #[trigger]
            pacman::paths_in(text::lines_of(landed[i].1)).contains(path) ==> landed_files(
                landed,
            ).contains(path),
    decreases landed.len(),
{
    let head = landed.drop_last();
    let before = landed_files(head);
    let title = seq!["── "@ + landed.last().0];
    let paths = pacman::paths_in(text::lines_of(landed.last().1));
    let all = landed_files(landed);
    assert(all == before + title + paths);
    if i < head.len() {
        law_everything_that_landed_is_listed(head, i);
        assert(head[i] == landed[i]);
        assert forall|x: Seq<char>| before.contains(x) implies all.contains(x) by {
            let k = choose|k: int| 0 <= k < before.len() && before[k] == x;
            assert(all[k] == x);
        }
        assert(all.contains("── "@ + landed[i].0));
        assert forall|path: Seq<char>| #[trigger]
            pacman::paths_in(text::lines_of(landed[i].1)).contains(path) implies all.contains(
            path,
        ) by {
            assert(before.contains(path));
        }
    } else {
        assert(all[before.len() as int] == title[0]);
        assert forall|path: Seq<char>| #[trigger] paths.contains(path) implies all.contains(
            path,
        ) by {
            let k = choose|k: int| 0 <= k < paths.len() && paths[k] == path;
            assert(all[before.len() + 1 + k] == path);
        }
    }
}

} // verus!
