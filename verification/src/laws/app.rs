//! What the state machine promises: what every key, every reply and every
//! change of the world leaves behind.

use vstd::prelude::*;

use crate::app::KeyCode;
use crate::app::KeyPress;
use crate::app::ListState;
use crate::app::Tab;
use crate::laws::pacman as pacman_laws;
use crate::laws::text as text_laws;
use crate::model;
use crate::model::AppView;
use crate::model::EffectView;
use crate::model::MsgView;
use crate::model::OverlayView;
use crate::model::RequestView;
use crate::names;
use crate::ops;
use crate::ops::MegaPlanView;
use crate::order;
use crate::pacman;
use crate::pacman::PkgView;
use crate::text;

verus! {

// ---------------------------------------------------------------------------
// Lists
// ---------------------------------------------------------------------------

/// Whether a package has a query in its name or in its description, in
/// whatever case.
pub open spec fn mentions(pkg: PkgView, query: Seq<char>) -> bool {
    ||| text::includes(text::lowercase(pkg.name), text::lowercase(query))
    ||| text::includes(text::lowercase(pkg.description), text::lowercase(query))
}

/// Filtering keeps a package that mentions the query where it stands, and
/// drops any other.
pub proof fn law_filtering(pkgs: Seq<PkgView>, pkg: PkgView, query: Seq<char>)
    ensures
        model::fitting(seq![], text::lowercase(query)).len() == 0,
        mentions(pkg, query) ==> model::fitting(pkgs.push(pkg), text::lowercase(query))
            == model::fitting(pkgs, text::lowercase(query)).push(pkg),
        !mentions(pkg, query) ==> model::fitting(pkgs.push(pkg), text::lowercase(query))
            == model::fitting(pkgs, text::lowercase(query)),
{
    assert(pkgs.push(pkg).drop_last() =~= pkgs);
}

/// What is on the list: on the Downloaded tab the installed packages, or with
/// a query those of them that mention it; on the other tab what was found.
pub proof fn law_list(app: AppView, pkg: PkgView)
    requires
        app.ok(),
    ensures
        app.tab == Tab::Remote ==> app.list() == app.results,
        app.tab == Tab::Downloaded && app.query.len() == 0 ==> app.list() == app.installed,
        app.tab == Tab::Downloaded && app.query.len() > 0 ==> (app.list().contains(pkg) <==> (
        app.installed.contains(pkg) && mentions(pkg, app.query))),
        app.list().len() > app.installed.len() ==> app.tab == Tab::Remote,
{
    if app.tab == Tab::Downloaded {
        model::law_downloaded_list_is_filtered(app);
        lemma_fewer(app.installed, text::lowercase(app.query));
    }
}

proof fn lemma_fewer(pkgs: Seq<PkgView>, query: Seq<char>)
    ensures
        model::fitting(pkgs, query).len() <= pkgs.len(),
    decreases pkgs.len(),
{
    if pkgs.len() > 0 {
        lemma_fewer(pkgs.drop_last(), query);
    }
}

/// The package under the cursor is the one on its row.
pub proof fn law_current(app: AppView, row: usize)
    ensures
        app.state.selected is None ==> app.current() is None,
        app.state.selected == Some(row) && row < app.list().len() ==> app.current() == Some(
            app.list()[row as int],
        ),
        app.state.selected == Some(row) && row >= app.list().len() ==> app.current() is None,
{
}

/// A package counts as installed under its own name and under the bare name
/// of everything that it provides, whatever version it gives.
pub proof fn law_provided_names_count(
    pkgs: Seq<PkgView>,
    i: int,
    k: int,
    name: Seq<char>,
    version: Seq<char>,
)
    requires
        0 <= i < pkgs.len(),
        text_laws::is_trim(name),
        pacman_laws::is_bare(name),
        version.len() > 0 ==> pacman_laws::is_relation(version[0]),
    ensures
        pkgs[i].name == name ==> model::names_of(pkgs).contains(name),
        0 <= k < pkgs[i].provides.len() && pkgs[i].provides[k] == name + version
            ==> model::names_of(pkgs).contains(name),
{
    model::law_virtual_names_count_as_installed(pkgs, name);
    if 0 <= k < pkgs[i].provides.len() && pkgs[i].provides[k] == name + version {
        pacman_laws::law_dep_name(seq![], name, seq![], version);
        assert(Seq::<char>::empty() + name + Seq::<char>::empty() + version =~= name + version);
        let bare = ops::bare_names(pkgs[i].provides);
        assert(bare[k] == name);
        assert(bare.contains(name));
    }
}

/// No other name counts as installed.
pub proof fn law_only_provided_names_count(pkgs: Seq<PkgView>, name: Seq<char>)
    requires
        model::names_of(pkgs).contains(name),
    ensures
        exists|i: int|
            0 <= i < pkgs.len() && ((#[trigger] pkgs[i]).name == name || exists|k: int|
                0 <= k < pkgs[i].provides.len() && pacman::dep_name_of(
                    #[trigger] pkgs[i].provides[k],
                ) == name),
{
    model::law_virtual_names_count_as_installed(pkgs, name);
    let i = choose|i: int|
        0 <= i < pkgs.len() && ((#[trigger] pkgs[i]).name == name || ops::bare_names(
            pkgs[i].provides,
        ).contains(name));
    if pkgs[i].name != name {
        let bare = ops::bare_names(pkgs[i].provides);
        let k = choose|k: int| 0 <= k < bare.len() && bare[k] == name;
        assert(pacman::dep_name_of(pkgs[i].provides[k]) == name);
    }
}

/// What landed is what was asked for and counts as installed, in order.
pub proof fn law_landed_names(list: Seq<Seq<char>>, name: Seq<char>, set: Set<Seq<char>>)
    ensures
        model::names_inside(seq![], set).len() == 0,
        set.contains(name) ==> model::names_inside(list.push(name), set) == model::names_inside(
            list,
            set,
        ).push(name),
        !set.contains(name) ==> model::names_inside(list.push(name), set) == model::names_inside(
            list,
            set,
        ),
        model::names_outside(seq![], set).len() == 0,
        set.contains(name) ==> model::names_outside(list.push(name), set) == model::names_outside(
            list,
            set,
        ),
        !set.contains(name) ==> model::names_outside(list.push(name), set) == model::names_outside(
            list,
            set,
        ).push(name),
{
    assert(list.push(name).drop_last() =~= list);
}

/// What landed is listed package by package: a heading, and then its files.
pub proof fn law_landed_files(
    landed: Seq<(Seq<char>, Seq<char>)>,
    name: Seq<char>,
    listing: Seq<char>,
)
    ensures
        model::landed_files(seq![]).len() == 0,
        model::landed_files(landed.push((name, listing))) == model::landed_files(landed).push(
            "── "@ + name,
        ) + pacman::paths_in(text::lines_of(listing)),
{
    let all = landed.push((name, listing));
    assert(all.drop_last() =~= landed);
    assert(model::landed_files(all) =~= model::landed_files(landed).push("── "@ + name)
        + pacman::paths_in(text::lines_of(listing)));
}

/// The first package of a name is one of that name, and none before it is.
pub proof fn law_first_named(pkgs: Seq<PkgView>, name: Seq<char>)
    ensures
        model::first_named(pkgs, name) is None <==> forall|i: int|
            0 <= i < pkgs.len() ==> (#[trigger] pkgs[i]).name != name,
        model::first_named(pkgs, name) matches Some(p) ==> exists|i: int|
            0 <= i < pkgs.len() && #[trigger] pkgs[i] == p && p.name == name && forall|j: int|
                0 <= j < i ==> (#[trigger] pkgs[j]).name != name,
    decreases pkgs.len(),
{
    if pkgs.len() > 0 {
        if pkgs[0].name != name {
            let tail = pkgs.drop_first();
            law_first_named(tail, name);
            match model::first_named(tail, name) {
                Some(p) => {
                    let i = choose|i: int|
                        0 <= i < tail.len() && #[trigger] tail[i] == p && p.name == name && forall|
                            j: int,
                        |
                            0 <= j < i ==> (#[trigger] tail[j]).name != name;
                    assert(pkgs[i + 1] == p);
                    assert forall|j: int| 0 <= j < i + 1 implies (#[trigger] pkgs[j]).name
                        != name by {
                        if j > 0 {
                            assert(tail[j - 1] == pkgs[j]);
                        }
                    }
                },
                None => {
                    assert forall|j: int| 0 <= j < pkgs.len() implies (#[trigger] pkgs[j]).name
                        != name by {
                        if j > 0 {
                            assert(tail[j - 1] == pkgs[j]);
                        }
                    }
                },
            }
        } else {
            assert(pkgs[0].name == name);
        }
    }
}

/// The application starts on the installed packages, with the cursor on the
/// first, no query, no mark and nothing open.
pub proof fn law_start(installed: Seq<PkgView>, now: u64)
    ensures
        ({
            let app = AppView::initial(installed, now);
            &&& app.installed == installed
            &&& app.list() == installed
            &&& app.tab == Tab::Downloaded
            &&& app.query.len() == 0
            &&& app.results.len() == 0
            &&& app.status == text::decimal_of(installed.len()) + " packages installed"@
            &&& app.state.offset == 0
            &&& installed.len() > 0 ==> app.state.selected == Some(0usize)
            &&& installed.len() == 0 ==> app.state.selected is None
            &&& app.marked == Set::<Seq<char>>::empty()
            &&& app.anchor is None
            &&& app.details is None
            &&& app.files.len() == 0
            &&& app.detail_scroll == 0
            &&& app.overlay == OverlayView::Closed
            &&& app.last_key == now
            &&& app.last_theme_check == now
            &&& app.last_searched.len() == 0
            &&& app.detail_requested.len() == 0
            &&& !app.search_pending
            &&& !app.quit
        }),
{
}

// ---------------------------------------------------------------------------
// Keys on the main screen
// ---------------------------------------------------------------------------

/// Whether the list is shown from its first row, with nothing marked and
/// nothing known of any package.
pub open spec fn is_fresh(app: AppView) -> bool {
    &&& app.state.selected == (if app.list().len() == 0 {
        None
    } else {
        Some(0usize)
    })
    &&& app.marked == Set::<Seq<char>>::empty()
    &&& app.anchor is None
    &&& app.details is None
    &&& app.files.len() == 0
    &&& app.detail_requested.len() == 0
    &&& app.detail_scroll == 0
}

/// Whether two states have the same packages and the same overlay, search
/// under way and will to go on.
pub open spec fn is_beside(a: AppView, b: AppView) -> bool {
    &&& a.installed == b.installed
    &&& a.installed_names == b.installed_names
    &&& a.overlay == b.overlay
    &&& a.search_pending == b.search_pending
    &&& a.last_theme_check == b.last_theme_check
    &&& a.quit == b.quit
}

/// What is typed is appended to the query; with Shift it is the capital
/// letter. The list is shown afresh, and the search waits from then on.
pub proof fn law_typing(app: AppView, key: KeyPress, c: char, now: u64)
    requires
        app.overlay == OverlayView::Closed,
        key.code == KeyCode::Char(c),
        !(key.ctrl && c == 'c'),
        c != ' ',
        c != 'D',
        !(key.shift && c == 'd'),
    ensures
        ({
            let (next, effect) = app.on_key(key, now);
            let typed = if key.shift {
                text::ascii_upper(c)
            } else {
                c
            };
            &&& effect == EffectView::Nothing
            &&& next.query == app.query.push(typed)
            &&& next.last_key == now
            &&& next.tab == app.tab
            &&& next.results == app.results
            &&& next.last_searched == app.last_searched
            &&& is_fresh(next)
            &&& is_beside(next, app)
            &&& next.tab == Tab::Downloaded ==> next.list() == model::fitting(
                app.installed,
                text::lowercase(next.query),
            ) && next.status == text::decimal_of(next.list().len()) + " installed packages match"@
            &&& next.tab == Tab::Remote ==> next.status == app.status
        }),
{
    text_laws::law_upper(c);
    let typed = if key.shift {
        text::ascii_upper(c)
    } else {
        c
    };
    let next = app.on_key(key, now).0;
    assert(typed != ' ' && typed != 'D');
    assert(next == (AppView { query: app.query.push(typed), last_key: now, ..app }).on_query_changed());
    assert(Seq::<char>::empty() + text::decimal_of(next.list().len()) =~= text::decimal_of(
        next.list().len(),
    ));
}

/// Backspace takes the last character of the query away. An emptied query
/// shows every installed package, or empties what was found.
pub proof fn law_backspace(app: AppView, key: KeyPress, now: u64)
    requires
        app.overlay == OverlayView::Closed,
        key.code == KeyCode::Backspace,
    ensures
        ({
            let (next, effect) = app.on_key(key, now);
            &&& effect == EffectView::Nothing
            &&& app.query.len() > 0 ==> next.query.push(app.query.last()) == app.query
            &&& app.query.len() == 0 ==> next.query.len() == 0
            &&& next.last_key == now
            &&& next.tab == app.tab
            &&& is_fresh(next)
            &&& is_beside(next, app)
            &&& next.tab == Tab::Remote && next.query.len() > 0 ==> next.results == app.results
                && next.last_searched == app.last_searched
            &&& next.tab == Tab::Remote && next.query.len() == 0 ==> next.results.len() == 0
                && next.last_searched.len() == 0
            &&& next.tab == Tab::Downloaded && next.query.len() == 0 ==> next.list()
                == app.installed
            &&& next.tab == Tab::Downloaded && next.query.len() > 0 ==> next.list()
                == model::fitting(app.installed, text::lowercase(next.query)) && next.status
                == text::decimal_of(next.list().len()) + " installed packages match"@
        }),
{
    let next = app.on_key(key, now).0;
    if app.query.len() > 0 {
        assert(app.query.drop_last().push(app.query.last()) =~= app.query);
    }
    assert(Seq::<char>::empty() + text::decimal_of(next.list().len()) =~= text::decimal_of(
        next.list().len(),
    ));
}

/// Esc over a query empties it, with what was found, and counts the installed
/// packages again.
pub proof fn law_esc_clears(app: AppView, key: KeyPress, now: u64)
    requires
        app.overlay == OverlayView::Closed,
        key.code == KeyCode::Esc,
        app.query.len() > 0,
    ensures
        ({
            let (next, effect) = app.on_key(key, now);
            &&& effect == EffectView::Nothing
            &&& next.query.len() == 0
            &&& next.results.len() == 0
            &&& next.filtered.len() == 0
            &&& next.last_searched.len() == 0
            &&& next.last_key == app.last_key
            &&& next.tab == app.tab
            &&& next.status == text::decimal_of(app.installed.len()) + " packages installed"@
            &&& is_fresh(next)
            &&& is_beside(next, app)
        }),
{
    assert(Seq::<char>::empty() + text::decimal_of(app.installed.len()) =~= text::decimal_of(
        app.installed.len(),
    ));
}

/// Esc without a query quits, and changes nothing else.
pub proof fn law_esc_quits(app: AppView, key: KeyPress, now: u64)
    requires
        app.overlay == OverlayView::Closed,
        key.code == KeyCode::Esc,
        app.query.len() == 0,
    ensures
        app.on_key(key, now) == (AppView { quit: true, ..app }, EffectView::Nothing),
{
}

/// How far a key moves the cursor.
pub open spec fn step_of(code: KeyCode) -> int {
    match code {
        KeyCode::Up => -1,
        KeyCode::Down => 1,
        KeyCode::PageUp => -10,
        KeyCode::PageDown => 10,
        _ => 0,
    }
}

/// The arrows move the cursor by a row, and the page keys by ten, as far as
/// the list goes; nothing else changes.
pub proof fn law_moving(app: AppView, key: KeyPress, row: usize, now: u64)
    requires
        app.overlay == OverlayView::Closed,
        key.code == KeyCode::Up || key.code == KeyCode::Down || key.code == KeyCode::PageUp
            || key.code == KeyCode::PageDown,
        app.list().len() <= usize::MAX,
        app.state.selected == Some(row) || (row == 0 && app.state.selected is None),
    ensures
        ({
            let (next, effect) = app.on_key(key, now);
            let to = row + step_of(key.code);
            let last = app.list().len() - 1;
            &&& effect == EffectView::Nothing
            &&& last < 0 ==> next == app
            &&& last >= 0 ==> next == (AppView {
                state: ListState { offset: app.state.offset, selected: next.state.selected },
                ..app
            }) && next.state.selected is Some
            &&& last >= 0 && 0 <= to <= last ==> next.state.selected->0 == to
            &&& last >= 0 && to < 0 ==> next.state.selected->0 == 0
            &&& last >= 0 && to > last ==> next.state.selected->0 == last
        }),
{
}

/// The side arrows scroll the details by five lines; nothing else changes.
pub proof fn law_scrolling_details(app: AppView, key: KeyPress, now: u64)
    requires
        app.overlay == OverlayView::Closed,
        key.code == KeyCode::Left || key.code == KeyCode::Right,
    ensures
        ({
            let (next, effect) = app.on_key(key, now);
            &&& effect == EffectView::Nothing
            &&& next == (AppView { detail_scroll: next.detail_scroll, ..app })
            &&& key.code == KeyCode::Left && app.detail_scroll >= 5 ==> next.detail_scroll
                == app.detail_scroll - 5
            &&& key.code == KeyCode::Left && app.detail_scroll < 5 ==> next.detail_scroll == 0
            &&& key.code == KeyCode::Right && app.detail_scroll <= 65530 ==> next.detail_scroll
                == app.detail_scroll + 5
            &&& key.code == KeyCode::Right && app.detail_scroll > 65530 ==> next.detail_scroll
                == 65535
        }),
{
}

/// Tab shows the other list afresh for the same query. On the remote one the
/// search waits from then on.
pub proof fn law_tab(app: AppView, key: KeyPress, now: u64)
    requires
        app.overlay == OverlayView::Closed,
        key.code == KeyCode::Tab || key.code == KeyCode::BackTab,
    ensures
        ({
            let (next, effect) = app.on_key(key, now);
            &&& effect == EffectView::Nothing
            &&& next.tab != app.tab
            &&& next.query == app.query
            &&& next.results == app.results
            &&& next.last_searched == app.last_searched
            &&& is_fresh(next)
            &&& is_beside(next, app)
            &&& next.tab == Tab::Remote ==> next.last_key == now && next.status == app.status
            &&& next.tab == Tab::Downloaded ==> next.last_key == app.last_key
            &&& next.tab == Tab::Downloaded && app.query.len() == 0 ==> next.list()
                == app.installed && next.status == text::decimal_of(app.installed.len())
                + " packages installed"@
            &&& next.tab == Tab::Downloaded && app.query.len() > 0 ==> next.list()
                == model::fitting(app.installed, text::lowercase(app.query)) && next.status
                == text::decimal_of(next.list().len()) + " installed packages match"@
        }),
{
    let next = app.on_key(key, now).0;
    assert(Seq::<char>::empty() + text::decimal_of(next.list().len()) =~= text::decimal_of(
        next.list().len(),
    ));
    assert(Seq::<char>::empty() + text::decimal_of(app.installed.len()) =~= text::decimal_of(
        app.installed.len(),
    ));
}

/// A space marks the package under the cursor, or unmarks it, and no other;
/// a range begins at its row.
pub proof fn law_space_marks(app: AppView, key: KeyPress, now: u64, name: Seq<char>)
    requires
        app.overlay == OverlayView::Closed,
        key.code == KeyCode::Char(' '),
        !key.shift,
        !key.ctrl,
    ensures
        ({
            let (next, effect) = app.on_key(key, now);
            &&& effect == EffectView::Nothing
            &&& app.current() is None ==> next == app
            &&& app.current() matches Some(p) ==> {
                &&& next == (AppView { marked: next.marked, anchor: app.state.selected, ..app })
                &&& next.marked.contains(p.name) != app.marked.contains(p.name)
                &&& name != p.name ==> next.marked.contains(name) == app.marked.contains(name)
            }
        }),
{
}

/// A space with Shift or Ctrl marks a range: all rows from the last mark to
/// the cursor, which counts as the last mark from then on. The status says
/// how many rows these are and how many packages are marked in all.
pub proof fn law_space_marks_a_range(
    app: AppView,
    key: KeyPress,
    now: u64,
    from: usize,
    to: usize,
    name: Seq<char>,
)
    requires
        app.overlay == OverlayView::Closed,
        key.code == KeyCode::Char(' '),
        key.shift || key.ctrl,
        app.anchor == Some(from),
        app.state.selected == Some(to),
        from < app.list().len(),
        to < app.list().len(),
    ensures
        ({
            let (next, effect) = app.on_key(key, now);
            let rows = if from <= to {
                to - from + 1
            } else {
                from - to + 1
            };
            &&& effect == EffectView::Nothing
            &&& next == (AppView {
                marked: next.marked,
                anchor: Some(to),
                status: text::decimal_of(rows as nat) + " marked in range · "@ + text::decimal_of(
                    next.marked.len(),
                ) + " total"@,
                ..app
            })
            &&& next.marked.contains(name) <==> app.marked.contains(name) || exists|i: int|
                (from <= i <= to || to <= i <= from) && (#[trigger] app.list()[i]).name == name
        }),
{
    text_laws::law_upper(' ');
    let next = app.on_key(key, now).0;
    assert(next == app.mark_range());
    model::law_range_marks_what_lies_between(app, name);
    if exists|i: int|
        (from <= i <= to || to <= i <= from) && (#[trigger] app.list()[i]).name == name {
        let i = choose|i: int|
            (from <= i <= to || to <= i <= from) && (#[trigger] app.list()[i]).name == name;
        assert(app.list()[i].name == name);
    }
    let rows = if from <= to {
        to - from + 1
    } else {
        from - to + 1
    };
    let e = Seq::<char>::empty();
    let m = text::decimal_of(next.marked.len());
    assert(e + text::decimal_of(rows as nat) =~= text::decimal_of(rows as nat));
    assert(e + m =~= m);
    let front = text::decimal_of(rows as nat) + " marked in range · "@;
    assert(front + (m + " total"@) =~= front + m + " total"@);
}

/// A space with Shift or Ctrl before any mark is a plain one.
pub proof fn law_first_range_begins(app: AppView, key: KeyPress, plain: KeyPress, now: u64)
    requires
        app.overlay == OverlayView::Closed,
        key.code == KeyCode::Char(' '),
        key.shift || key.ctrl,
        plain.code == KeyCode::Char(' '),
        !plain.shift,
        !plain.ctrl,
        app.anchor is None,
    ensures
        app.on_key(key, now) == app.on_key(plain, now),
{
    text_laws::law_upper(' ');
}

/// Whether a key is D, however it is typed.
pub open spec fn is_d(key: KeyPress) -> bool {
    ||| key.code == KeyCode::Char('D')
    ||| key.code == KeyCode::Char('d') && key.shift
}

/// D on the Downloaded tab opens the delete choices, on the first of them,
/// and removes nothing. Without a target it does nothing.
pub proof fn law_d_on_downloaded(app: AppView, key: KeyPress, now: u64)
    requires
        app.overlay == OverlayView::Closed,
        is_d(key),
        app.tab == Tab::Downloaded,
    ensures
        app.targets().len() > 0 ==> app.on_key(key, now) == (
            AppView { overlay: OverlayView::DeleteChoice { cursor: 0 }, ..app },
            EffectView::Nothing,
        ),
        app.targets().len() == 0 ==> app.on_key(key, now) == (app, EffectView::Nothing),
{
    text_laws::law_upper('d');
    text_laws::law_upper('D');
}

/// D on the remote tab installs every target that does not count as installed
/// yet, and changes nothing. When all of them do, it says so.
pub proof fn law_d_on_remote(app: AppView, key: KeyPress, now: u64, name: Seq<char>)
    requires
        app.overlay == OverlayView::Closed,
        is_d(key),
        app.tab == Tab::Remote,
    ensures
        ({
            let (next, effect) = app.on_key(key, now);
            &&& app.targets().contains(name) && !app.installed_names.contains(name) ==> next == app
                && (effect matches EffectView::Install(wanted) && wanted.contains(name))
            &&& effect matches EffectView::Install(wanted) ==> wanted == model::names_outside(
                app.targets(),
                app.installed_names,
            ) && (wanted.contains(name) ==> app.targets().contains(name)
                && !app.installed_names.contains(name))
            &&& !(effect is Install) ==> effect == EffectView::Nothing
            &&& !(effect is Install) && app.targets().len() > 0 ==> next == (AppView {
                status: "already installed"@,
                ..app
            })
            &&& app.targets().len() == 0 ==> next == app
        }),
{
    text_laws::law_upper('d');
    text_laws::law_upper('D');
    lemma_outside(app.targets(), app.installed_names, name);
}

proof fn lemma_outside(list: Seq<Seq<char>>, set: Set<Seq<char>>, name: Seq<char>)
    ensures
        model::names_outside(list, set).contains(name) <==> list.contains(name) && !set.contains(
            name,
        ),
    decreases list.len(),
{
    if list.len() > 0 {
        let head = list.drop_last();
        let rest = model::names_outside(head, set);
        let all = model::names_outside(list, set);
        lemma_outside(head, set, name);
        if all.contains(name) {
            let i = choose|i: int| 0 <= i < all.len() && all[i] == name;
            if i < rest.len() {
                assert(rest[i] == name);
                let k = choose|k: int| 0 <= k < head.len() && head[k] == name;
                assert(list[k] == name);
            } else {
                assert(list[list.len() - 1] == name);
            }
        }
        if list.contains(name) && !set.contains(name) {
            let k = choose|k: int| 0 <= k < list.len() && list[k] == name;
            if k < head.len() {
                assert(head[k] == name);
                let i = choose|i: int| 0 <= i < rest.len() && rest[i] == name;
                assert(all[i] == name);
            } else {
                assert(all[all.len() - 1] == name);
            }
        }
    }
}

/// The other keys do nothing on the main screen.
pub proof fn law_idle_keys(app: AppView, key: KeyPress, now: u64)
    requires
        app.overlay == OverlayView::Closed,
        key.code == KeyCode::Enter || key.code == KeyCode::Home || key.code == KeyCode::End
            || key.code == KeyCode::Other,
    ensures
        app.on_key(key, now) == (app, EffectView::Nothing),
{
}

// ---------------------------------------------------------------------------
// Targets
// ---------------------------------------------------------------------------

/// A package is a target when it is marked. Without any mark the one under
/// the cursor is.
pub proof fn law_every_mark_is_a_target(app: AppView, name: Seq<char>)
    requires
        app.ok(),
    ensures
        app.marked.contains(name) ==> app.targets().contains(name),
        app.targets().contains(name) ==> app.marked.contains(name) || (app.marked
            == Set::<Seq<char>>::empty() && app.current() is Some && app.current()->0.name == name),
        app.marked == Set::<Seq<char>>::empty() && app.current() is Some ==> app.targets() == seq![
            app.current()->0.name,
        ],
        app.marked == Set::<Seq<char>>::empty() && app.current() is None ==> app.targets().len()
            == 0,
{
    if app.marked != Set::<Seq<char>>::empty() {
        names::lemma_in_order_of(app.marked);
        assert(app.targets().to_set().contains(name) <==> app.marked.contains(name));
    } else {
        match app.current() {
            Some(p) => {
                assert(app.targets()[0] == p.name);
            },
            None => {},
        }
    }
}

/// Targets come in ascending order, each once.
pub proof fn law_targets_are_sorted(app: AppView, i: int, j: int)
    requires
        app.ok(),
        0 <= i < j < app.targets().len(),
    ensures
        order::before(app.targets()[i], app.targets()[j]),
{
    if app.marked != Set::<Seq<char>>::empty() {
        names::lemma_in_order_of(app.marked);
    }
}

/// The delete dialog names up to three targets, and of more the first two and
/// how many there are.
pub proof fn law_delete_label(app: AppView)
    ensures
        ({
            let t = app.targets();
            let label = app.delete_targets_label();
            &&& t.len() == 0 ==> label.len() == 0
            &&& t.len() == 1 ==> label == t[0]
            &&& t.len() == 2 ==> label == t[0] + ", "@ + t[1]
            &&& t.len() == 3 ==> label == t[0] + ", "@ + t[1] + ", "@ + t[2]
            &&& t.len() > 3 ==> label == t[0] + ", "@ + t[1] + " … ("@ + text::decimal_of(t.len())
                + " packages)"@
        }),
{
    let t = app.targets();
    if t.len() == 2 {
        text_laws::law_joining(seq![], t[0], ", "@);
        text_laws::law_joining(seq![t[0]], t[1], ", "@);
        assert(seq![t[0]].push(t[1]) =~= t);
    } else if t.len() == 3 {
        text_laws::law_joining(seq![], t[0], ", "@);
        text_laws::law_joining(seq![t[0]], t[1], ", "@);
        text_laws::law_joining(seq![t[0], t[1]], t[2], ", "@);
        assert(seq![t[0]].push(t[1]) =~= seq![t[0], t[1]]);
        assert(seq![t[0], t[1]].push(t[2]) =~= t);
    } else if t.len() > 3 {
        assert(t[0] + ", "@ + t[1] + text::counted(" … ("@, t.len(), " packages)"@) =~= t[0] + ", "@
            + t[1] + " … ("@ + text::decimal_of(t.len()) + " packages)"@);
    }
}

// ---------------------------------------------------------------------------
// Keys over a dialog
// ---------------------------------------------------------------------------

/// The arrows change the choice in the delete dialog; keys that mean nothing
/// there do nothing.
pub proof fn law_choosing(app: AppView, cursor: usize, key: KeyPress, now: u64)
    requires
        app.overlay == (OverlayView::DeleteChoice { cursor }),
        cursor <= 1,
        key.code != KeyCode::Esc,
        key.code != KeyCode::Enter,
        !(key.ctrl && key.code == KeyCode::Char('c')),
    ensures
        key.code == KeyCode::Up || key.code == KeyCode::Down ==> app.on_key(key, now) == (
            AppView {
                overlay: OverlayView::DeleteChoice {
                    cursor: if cursor == 0 {
                        1
                    } else {
                        0
                    },
                },
                ..app
            },
            EffectView::Nothing,
        ),
        key.code != KeyCode::Up && key.code != KeyCode::Down ==> app.on_key(key, now) == (
            app,
            EffectView::Nothing,
        ),
{
}

/// Enter on the normal delete closes the dialog and removes the targets.
pub proof fn law_normal_delete(app: AppView, key: KeyPress, now: u64)
    requires
        app.overlay == (OverlayView::DeleteChoice { cursor: 0 }),
        key.code == KeyCode::Enter,
    ensures
        app.on_key(key, now).0 == (AppView { overlay: OverlayView::Closed, ..app }),
        app.targets().len() > 0 ==> app.on_key(key, now).1 == EffectView::Remove(app.targets()),
        app.targets().len() == 0 ==> app.on_key(key, now).1 == EffectView::Nothing,
{
}

/// Enter on the mega delete removes nothing: it asks for the plan of the
/// targets, and says so.
pub proof fn law_mega_delete(app: AppView, key: KeyPress, now: u64)
    requires
        app.overlay == (OverlayView::DeleteChoice { cursor: 1 }),
        key.code == KeyCode::Enter,
    ensures
        app.targets().len() > 0 ==> app.on_key(key, now) == (
            AppView {
                overlay: OverlayView::Busy(
                    text::joined(app.targets(), ", "@) + ": working out the plan…"@,
                ),
                ..app
            },
            EffectView::Plan { key: text::joined(app.targets(), ","@), targets: app.targets() },
        ),
        app.targets().len() == 0 ==> app.on_key(key, now) == (
            AppView { overlay: OverlayView::Closed, ..app },
            EffectView::Nothing,
        ),
{
}

/// Enter closes the confirmation. On Continue the plan is carried out unless
/// pacman refused it, on Cancel nothing is.
pub proof fn law_confirming(
    app: AppView,
    plan: MegaPlanView,
    scroll: u16,
    button: usize,
    content_lines: u16,
    view_lines: u16,
    key: KeyPress,
    now: u64,
)
    requires
        app.overlay == (OverlayView::MegaConfirm {
            plan,
            scroll,
            button,
            content_lines,
            view_lines,
        }),
        key.code == KeyCode::Enter,
    ensures
        app.on_key(key, now).0 == (AppView { overlay: OverlayView::Closed, ..app }),
        button == 1 && plan.error is None ==> app.on_key(key, now).1 == EffectView::RemoveMega(
            plan,
        ),
        button == 0 || plan.error is Some ==> app.on_key(key, now).1 == EffectView::Nothing,
{
}

/// The side arrows and Tab change the button of the confirmation; the other
/// keys scroll its text by a line, by what is on the screen, to its beginning
/// or to its end; nothing else changes.
pub proof fn law_scrolling_the_plan(
    app: AppView,
    plan: MegaPlanView,
    scroll: u16,
    button: usize,
    content_lines: u16,
    view_lines: u16,
    key: KeyPress,
    now: u64,
)
    requires
        app.overlay == (OverlayView::MegaConfirm {
            plan,
            scroll,
            button,
            content_lines,
            view_lines,
        }),
        button <= 1,
        scroll + view_lines <= content_lines,
        key.code != KeyCode::Esc,
        key.code != KeyCode::Enter,
        !(key.ctrl && key.code == KeyCode::Char('c')),
    ensures
        ({
            let (next, effect) = app.on_key(key, now);
            let page: int = if view_lines == 0 {
                1
            } else {
                view_lines as int
            };
            let end = content_lines - view_lines;
            let code = key.code;
            &&& effect == EffectView::Nothing
            &&& next.overlay matches OverlayView::MegaConfirm { scroll: to, button: chosen, .. }
            &&& next == (AppView {
                overlay: OverlayView::MegaConfirm {
                    plan,
                    scroll: to,
                    button: chosen,
                    content_lines,
                    view_lines,
                },
                ..app
            })
            &&& chosen == (if code == KeyCode::Left || code == KeyCode::Right || code
                == KeyCode::Tab {
                1 - button
            } else {
                button as int
            })
            &&& to == (if code == KeyCode::Up && scroll > 0 {
                scroll - 1
            } else if code == KeyCode::Down && scroll < end {
                scroll + 1
            } else if code == KeyCode::PageUp && scroll > page {
                scroll - page
            } else if code == KeyCode::PageUp || code == KeyCode::Home {
                0
            } else if code == KeyCode::PageDown && scroll + page < end {
                scroll + page
            } else if code == KeyCode::PageDown || code == KeyCode::End {
                end
            } else {
                scroll as int
            })
        }),
{
}

/// The list of what landed is scrolled by a line or by fifteen, and closed by
/// Enter; nothing else changes.
pub proof fn law_scrolling_what_landed(
    app: AppView,
    names: Seq<Seq<char>>,
    files: Seq<Seq<char>>,
    scroll: u16,
    key: KeyPress,
    now: u64,
)
    requires
        app.overlay == (OverlayView::Installed { names, files, scroll }),
        !(key.ctrl && key.code == KeyCode::Char('c')),
        key.code != KeyCode::Esc,
    ensures
        ({
            let (next, effect) = app.on_key(key, now);
            let code = key.code;
            &&& effect == EffectView::Nothing
            &&& code == KeyCode::Enter ==> next == (AppView {
                overlay: OverlayView::Closed,
                ..app
            })
            &&& code != KeyCode::Enter ==> next.overlay is Installed && next == (AppView {
                overlay: OverlayView::Installed { names, files, scroll: next.overlay->Installed_scroll },
                ..app
            }) && next.overlay->Installed_scroll == (if code == KeyCode::Up && scroll > 0 {
                scroll - 1
            } else if code == KeyCode::Down && scroll < 65535 {
                scroll + 1
            } else if code == KeyCode::PageUp && scroll > 15 {
                scroll - 15
            } else if code == KeyCode::PageUp {
                0
            } else if code == KeyCode::PageDown && scroll < 65520 {
                scroll + 15
            } else if code == KeyCode::PageDown {
                65535
            } else {
                scroll as int
            })
        }),
{
}

/// While a plan is worked out, keys do nothing but Esc, which goes back.
pub proof fn law_waiting(app: AppView, what: Seq<char>, key: KeyPress, now: u64)
    requires
        app.overlay == OverlayView::Busy(what),
        !(key.ctrl && key.code == KeyCode::Char('c')),
    ensures
        key.code == KeyCode::Esc ==> app.on_key(key, now) == (
            AppView { overlay: OverlayView::Closed, ..app },
            EffectView::Nothing,
        ),
        key.code != KeyCode::Esc ==> app.on_key(key, now) == (app, EffectView::Nothing),
{
}

// ---------------------------------------------------------------------------
// Replies and times
// ---------------------------------------------------------------------------

/// What was found for the query is shown afresh, and counted.
pub proof fn law_results_are_shown(app: AppView, results: Seq<PkgView>)
    requires
        app.tab == Tab::Remote,
    ensures
        ({
            let next = app.handle_msg(MsgView::Search(app.query, results));
            &&& next == (AppView {
                results,
                search_pending: false,
                status: text::decimal_of(results.len()) + " results for \""@ + app.query + "\""@,
                details: None,
                files: seq![],
                detail_requested: seq![],
                detail_scroll: 0,
                state: next.state,
                ..app
            })
            &&& next.list() == results
            &&& results.len() > 0 ==> next.state.selected == Some(0usize) && next.state.offset
                == app.state.offset
            &&& results.len() == 0 ==> next.state.selected is None
        }),
{
    assert(Seq::<char>::empty() + text::decimal_of(results.len()) =~= text::decimal_of(
        results.len(),
    ));
}

/// Details and files of the package under the cursor are shown; nothing else
/// changes.
pub proof fn law_details_are_shown(app: AppView, pkg: PkgView, files: Seq<Seq<char>>)
    requires
        app.current() is Some,
    ensures
        app.handle_msg(MsgView::Details(app.current()->0.name, pkg)) == (AppView {
            details: Some(pkg),
            ..app
        }),
        app.handle_msg(MsgView::Files(app.current()->0.name, files)) == (AppView { files, ..app }),
{
}

/// A plan of the targets is shown from its beginning, with the cursor on
/// Cancel; for a plan of others the dialog closes, and the status says why.
pub proof fn law_plans_are_shown(app: AppView, key: Seq<char>, plan: MegaPlanView)
    ensures
        key == text::joined(app.targets(), ","@) ==> app.handle_msg(MsgView::Plan(key, plan)) == (
        AppView {
            overlay: OverlayView::MegaConfirm {
                plan,
                scroll: 0,
                button: 0,
                content_lines: 0,
                view_lines: 0,
            },
            ..app
        }),
        key != text::joined(app.targets(), ","@) ==> app.handle_msg(MsgView::Plan(key, plan)) == (
        AppView {
            overlay: OverlayView::Closed,
            status: "selection changed, mega delete cancelled"@,
            ..app
        }),
{
}

/// A search is due exactly 280 milliseconds after the last keystroke: on the
/// remote tab, for a query that was not searched for yet.
pub proof fn law_search_comes(app: AppView, now: u64)
    ensures
        app.search_is_due(now) <==> {
            &&& app.tab == Tab::Remote
            &&& app.query.len() > 0
            &&& app.query != app.last_searched
            &&& now >= app.last_key + 280
        },
        app.searching() == (AppView {
            last_searched: app.query,
            search_pending: true,
            status: "searching "@ + app.query + "…"@,
            ..app
        }),
{
}

/// The theme files are looked at again once a second.
pub proof fn law_theme_is_polled(app: AppView, now: u64)
    ensures
        app.theme_is_due(now) <==> now >= app.last_theme_check + 1000,
{
}

/// When the cursor comes to another package, its details are asked for: of an
/// installed one they are shown at once, and its files are asked for; of any
/// other everything is.
pub proof fn law_details_are_asked_for(app: AppView, pkg: PkgView)
    requires
        app.current() == Some(pkg),
        pkg.name != app.detail_requested,
    ensures
        ({
            let (next, request) = app.load_details();
            &&& next == (AppView {
                detail_requested: pkg.name,
                details: next.details,
                files: seq![],
                detail_scroll: 0,
                ..app
            })
            &&& pkg.installed ==> request == Some(RequestView::Files(pkg.name)) && next.details
                == Some(
                match model::first_named(app.installed, pkg.name) {
                    Some(full) => full,
                    None => pkg,
                },
            )
            &&& !pkg.installed ==> request == Some(RequestView::Details(pkg)) && next.details
                is None
        }),
{
}

/// While the cursor stays on a package, or is on none, nothing is asked for.
pub proof fn law_details_are_asked_for_no_more(app: AppView)
    requires
        app.current() matches Some(pkg) ==> pkg.name == app.detail_requested,
    ensures
        app.load_details() == (app, None::<RequestView>),
{
}

/// After an install or a removal the packages are those that are installed
/// now. Marks and details are gone, the status counts the packages, and the
/// cursor stays on its row, or on the last where the list is shorter now.
pub proof fn law_changes_are_taken_in(app: AppView, installed: Seq<PkgView>)
    requires
        installed.len() <= usize::MAX,
    ensures
        ({
            let next = app.after_change(installed);
            let cur: int = match app.state.selected {
                Some(i) => i as int,
                None => 0,
            };
            &&& next.installed == installed
            &&& next.installed_names == model::names_of(installed)
            &&& next.marked == Set::<Seq<char>>::empty()
            &&& next.anchor is None
            &&& next.details is None
            &&& next.files.len() == 0
            &&& next.detail_requested.len() == 0
            &&& next.detail_scroll == 0
            &&& next.status == text::decimal_of(installed.len()) + " packages installed"@
            &&& next.tab == app.tab
            &&& next.query == app.query
            &&& next.results == app.results
            &&& next.search_pending == app.search_pending
            &&& next.overlay == app.overlay
            &&& next.last_key == app.last_key
            &&& next.last_theme_check == app.last_theme_check
            &&& next.last_searched == app.last_searched
            &&& next.quit == app.quit
            &&& app.tab == Tab::Downloaded && app.query.len() == 0 ==> next.list() == installed
            &&& app.tab == Tab::Downloaded && app.query.len() > 0 ==> next.list()
                == model::fitting(installed, text::lowercase(app.query))
            &&& next.list().len() == 0 ==> next.state.selected is None
            &&& 0 < next.list().len() <= cur ==> next.list().len() <= usize::MAX
                ==> next.state.selected is Some && next.state.selected->0 == next.list().len() - 1
            &&& cur < next.list().len() ==> next.state == app.state
        }),
{
    assert(Seq::<char>::empty() + text::decimal_of(installed.len()) =~= text::decimal_of(
        installed.len(),
    ));
}

/// After an install the names and the files of what landed are shown from the
/// beginning.
pub proof fn law_what_landed_is_shown(app: AppView, landed: Seq<(Seq<char>, Seq<char>)>)
    ensures
        ({
            let next = app.show_installed(landed);
            &&& next.overlay matches OverlayView::Installed { names, files, scroll }
            &&& next == (AppView { overlay: next.overlay, ..app })
            &&& scroll == 0
            &&& files == model::landed_files(landed)
            &&& names.len() == landed.len()
            &&& forall|i: int| 0 <= i < landed.len() ==> #[trigger] names[i] == landed[i].0
        }),
{
}

/// How tall the confirmation is changes nothing but what it may scroll by.
pub proof fn law_measuring(
    app: AppView,
    plan: MegaPlanView,
    scroll: u16,
    button: usize,
    content_lines: u16,
    view_lines: u16,
    content: u16,
    view: u16,
)
    ensures
        app.overlay == (OverlayView::MegaConfirm {
            plan,
            scroll,
            button,
            content_lines,
            view_lines,
        }) ==> app.measured(content, view) == (AppView {
            overlay: OverlayView::MegaConfirm {
                plan,
                scroll,
                button,
                content_lines: content,
                view_lines: view,
            },
            ..app
        }),
        !(app.overlay is MegaConfirm) ==> app.measured(content, view) == app,
{
}

} // verus!
