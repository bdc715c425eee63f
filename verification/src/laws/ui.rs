//! What the screen promises: what it says, and where.

use vstd::prelude::*;

use crate::app::Tab;
use crate::layout;
use crate::layout::Rect;
use crate::model::AppView;
use crate::model::OverlayView;
use crate::ops;
use crate::ops::MegaPlanView;
use crate::pacman;
use crate::pacman::PkgView;
use crate::text;
use crate::theme::Color;
use crate::theme::ThemeView;
use crate::ui;
use crate::ui::LineView;
use crate::ui::SpanView;
use crate::ui::Style;

verus! {

/// The pieces of a line.
pub open spec fn pieces(line: LineView) -> Seq<SpanView> {
    match line {
        LineView::Text { text, style } => seq![SpanView { text, style }],
        LineView::Spans(spans) => spans,
        LineView::Right(spans) => spans,
    }
}

/// What a line says, piece by piece.
pub open spec fn said(line: LineView) -> Seq<Seq<char>> {
    Seq::new(pieces(line).len(), |i: int| pieces(line)[i].text)
}

/// What lines say.
pub open spec fn all_said(lines: Seq<LineView>) -> Seq<Seq<Seq<char>>> {
    Seq::new(lines.len(), |i: int| said(lines[i]))
}

/// A list of texts, each said on a line of its own behind two spaces.
pub open spec fn listed(items: Seq<Seq<char>>) -> Seq<Seq<Seq<char>>> {
    Seq::new(items.len(), |i: int| seq!["  "@ + items[i]])
}

/// What stands in a text if something holds.
pub open spec fn given<A>(holds: bool, list: Seq<A>) -> Seq<A> {
    if holds {
        list
    } else {
        seq![]
    }
}

/// A line that says nothing.
pub open spec fn silence() -> Seq<Seq<char>> {
    seq![seq![]]
}

proof fn lemma_said_one(text: Seq<char>, style: Style)
    ensures
        said(ui::line_of(text, style)) == seq![text],
        said(ui::blank()) == silence(),
{
    assert(said(ui::line_of(text, style)) =~= seq![text]);
    assert(said(ui::blank()) =~~= silence());
}

proof fn lemma_said_both(a: Seq<LineView>, b: Seq<LineView>)
    ensures
        all_said(a + b) == all_said(a) + all_said(b),
{
    assert(all_said(a + b) =~= all_said(a) + all_said(b));
}

proof fn lemma_said_items(items: Seq<Seq<char>>, style: Style)
    ensures
        all_said(ui::item_lines(items, style)) == listed(items),
{
    let lines = ui::item_lines(items, style);
    assert forall|i: int| 0 <= i < items.len() implies #[trigger] all_said(lines)[i] == listed(
        items,
    )[i] by {
        lemma_said_one("  "@ + items[i], style);
    }
    assert(all_said(lines) =~= listed(items));
}

// ---------------------------------------------------------------------------
// The list
// ---------------------------------------------------------------------------

/// Every package of the list has its row, in order: whether it is marked, its
/// name and version, whether it comes from the AUR, and on the remote tab
/// whether it is installed.
pub proof fn law_rows(app: AppView, c: ThemeView, area: Rect, i: int)
    requires
        0 <= i < app.list().len(),
    ensures
        ({
            let rows = ui::list_pane(app, c, area).rows;
            let p = app.list()[i];
            &&& rows.len() == app.list().len()
            &&& said(rows[i]) == seq![
                if app.marked.contains(p.name) {
                    "▐ "@
                } else {
                    "  "@
                },
                p.name,
                " "@,
                p.version,
            ] + given(p.repo == "aur"@, seq!["  aur"@]) + given(
                p.installed && app.tab == Tab::Remote,
                seq!["  installed"@],
            )
            &&& pieces(rows[i])[0].style.fg == Some(c.green)
            &&& p.installed ==> pieces(rows[i])[1].style.fg == Some(c.text)
            &&& !p.installed ==> pieces(rows[i])[1].style.fg == Some(c.subtext0)
            &&& pieces(rows[i])[3].style.fg == Some(c.overlay0)
        }),
{
    let p = app.list()[i];
    let row = ui::list_pane(app, c, area).rows[i];
    assert(said(row) =~= seq![
        if app.marked.contains(p.name) {
            "▐ "@
        } else {
            "  "@
        },
        p.name,
        " "@,
        p.version,
    ] + given(p.repo == "aur"@, seq!["  aur"@]) + given(
        p.installed && app.tab == Tab::Remote,
        seq!["  installed"@],
    ));
}

/// The list counts its packages in its title, and shows the row under the
/// cursor on the background of a selection.
pub proof fn law_list_title(app: AppView, c: ThemeView, area: Rect)
    ensures
        ({
            let pane = ui::list_pane(app, c, area);
            &&& pane.area == area
            &&& pane.border.title is Some
            &&& app.tab == Tab::Downloaded ==> pane.border.title->0.text == " Installed ("@
                + text::decimal_of(app.list().len()) + ") "@
            &&& app.tab == Tab::Remote ==> pane.border.title->0.text == " Results ("@
                + text::decimal_of(app.list().len()) + ") "@
            &&& pane.highlight == (Style { fg: None, bg: Some(c.selected), bold: true })
        }),
{
}

// ---------------------------------------------------------------------------
// Details
// ---------------------------------------------------------------------------

/// What is said of what a package asks for: whether it is there already.
pub open spec fn need_said(raw: Seq<char>, names: Set<Seq<char>>) -> Seq<Seq<char>> {
    if names.contains(pacman::dep_name_of(raw)) {
        seq!["  ✓ "@, raw, seq![]]
    } else {
        seq!["  ✗ "@, raw, "   will be installed"@]
    }
}

/// What is said of what a package can do with: whether it is there already.
pub open spec fn option_said(raw: Seq<char>, names: Set<Seq<char>>) -> Seq<Seq<char>> {
    if names.contains(pacman::dep_name_of(raw)) {
        seq!["  ✓ "@, raw]
    } else {
        seq!["  · "@, raw]
    }
}

/// What the details of a package say: name and version, badges, description
/// and address as far as there are any, what it requires, what is optional,
/// and of an installed one what requires it and its files.
pub open spec fn details_said(cur: PkgView, d: PkgView, app: AppView) -> Seq<Seq<Seq<char>>> {
    let names = app.installed_names;
    let head = seq![seq![d.name, "  "@, d.version], badges_said(cur, d), silence()];
    let about = given(d.description.len() > 0, seq![seq![d.description], silence()]);
    let address = given(d.url.len() > 0, seq![seq![d.url], silence()]);
    let waiting = given(app.details is None && !cur.installed, seq![seq!["  loading…"@]]);
    let needs = given(d.depends.len() == 0, seq![seq!["  none"@]]) + Seq::new(
        d.depends.len(),
        |i: int| need_said(d.depends[i], names),
    );
    let optional = given(d.optdepends.len() > 0, seq![silence(), seq!["Optional"@]]) + Seq::new(
        d.optdepends.len(),
        |i: int| option_said(d.optdepends[i], names),
    );
    let users = seq![silence(), seq!["Required by"@]] + given(
        d.required_by.len() == 0,
        seq![seq!["  nothing"@]],
    ) + listed(d.required_by);
    let owned = seq![
        silence(),
        seq!["Files ("@ + text::decimal_of(app.files.len()) + ")"@],
    ] + given(app.files.len() == 0, seq![seq!["  reading…"@]]) + listed(app.files);
    head + about + address + waiting + seq![silence(), seq!["Requires"@]] + needs + optional + given(
        cur.installed,
        users + owned,
    )
}

proof fn lemma_said_needs(depends: Seq<Seq<char>>, names: Set<Seq<char>>, c: ThemeView)
    ensures
        all_said(ui::require_lines(depends, names, c)) == given(
            depends.len() == 0,
            seq![seq!["  none"@]],
        ) + Seq::new(depends.len(), |i: int| need_said(depends[i], names)),
{
    let lines = ui::require_lines(depends, names, c);
    if depends.len() == 0 {
        lemma_said_one("  none"@, ui::ink(c.overlay0));
    }
    assert forall|i: int| 0 <= i < depends.len() implies said(#[trigger] lines[i]) == need_said(
        depends[i],
        names,
    ) by {
        assert(said(lines[i]) =~~= need_said(depends[i], names));
    }
    assert(all_said(lines) =~= given(depends.len() == 0, seq![seq!["  none"@]]) + Seq::new(
        depends.len(),
        |i: int| need_said(depends[i], names),
    ));
}

proof fn lemma_said_options(options: Seq<Seq<char>>, names: Set<Seq<char>>, c: ThemeView)
    ensures
        all_said(ui::optional_lines(options, names, c)) == given(
            options.len() > 0,
            seq![silence(), seq!["Optional"@]],
        ) + Seq::new(options.len(), |i: int| option_said(options[i], names)),
{
    let lines = ui::optional_lines(options, names, c);
    lemma_said_one("Optional"@, ui::strong(c.blue));
    assert forall|i: int| 0 <= i < options.len() implies said(#[trigger] lines[i + 2])
        == option_said(options[i], names) by {
        assert(said(lines[i + 2]) =~~= option_said(options[i], names));
    }
    assert(all_said(lines) =~= given(options.len() > 0, seq![silence(), seq!["Optional"@]])
        + Seq::new(options.len(), |i: int| option_said(options[i], names))) by {
        assert forall|i: int| 2 <= i < lines.len() implies #[trigger] all_said(lines)[i]
            == option_said(options[i - 2], names) by {
            assert(said(lines[(i - 2) + 2]) == option_said(options[i - 2], names));
        }
    }
}

proof fn lemma_said_section(title: Seq<char>, c: ThemeView)
    ensures
        all_said(ui::section_lines(title, c)) == seq![silence(), seq![title]],
{
    lemma_said_one(title, ui::strong(c.blue));
    assert(all_said(ui::section_lines(title, c)) =~= seq![silence(), seq![title]]);
}

proof fn lemma_said_paragraph(text: Seq<char>, color: Color)
    ensures
        all_said(ui::paragraph(text, color)) == given(text.len() > 0, seq![seq![text], silence()]),
{
    lemma_said_one(text, ui::ink(color));
    assert(all_said(ui::paragraph(text, color)) =~= given(
        text.len() > 0,
        seq![seq![text], silence()],
    ));
}

proof fn lemma_said_owner(d: PkgView, files: Seq<Seq<char>>, c: ThemeView)
    ensures
        all_said(ui::owner_lines(d.required_by, files, c)) == (seq![
            silence(),
            seq!["Required by"@],
        ] + given(d.required_by.len() == 0, seq![seq!["  nothing"@]]) + listed(d.required_by)) + (
        seq![silence(), seq!["Files ("@ + text::decimal_of(files.len()) + ")"@]] + given(
            files.len() == 0,
            seq![seq!["  reading…"@]],
        ) + listed(files)),
{
    let t = "Files ("@ + text::decimal_of(files.len()) + ")"@;
    let s1 = ui::section_lines("Required by"@, c);
    let s2 = ui::section_lines(t, c);
    let u = if d.required_by.len() == 0 {
        seq![ui::line_of("  nothing"@, ui::ink(c.overlay0))]
    } else {
        ui::item_lines(d.required_by, ui::ink(c.subtext0))
    };
    let o = if files.len() == 0 {
        seq![ui::line_of("  reading…"@, ui::ink(c.overlay0))]
    } else {
        ui::item_lines(files, ui::ink(c.overlay0))
    };
    lemma_said_section("Required by"@, c);
    lemma_said_section(t, c);
    lemma_said_one("  nothing"@, ui::ink(c.overlay0));
    lemma_said_one("  reading…"@, ui::ink(c.overlay0));
    lemma_said_items(d.required_by, ui::ink(c.subtext0));
    lemma_said_items(files, ui::ink(c.overlay0));
    let gu = given(d.required_by.len() == 0, seq![seq!["  nothing"@]]) + listed(d.required_by);
    let go = given(files.len() == 0, seq![seq!["  reading…"@]]) + listed(files);
    assert(all_said(u) =~= gu);
    assert(all_said(o) =~= go);
    lemma_said_both(s1, u);
    lemma_said_both(s1 + u, s2);
    lemma_said_both(s1 + u + s2, o);
    assert(ui::owner_lines(d.required_by, files, c) == s1 + u + s2 + o);
    let x = seq![silence(), seq!["Required by"@]];
    let y = seq![silence(), seq![t]];
    assert(x + gu + y + go =~= (x + given(d.required_by.len() == 0, seq![seq!["  nothing"@]])
        + listed(d.required_by)) + (y + given(files.len() == 0, seq![seq!["  reading…"@]])
        + listed(files)));
}

/// What the badges of a package say.
pub open spec fn badges_said(cur: PkgView, d: PkgView) -> Seq<Seq<char>> {
    seq![
        if cur.repo == "aur"@ {
            "AUR"@
        } else {
            "repo"@
        },
    ] + given(cur.installed, seq!["  ·  "@, "installed"@]) + given(
        d.votes is Some,
        seq!["  ·  "@, d.votes->0 + " votes"@],
    ) + given(d.size.len() > 0, seq!["  ·  "@, d.size])
}

proof fn lemma_said_head(cur: PkgView, d: PkgView, c: ThemeView)
    ensures
        all_said(seq![ui::name_line(d, c), ui::badge_line(cur, d, c), ui::blank()]) == seq![
            seq![d.name, "  "@, d.version],
            badges_said(cur, d),
            silence(),
        ],
{
    let a = seq![ui::name_line(d, c), ui::badge_line(cur, d, c), ui::blank()];
    assert(said(ui::badge_line(cur, d, c)) =~= badges_said(cur, d));
    assert(said(ui::name_line(d, c)) =~= seq![d.name, "  "@, d.version]);
    lemma_said_one(seq![], ui::plain());
    assert(all_said(a) =~= seq![
        seq![d.name, "  "@, d.version],
        badges_said(cur, d),
        silence(),
    ]);
}

/// The details say what is known of the package under the cursor.
pub proof fn law_details(app: AppView, cur: PkgView, c: ThemeView, area: Rect)
    requires
        app.current() == Some(cur),
    ensures
        ({
            let pane = ui::detail_pane(app, c, area);
            let d = match app.details {
                Some(d) => d,
                None => cur,
            };
            &&& all_said(pane.lines) == details_said(cur, d, app)
            &&& pane.area == area
            &&& pane.wrap
            &&& pane.scroll == app.detail_scroll
            &&& pane.border is Some && pane.border->0.title is Some && pane.border->0.title->0.text
                == " Details "@
        }),
{
    let d = ui::detail_of(app, cur);
    let names = app.installed_names;
    lemma_said_head(cur, d, c);
    lemma_said_one("  loading…"@, ui::ink(c.overlay0));
    let a = seq![ui::name_line(d, c), ui::badge_line(cur, d, c), ui::blank()];
    let b1 = ui::paragraph(d.description, c.text);
    let b2 = ui::paragraph(d.url, c.blue);
    let l = given(
        app.details is None && !cur.installed,
        seq![ui::line_of("  loading…"@, ui::ink(c.overlay0))],
    );
    let r = ui::section_lines("Requires"@, c);
    let n = ui::require_lines(d.depends, names, c);
    let o = ui::optional_lines(d.optdepends, names, c);
    let w = given(cur.installed, ui::owner_lines(d.required_by, app.files, c));
    let all = ui::detail_lines(app, cur, c);
    assert(all == a + b1 + b2 + l + r + n + o + w);
    lemma_said_paragraph(d.description, c.text);
    lemma_said_paragraph(d.url, c.blue);
    lemma_said_section("Requires"@, c);
    lemma_said_needs(d.depends, names, c);
    lemma_said_options(d.optdepends, names, c);
    lemma_said_owner(d, app.files, c);
    let waiting = given(app.details is None && !cur.installed, seq![seq!["  loading…"@]]);
    assert(all_said(l) =~= waiting);
    lemma_said_both(a, b1);
    lemma_said_both(a + b1, b2);
    lemma_said_both(a + b1 + b2, l);
    lemma_said_both(a + b1 + b2 + l, r);
    lemma_said_both(a + b1 + b2 + l + r, n);
    lemma_said_both(a + b1 + b2 + l + r + n, o);
    lemma_said_both(a + b1 + b2 + l + r + n + o, w);
    assert(all_said(w) =~= given(
        cur.installed,
        all_said(ui::owner_lines(d.required_by, app.files, c)),
    ));
}

/// Without a package under the cursor there are no details.
pub proof fn law_no_details(app: AppView, c: ThemeView, area: Rect)
    requires
        app.current() is None,
    ensures
        ui::detail_pane(app, c, area).lines.len() == 0,
        ui::detail_pane(app, c, area).area == area,
{
}

/// What is missing is written in red, what is there in green.
pub proof fn law_requirement_colors(raw: Seq<char>, names: Set<Seq<char>>, c: ThemeView)
    ensures
        ({
            let have = names.contains(pacman::dep_name_of(raw));
            let need = pieces(ui::require_lines(seq![raw], names, c)[0]);
            let option = pieces(ui::optional_lines(seq![raw], names, c)[2]);
            &&& have ==> need[0].style.fg == Some(c.green) && option[0].style.fg == Some(c.green)
            &&& !have ==> need[0].style.fg == Some(c.red) && option[0].style.fg == Some(c.overlay0)
        }),
{
}

// ---------------------------------------------------------------------------
// Tabs, search and status
// ---------------------------------------------------------------------------

/// Both tabs are named, and the active one alone has the background of the
/// accent.
pub proof fn law_tabs(app: AppView, c: ThemeView)
    ensures
        said(ui::tabs_line(app, c)) == seq![
            " "@,
            " "@ + "Downloaded"@ + " "@,
            " "@,
            " "@ + "AUR + pacman"@ + " "@,
            " "@,
            "  ⇥ Tab"@,
        ],
        pieces(ui::tabs_line(app, c))[1].style.bg == (if app.tab == Tab::Downloaded {
            Some(c.mauve)
        } else {
            None
        }),
        pieces(ui::tabs_line(app, c))[3].style.bg == (if app.tab == Tab::Remote {
            Some(c.mauve)
        } else {
            None
        }),
{
    assert(said(ui::tabs_line(app, c)) =~= seq![
        " "@,
        " "@ + "Downloaded"@ + " "@,
        " "@,
        " "@ + "AUR + pacman"@ + " "@,
        " "@,
        "  ⇥ Tab"@,
    ]);
}

/// The search box shows the query and whether a search is under way; without
/// a query it says what typing does.
pub proof fn law_search_box(app: AppView, c: ThemeView, area: Rect)
    ensures
        ({
            let pane = ui::search_pane(app, c, area);
            &&& pane.area == area
            &&& pane.lines.len() == 1
            &&& pane.border is Some
            &&& app.query.len() == 0 && app.tab == Tab::Downloaded ==> said(pane.lines[0]) == seq![
                "  "@,
                "type to filter installed packages"@,
            ]
            &&& app.query.len() == 0 && app.tab == Tab::Remote ==> said(pane.lines[0]) == seq![
                "  "@,
                "type to search pacman + AUR"@,
            ]
            &&& app.query.len() > 0 ==> said(pane.lines[0]) == seq![
                "  "@,
                app.query,
                "█"@,
                if app.search_pending {
                    " …"@
                } else {
                    seq![]
                },
            ]
            &&& app.query.len() == 0 ==> pane.border->0.color == c.surface1
            &&& app.query.len() > 0 ==> pane.border->0.color == c.mauve
        }),
{
    let line = ui::search_pane(app, c, area).lines[0];
    if app.query.len() > 0 {
        assert(said(line) =~= seq![
            "  "@,
            app.query,
            "█"@,
            if app.search_pending {
                " …"@
            } else {
                seq![]
            },
        ]);
    } else if app.tab == Tab::Downloaded {
        assert(said(line) =~= seq!["  "@, "type to filter installed packages"@]);
    } else {
        assert(said(line) =~= seq!["  "@, "type to search pacman + AUR"@]);
    }
}

/// The status line shows the status, how many packages are marked if any are,
/// what the keys do, and the theme.
pub proof fn law_status(app: AppView, c: ThemeView)
    ensures
        said(ui::status_line(app, c)) == seq![" "@ + app.status + " "@] + given(
            app.marked.len() > 0,
            seq!["· "@ + text::decimal_of(app.marked.len()) + " marked "@],
        ) + seq![
            "· "@ + (if app.tab == Tab::Remote {
                "Tab switch · space mark · shift+space range · D install · Esc clear"@
            } else {
                "Tab switch · space mark · shift+space range · D delete · Esc quit"@
            }),
            "  ["@ + c.name + "]"@,
        ],
{
    assert(said(ui::status_line(app, c)) =~= seq![" "@ + app.status + " "@] + given(
        app.marked.len() > 0,
        seq!["· "@ + text::decimal_of(app.marked.len()) + " marked "@],
    ) + seq![
        "· "@ + (if app.tab == Tab::Remote {
            "Tab switch · space mark · shift+space range · D install · Esc clear"@
        } else {
            "Tab switch · space mark · shift+space range · D delete · Esc quit"@
        }),
        "  ["@ + c.name + "]"@,
    ]);
}

// ---------------------------------------------------------------------------
// Dialogs
// ---------------------------------------------------------------------------

/// The delete dialog names what is to be deleted and both ways to do it, and
/// points at the one that is chosen.
pub proof fn law_delete_dialog(label: Seq<char>, cursor: usize, c: ThemeView, area: Rect)
    ensures
        ({
            let pane = ui::delete_pane(label, cursor, c, area);
            let lines = pane.lines;
            &&& pane.area == area
            &&& pane.clear
            &&& pane.scroll == 0
            &&& lines.len() == 10
            &&& said(lines[1]) == seq!["  "@, label]
            &&& said(lines[3]) == seq![
                if cursor == 0 {
                    "  ▸ "@
                } else {
                    "    "@
                },
                "Normal delete"@,
            ]
            &&& said(lines[4]) == seq![
                "      "@ + "only this package, dependencies and configs stay"@,
            ]
            &&& said(lines[6]) == seq![
                if cursor == 1 {
                    "  ▸ "@
                } else {
                    "    "@
                },
                "MEGA delete"@,
            ]
            &&& said(lines[7]) == seq![
                "      "@ + "package + unused deps + home leftovers + .pacsave + cache"@,
            ]
            &&& said(lines[9]) == seq!["  ↑↓ choose · Enter confirm · Esc cancel"@]
            &&& said(lines[0]) == silence()
            &&& said(lines[2]) == silence()
            &&& said(lines[5]) == silence()
            &&& said(lines[8]) == silence()
            &&& pieces(lines[3])[1].style == (Style {
                fg: Some(
                    if cursor == 0 {
                        c.blue
                    } else {
                        c.subtext0
                    },
                ),
                bg: None,
                bold: cursor == 0,
            })
            &&& pieces(lines[6])[1].style == (Style {
                fg: Some(
                    if cursor == 1 {
                        c.red
                    } else {
                        c.subtext0
                    },
                ),
                bg: None,
                bold: cursor == 1,
            })
        }),
{
    let lines = ui::delete_pane(label, cursor, c, area).lines;
    lemma_said_one(seq![], ui::plain());
    assert(said(lines[1]) =~= seq!["  "@, label]);
    assert(said(lines[3]) =~= seq![
        if cursor == 0 {
            "  ▸ "@
        } else {
            "    "@
        },
        "Normal delete"@,
    ]);
    assert(said(lines[6]) =~= seq![
        if cursor == 1 {
            "  ▸ "@
        } else {
            "    "@
        },
        "MEGA delete"@,
    ]);
    assert(said(lines[4]) =~= seq![
        "      "@ + "only this package, dependencies and configs stay"@,
    ]);
    assert(said(lines[7]) =~= seq![
        "      "@ + "package + unused deps + home leftovers + .pacsave + cache"@,
    ]);
    assert(said(lines[9]) =~= seq!["  ↑↓ choose · Enter confirm · Esc cancel"@]);
}

/// What a group of a plan says: a heading, and then every one of the list.
pub open spec fn group_said(title: Seq<char>, list: Seq<Seq<char>>) -> Seq<Seq<Seq<char>>> {
    seq![silence(), seq![title]] + given(list.len() == 0, seq![seq!["  none"@]]) + listed(list)
}

/// What the confirmation of a plan says.
pub open spec fn plan_said(plan: MegaPlanView) -> Seq<Seq<Seq<char>>> {
    match plan.error {
        Some(err) => seq![seq!["pacman refused this removal:"@], silence()] + listed(
            text::lines_of(err),
        ) + seq![silence(), seq!["  Nothing was changed."@]],
        None => seq![seq!["This will permanently remove:"@]] + group_said(
            "Packages ("@ + text::decimal_of(plan.cascade.len()) + ") — "@ + text::decimal_of(
                plan.owned_files,
            ) + " files"@,
            plan.cascade,
        ) + group_said(
            "Orphaned deps of these ("@ + text::decimal_of(plan.orphans.len()) + ")"@,
            plan.orphans,
        ) + group_said(
            "Home leftovers ("@ + text::decimal_of(plan.home_paths.len()) + ")"@,
            plan.home_paths,
        ) + group_said(
            "Config leftovers ("@ + text::decimal_of(plan.system_leftovers.len())
                + " candidates)"@,
            ops::remnants(plan.system_leftovers),
        ) + group_said(
            "Cached archives ("@ + text::decimal_of(plan.cache_files.len()) + ")"@,
            plan.cache_files,
        ),
    }
}

proof fn lemma_said_group(title: Seq<char>, list: Seq<Seq<char>>, color: Color, c: ThemeView)
    ensures
        all_said(ui::group_lines(title, list, color, c)) == group_said(title, list),
{
    let head = seq![ui::blank(), ui::line_of(title, ui::strong(color))];
    let none = given(list.len() == 0, seq![ui::line_of("  none"@, ui::ink(c.overlay0))]);
    let items = ui::item_lines(list, ui::ink(c.subtext0));
    lemma_said_one(title, ui::strong(color));
    lemma_said_one("  none"@, ui::ink(c.overlay0));
    lemma_said_items(list, ui::ink(c.subtext0));
    assert(all_said(head) =~= seq![silence(), seq![title]]);
    assert(all_said(none) =~= given(list.len() == 0, seq![seq!["  none"@]]));
    lemma_said_both(head, none);
    lemma_said_both(head + none, items);
}

/// The confirmation says all that the plan holds, under headings that count
/// it; of a refused plan it says why.
pub proof fn law_plan_is_said(plan: MegaPlanView, c: ThemeView)
    ensures
        all_said(ui::mega_lines(plan, c)) == plan_said(plan),
{
    match plan.error {
        Some(err) => {
            let head = seq![
                ui::line_of("pacman refused this removal:"@, ui::strong(c.red)),
                ui::blank(),
            ];
            let items = ui::item_lines(text::lines_of(err), ui::ink(c.text));
            let end = seq![
                ui::blank(),
                ui::line_of("  Nothing was changed."@, ui::ink(c.subtext0)),
            ];
            lemma_said_one("pacman refused this removal:"@, ui::strong(c.red));
            lemma_said_one("  Nothing was changed."@, ui::ink(c.subtext0));
            lemma_said_items(text::lines_of(err), ui::ink(c.text));
            assert(all_said(head) =~= seq![seq!["pacman refused this removal:"@], silence()]);
            assert(all_said(end) =~= seq![silence(), seq!["  Nothing was changed."@]]);
            lemma_said_both(head, items);
            lemma_said_both(head + items, end);
        },
        None => {
            let head = seq![ui::line_of("This will permanently remove:"@, ui::strong(c.red))];
            lemma_said_one("This will permanently remove:"@, ui::strong(c.red));
            assert(all_said(head) =~= seq![seq!["This will permanently remove:"@]]);
            let t1 = "Packages ("@ + text::decimal_of(plan.cascade.len()) + ") — "@
                + text::decimal_of(plan.owned_files) + " files"@;
            let t2 = "Orphaned deps of these ("@ + text::decimal_of(plan.orphans.len()) + ")"@;
            let t3 = "Home leftovers ("@ + text::decimal_of(plan.home_paths.len()) + ")"@;
            let t4 = "Config leftovers ("@ + text::decimal_of(plan.system_leftovers.len())
                + " candidates)"@;
            let t5 = "Cached archives ("@ + text::decimal_of(plan.cache_files.len()) + ")"@;
            let rems = ops::remnants(plan.system_leftovers);
            let g1 = ui::group_lines(t1, plan.cascade, c.text, c);
            let g2 = ui::group_lines(t2, plan.orphans, c.yellow, c);
            let g3 = ui::group_lines(t3, plan.home_paths, c.peach, c);
            let g4 = ui::group_lines(t4, rems, c.overlay0, c);
            let g5 = ui::group_lines(t5, plan.cache_files, c.overlay0, c);
            lemma_said_group(t1, plan.cascade, c.text, c);
            lemma_said_group(t2, plan.orphans, c.yellow, c);
            lemma_said_group(t3, plan.home_paths, c.peach, c);
            lemma_said_group(t4, rems, c.overlay0, c);
            lemma_said_group(t5, plan.cache_files, c.overlay0, c);
            lemma_said_both(head, g1);
            lemma_said_both(head + g1, g2);
            lemma_said_both(head + g1 + g2, g3);
            lemma_said_both(head + g1 + g2 + g3, g4);
            lemma_said_both(head + g1 + g2 + g3 + g4, g5);
        },
    }
}

/// The title of the confirmation names the targets, and counts what goes with
/// them.
pub proof fn law_mega_title(plan: MegaPlanView)
    ensures
        plan.error is Some ==> ui::mega_title(plan) == " Cannot remove: "@ + text::joined(
            plan.packages,
            ", "@,
        ) + " "@,
        plan.error is None ==> ui::mega_title(plan) == " MEGA delete: "@ + text::joined(
            plan.packages,
            ", "@,
        ) + " · "@ + text::decimal_of(plan.cascade.len()) + " pkg + "@ + text::decimal_of(
            (plan.orphans.len() + plan.home_paths.len() + plan.system_leftovers.len()
                + plan.cache_files.len()) as nat,
        ) + " extra "@,
{
    if plan.error is None {
        let n = " MEGA delete: "@ + text::joined(plan.packages, ", "@);
        let d = text::decimal_of(plan.cascade.len());
        assert(n + (" · "@ + d + " pkg + "@) =~= n + " · "@ + d + " pkg + "@);
    }
}

/// A text is scrolled no further than its last line, and the hint tells how
/// far it is when it does not fit.
pub proof fn law_scroll_hint(scroll: u16, content: u16, view: u16)
    ensures
        content <= view ==> ui::scroll_hint(scroll, content, view).len() == 0
            && ui::scroll_of(scroll, content, view) == 0,
        content > view && scroll + view <= content ==> ui::scroll_of(scroll, content, view)
            == scroll && ui::scroll_hint(scroll, content, view) == " ↑↓ scroll · "@
            + text::decimal_of((scroll + view) as nat) + "/"@ + text::decimal_of(content as nat)
            + " lines"@,
        content > view && scroll + view > content ==> ui::scroll_of(scroll, content, view)
            == content - view && ui::scroll_hint(scroll, content, view) == " ↑↓ scroll · "@
            + text::decimal_of(content as nat) + "/"@ + text::decimal_of(content as nat)
            + " lines"@,
{
}

/// The confirmation has two buttons. The one that Enter presses is filled, in
/// the colour of danger only where the plan can be carried out.
pub proof fn law_buttons(button: usize, enabled: bool, accent: Color, c: ThemeView)
    ensures
        ({
            let line = ui::buttons_line(button, accent, enabled, c);
            &&& line is Right
            &&& said(line) == seq![
                "  "@ + "Cancel"@ + "  "@,
                "  "@,
                "  "@ + "Continue"@ + "  "@,
                " "@,
            ]
            &&& pieces(line)[0].style.bg == (if button == 0 {
                Some(c.surface1)
            } else {
                None
            })
            &&& pieces(line)[2].style.bg == (if button != 1 {
                None
            } else if enabled {
                Some(accent)
            } else {
                Some(c.surface1)
            })
        }),
{
    assert(said(ui::buttons_line(button, accent, enabled, c)) =~= seq![
        "  "@ + "Cancel"@ + "  "@,
        "  "@,
        "  "@ + "Continue"@ + "  "@,
        " "@,
    ]);
}

/// After an install the names of what landed are said, and every line of its
/// files; headings stand out.
pub proof fn law_landed(names: Seq<Seq<char>>, files: Seq<Seq<char>>, c: ThemeView, i: int)
    ensures
        ({
            let lines = ui::landed_lines(names, files, c);
            &&& lines.len() == 2 + files.len()
            &&& said(lines[0]) == seq!["Installed: "@ + text::joined(names, ", "@)]
            &&& said(lines[1]) == silence()
            &&& 0 <= i < files.len() ==> said(lines[2 + i]) == seq![files[i]]
            &&& 0 <= i < files.len() && "── "@.is_prefix_of(files[i]) ==> pieces(
                lines[2 + i],
            )[0].style.fg == Some(c.blue)
            &&& 0 <= i < files.len() && !"── "@.is_prefix_of(files[i]) ==> pieces(
                lines[2 + i],
            )[0].style.fg == Some(c.overlay0)
        }),
{
    let lines = ui::landed_lines(names, files, c);
    lemma_said_one("Installed: "@ + text::joined(names, ", "@), ui::strong(c.green));
    assert(said(lines[0]) =~= seq!["Installed: "@ + text::joined(names, ", "@)]);
    if 0 <= i < files.len() {
        assert(said(lines[2 + i]) =~= seq![files[i]]);
        let f = files[i];
        let p = "── "@;
        if p.len() <= f.len() {
            assert(f.subrange(0, p.len() as int) =~= f.take(p.len() as int));
        }
        assert(text::stands_at(f, p, 0) <==> p.is_prefix_of(f));
    }
}

// ---------------------------------------------------------------------------
// Where everything is
// ---------------------------------------------------------------------------

/// The screen holds the details, the tabs, the search box and the status, each
/// in its row, and then what lies over them.
pub proof fn law_screen(
    app: AppView,
    c: ThemeView,
    area: Rect,
    rows: Seq<Rect>,
    dialog: Seq<Rect>,
)
    ensures
        ({
            let panes = ui::screen_panes(app, c, area, rows, dialog);
            &&& panes.len() == 4 + ui::overlay_panes(app, c, area, dialog).len()
            &&& panes[0] == ui::detail_pane(app, c, layout::right_of(rows[0], 42))
            &&& panes[1].area == rows[1] && panes[1].lines == seq![ui::tabs_line(app, c)]
            &&& panes[2] == ui::search_pane(app, c, rows[2])
            &&& panes[3].area == rows[3] && panes[3].lines == seq![ui::status_line(app, c)]
            &&& forall|i: int|
                4 <= i < panes.len() ==> #[trigger] panes[i] == ui::overlay_panes(
                    app,
                    c,
                    area,
                    dialog,
                )[i - 4]
        }),
{
}

/// What lies over the screen is what the state says: nothing, the delete
/// choices, a confirmation, what landed, or a word of patience. It wipes out
/// what is below, and has its share of the screen.
pub proof fn law_overlays(app: AppView, c: ThemeView, area: Rect, rows: Seq<Rect>)
    ensures
        ({
            let panes = ui::overlay_panes(app, c, area, rows);
            match app.overlay {
                OverlayView::Closed => panes.len() == 0,
                OverlayView::DeleteChoice { cursor } => {
                    &&& panes.len() == 1
                    &&& panes[0] == ui::delete_pane(
                        app.delete_targets_label(),
                        cursor,
                        c,
                        layout::popup_of(area, 62, 34),
                    )
                },
                OverlayView::MegaConfirm { plan, scroll, button, .. } => {
                    let content = ui::mega_lines(plan, c).len() % 65536;
                    let view = rows[0].height;
                    &&& panes.len() == 4
                    &&& panes[0].clear
                    &&& panes[0].area == layout::popup_of(area, 82, 82)
                    &&& panes[0].border is Some && panes[0].border->0.color == c.red
                        && panes[0].border->0.title is Some && panes[0].border->0.title->0.text
                        == ui::mega_title(plan)
                    &&& panes[1].area == rows[0]
                    &&& panes[1].lines == ui::mega_lines(plan, c)
                    &&& panes[1].wrap
                    &&& panes[1].scroll == ui::scroll_of(scroll, content as u16, view)
                    &&& panes[2].area == layout::left_of(rows[1], 45)
                    &&& panes[2].lines.len() == 1
                    &&& said(panes[2].lines[0]) == seq![
                        ui::scroll_hint(scroll, content as u16, view),
                    ]
                    &&& panes[3].area == layout::right_of(rows[1], 45)
                    &&& panes[3].lines == seq![
                        ui::buttons_line(button, c.red, plan.error is None, c),
                    ]
                },
                OverlayView::Installed { names, files, scroll } => {
                    let content = (2 + files.len()) % 65536;
                    &&& panes.len() == 3
                    &&& panes[0].clear
                    &&& panes[0].area == layout::popup_of(area, 82, 78)
                    &&& panes[0].border is Some && panes[0].border->0.title is Some
                        && panes[0].border->0.title->0.text == " Installed files "@
                    &&& panes[1].area == rows[0]
                    &&& panes[1].lines == ui::landed_lines(names, files, c)
                    &&& panes[1].scroll == ui::scroll_of(scroll, content as u16, rows[0].height)
                    &&& panes[2].area == rows[1]
                    &&& panes[2].lines.len() == 1
                    &&& said(panes[2].lines[0]) == seq![" ↑↓ scroll · Esc close"@]
                },
                OverlayView::Busy(msg) => {
                    &&& panes.len() == 1
                    &&& panes[0].clear
                    &&& panes[0].centered
                    &&& panes[0].area == layout::popup_of(area, 46, 14)
                    &&& panes[0].lines.len() == 1
                    &&& said(panes[0].lines[0]) == seq![msg]
                },
            }
        }),
{
    let panes = ui::overlay_panes(app, c, area, rows);
    match app.overlay {
        OverlayView::MegaConfirm { plan, scroll, button, .. } => {
            let content = ui::height_of(ui::mega_lines(plan, c));
            lemma_said_one(
                ui::scroll_hint(scroll, content, rows[0].height),
                ui::ink(c.overlay0),
            );
        },
        OverlayView::Installed { names, files, scroll } => {
            lemma_said_one(" ↑↓ scroll · Esc close"@, ui::ink(c.overlay0));
        },
        OverlayView::Busy(msg) => {
            lemma_said_one(msg, ui::ink(c.text));
        },
        _ => {},
    }
}

/// Drawing a confirmation keeps how many lines it has and how many of them are
/// on the screen; drawing anything else changes nothing.
pub proof fn law_drawing_measures(app: AppView, c: ThemeView, rows: Seq<Rect>)
    ensures
        ({
            let next = ui::measured_by(app, c, rows);
            &&& !(app.overlay is MegaConfirm) ==> next == app
            &&& app.overlay matches OverlayView::MegaConfirm { plan, scroll, button, .. } ==> next
                == (AppView {
                overlay: OverlayView::MegaConfirm {
                    plan,
                    scroll,
                    button,
                    content_lines: (ui::mega_lines(plan, c).len() % 65536) as u16,
                    view_lines: rows[0].height,
                },
                ..app
            })
        }),
{
}

/// A dialog of its own area is divided into what it says and a line at its
/// bottom, inside its border.
pub proof fn law_dialog_rows(app: AppView, area: Rect, rows: Seq<Rect>)
    requires
        ui::overlay_rows(app, area, rows),
    ensures
        app.overlay is MegaConfirm ==> rows == layout::dialog_rows_of(
            layout::inner_of(layout::popup_of(area, 82, 82)),
        ),
        app.overlay is Installed ==> rows == layout::dialog_rows_of(
            layout::inner_of(layout::popup_of(area, 82, 78)),
        ),
        !(app.overlay is MegaConfirm) && !(app.overlay is Installed) ==> rows.len() == 0,
{
}

// ---------------------------------------------------------------------------
// Colours
// ---------------------------------------------------------------------------

/// How the pieces of a line look.
pub open spec fn looks(line: LineView) -> Seq<Style> {
    Seq::new(pieces(line).len(), |i: int| pieces(line)[i].style)
}

/// A colour of the text alone.
pub open spec fn in_color(color: Color) -> Style {
    Style { fg: Some(color), bg: None, bold: false }
}

/// A colour of the text alone, in bold.
pub open spec fn in_bold(color: Color) -> Style {
    Style { fg: Some(color), bg: None, bold: true }
}

/// A text in bold on a background.
pub open spec fn on_fill(color: Color, fill: Color) -> Style {
    Style { fg: Some(color), bg: Some(fill), bold: true }
}

/// A style that leaves everything as it is.
pub open spec fn as_is() -> Style {
    Style { fg: None, bg: None, bold: false }
}

/// A row is written in the colours of its parts: green for a mark and for what
/// is installed, peach for the AUR.
pub proof fn law_row_colors(app: AppView, c: ThemeView, area: Rect, i: int)
    requires
        0 <= i < app.list().len(),
    ensures
        ({
            let p = app.list()[i];
            looks(ui::list_pane(app, c, area).rows[i]) == seq![
                in_color(c.green),
                in_color(
                    if p.installed {
                        c.text
                    } else {
                        c.subtext0
                    },
                ),
                as_is(),
                in_color(c.overlay0),
            ] + given(p.repo == "aur"@, seq![in_color(c.peach)]) + given(
                p.installed && app.tab == Tab::Remote,
                seq![in_color(c.green)],
            )
        }),
{
    let p = app.list()[i];
    assert(looks(ui::list_pane(app, c, area).rows[i]) =~= seq![
        in_color(c.green),
        in_color(
            if p.installed {
                c.text
            } else {
                c.subtext0
            },
        ),
        as_is(),
        in_color(c.overlay0),
    ] + given(p.repo == "aur"@, seq![in_color(c.peach)]) + given(
        p.installed && app.tab == Tab::Remote,
        seq![in_color(c.green)],
    ));
}

/// The details are written in the colours of their parts: the accent for the
/// name, peach for the AUR and blue for a repository and for headings, green
/// for what is installed, yellow for votes.
pub proof fn law_detail_colors(cur: PkgView, d: PkgView, title: Seq<char>, c: ThemeView)
    ensures
        looks(ui::name_line(d, c)) == seq![in_bold(c.mauve), as_is(), in_color(c.overlay0)],
        looks(ui::badge_line(cur, d, c)) == seq![
            in_color(
                if cur.repo == "aur"@ {
                    c.peach
                } else {
                    c.blue
                },
            ),
        ] + given(cur.installed, seq![as_is(), in_color(c.green)]) + given(
            d.votes is Some,
            seq![as_is(), in_color(c.yellow)],
        ) + given(d.size.len() > 0, seq![as_is(), in_color(c.overlay0)]),
        looks(ui::section_lines(title, c)[1]) == seq![in_bold(c.blue)],
        d.description.len() > 0 ==> looks(ui::paragraph(d.description, c.text)[0]) == seq![
            in_color(c.text),
        ],
{
    assert(looks(ui::name_line(d, c)) =~= seq![in_bold(c.mauve), as_is(), in_color(c.overlay0)]);
    assert(looks(ui::badge_line(cur, d, c)) =~= seq![
        in_color(
            if cur.repo == "aur"@ {
                c.peach
            } else {
                c.blue
            },
        ),
    ] + given(cur.installed, seq![as_is(), in_color(c.green)]) + given(
        d.votes is Some,
        seq![as_is(), in_color(c.yellow)],
    ) + given(d.size.len() > 0, seq![as_is(), in_color(c.overlay0)]));
    assert(looks(ui::section_lines(title, c)[1]) =~= seq![in_bold(c.blue)]);
    if d.description.len() > 0 {
        assert(looks(ui::paragraph(d.description, c.text)[0]) =~= seq![in_color(c.text)]);
    }
}

/// The description is written in the colour of text, the address in blue.
pub proof fn law_about_colors(app: AppView, cur: PkgView, c: ThemeView)
    ensures
        ({
            let d = ui::detail_of(app, cur);
            let lines = ui::detail_lines(app, cur, c);
            let at: int = if d.description.len() > 0 {
                5
            } else {
                3
            };
            &&& d.description.len() > 0 ==> looks(lines[3]) == seq![in_color(c.text)]
            &&& d.url.len() > 0 ==> looks(lines[at]) == seq![in_color(c.blue)]
        }),
{
    let d = ui::detail_of(app, cur);
    let lines = ui::detail_lines(app, cur, c);
    let at: int = if d.description.len() > 0 {
        5
    } else {
        3
    };
    if d.description.len() > 0 {
        assert(looks(lines[3]) =~= seq![in_color(c.text)]);
    }
    if d.url.len() > 0 {
        assert(looks(lines[at]) =~= seq![in_color(c.blue)]);
    }
}

/// The tabs, the query and the status are written in the colours of their
/// parts: the active tab on the accent, the marks in green.
pub proof fn law_bar_colors(app: AppView, c: ThemeView)
    ensures
        looks(ui::tabs_line(app, c)) == seq![
            as_is(),
            if app.tab == Tab::Downloaded {
                on_fill(c.base, c.mauve)
            } else {
                in_color(c.overlay0)
            },
            as_is(),
            if app.tab == Tab::Remote {
                on_fill(c.base, c.mauve)
            } else {
                in_color(c.overlay0)
            },
            as_is(),
            in_color(c.surface1),
        ],
        app.query.len() == 0 ==> looks(ui::search_line(app, c)) == seq![
            in_color(c.mauve),
            in_color(c.surface1),
        ],
        app.query.len() > 0 ==> looks(ui::search_line(app, c)) == seq![
            in_color(c.mauve),
            in_bold(c.text),
            in_color(c.mauve),
            in_color(c.overlay0),
        ],
        looks(ui::status_line(app, c)) == seq![in_color(c.subtext0)] + given(
            app.marked.len() > 0,
            seq![in_bold(c.green)],
        ) + seq![in_color(c.overlay0), in_color(c.surface1)],
{
    assert(looks(ui::tabs_line(app, c)) =~= seq![
        as_is(),
        if app.tab == Tab::Downloaded {
            on_fill(c.base, c.mauve)
        } else {
            in_color(c.overlay0)
        },
        as_is(),
        if app.tab == Tab::Remote {
            on_fill(c.base, c.mauve)
        } else {
            in_color(c.overlay0)
        },
        as_is(),
        in_color(c.surface1),
    ]);
    if app.query.len() == 0 {
        assert(looks(ui::search_line(app, c)) =~= seq![in_color(c.mauve), in_color(c.surface1)]);
    } else {
        assert(looks(ui::search_line(app, c)) =~= seq![
            in_color(c.mauve),
            in_bold(c.text),
            in_color(c.mauve),
            in_color(c.overlay0),
        ]);
    }
    assert(looks(ui::status_line(app, c)) =~= seq![in_color(c.subtext0)] + given(
        app.marked.len() > 0,
        seq![in_bold(c.green)],
    ) + seq![in_color(c.overlay0), in_color(c.surface1)]);
}

/// The headings of a plan are written in the colours of what they list:
/// orphans in yellow, leftovers in $HOME in peach.
pub proof fn law_plan_colors(plan: MegaPlanView, c: ThemeView)
    requires
        plan.error is None,
    ensures
        ({
            let lines = ui::mega_lines(plan, c);
            let n = |list: Seq<Seq<char>>|
                if list.len() == 0 {
                    3
                } else {
                    2 + list.len() as int
                };
            let a = 1 + n(plan.cascade);
            let b = a + n(plan.orphans);
            let d = b + n(plan.home_paths);
            let e = d + n(ops::remnants(plan.system_leftovers));
            &&& looks(lines[0]) == seq![in_bold(c.red)]
            &&& looks(lines[2]) == seq![in_bold(c.text)]
            &&& looks(lines[a + 1]) == seq![in_bold(c.yellow)]
            &&& looks(lines[b + 1]) == seq![in_bold(c.peach)]
            &&& looks(lines[d + 1]) == seq![in_bold(c.overlay0)]
            &&& looks(lines[e + 1]) == seq![in_bold(c.overlay0)]
        }),
{
    let lines = ui::mega_lines(plan, c);
    let n = |list: Seq<Seq<char>>|
        if list.len() == 0 {
            3
        } else {
            2 + list.len() as int
        };
    let a = 1 + n(plan.cascade);
    let b = a + n(plan.orphans);
    let d = b + n(plan.home_paths);
    let e = d + n(ops::remnants(plan.system_leftovers));
    assert(looks(lines[0]) =~= seq![in_bold(c.red)]);
    assert(looks(lines[2]) =~= seq![in_bold(c.text)]);
    assert(looks(lines[a + 1]) =~= seq![in_bold(c.yellow)]);
    assert(looks(lines[b + 1]) =~= seq![in_bold(c.peach)]);
    assert(looks(lines[d + 1]) =~= seq![in_bold(c.overlay0)]);
    assert(looks(lines[e + 1]) =~= seq![in_bold(c.overlay0)]);
}

/// Dialogs are drawn on the background of the theme: a deletion in the accent,
/// a mega delete in red, what landed in green.
pub proof fn law_frames(app: AppView, c: ThemeView, area: Rect, rows: Seq<Rect>)
    requires
        !(app.overlay is Closed),
    ensures
        ({
            let frame = ui::overlay_panes(app, c, area, rows)[0].border;
            &&& frame is Some
            &&& frame->0.fill == Some(c.base)
            &&& frame->0.color == (match app.overlay {
                OverlayView::MegaConfirm { .. } => c.red,
                OverlayView::Installed { .. } => c.green,
                _ => c.mauve,
            })
            &&& frame->0.title is None <==> app.overlay is Busy
            &&& app.overlay is DeleteChoice ==> frame->0.title->0.text == " Delete "@
            &&& frame->0.title matches Some(title) ==> title.style == in_bold(frame->0.color)
        }),
{
}

/// The list and the details are framed alike, with titles in the accent.
pub proof fn law_main_frames(app: AppView, c: ThemeView, area: Rect)
    ensures
        ui::list_pane(app, c, area).border.color == c.surface0,
        ui::list_pane(app, c, area).border.title is Some,
        ui::list_pane(app, c, area).border.title->0.style == in_bold(c.mauve),
        ui::detail_pane(app, c, area).border is Some,
        ui::detail_pane(app, c, area).border->0.color == c.surface0,
        ui::detail_pane(app, c, area).border->0.title is Some,
        ui::detail_pane(app, c, area).border->0.title->0.text == " Details "@,
        ui::detail_pane(app, c, area).border->0.title->0.style == in_bold(c.mauve),
{
}

} // verus!
