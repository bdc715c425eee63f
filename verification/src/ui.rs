//! What is on the screen: list on the left, details on the right, tabs and
//! the search box at the bottom, and at times a dialog over them.
//!
//! A screen is worked out here as lists, panes and lines, to be handed to the
//! terminal as they are.

use vstd::prelude::*;

use crate::app::App;
use crate::app::Overlay;
use crate::app::Tab;
use crate::layout;
use crate::layout::Rect;
use crate::model;
use crate::model::AppView;
use crate::model::OverlayView;
use crate::ops;
use crate::ops::MegaPlan;
use crate::ops::MegaPlanView;
use crate::pacman;
use crate::pacman::Pkg;
use crate::pacman::PkgView;
use crate::text;
use crate::theme::Color;
use crate::theme::Theme;
use crate::theme::ThemeView;

verus! {

// ---------------------------------------------------------------------------
// Text
// ---------------------------------------------------------------------------

/// How a text is shown.
#[derive(Debug, Clone, Copy, PartialEq, Eq)]
pub struct Style {
    pub fg: Option<Color>,
    pub bg: Option<Color>,
    pub bold: bool,
}

/// The style that changes nothing.
pub open spec fn plain() -> Style {
    Style { fg: None, bg: None, bold: false }
}

/// A colour.
pub open spec fn ink(c: Color) -> Style {
    Style { fg: Some(c), bg: None, bold: false }
}

/// A colour in bold.
pub open spec fn strong(c: Color) -> Style {
    Style { fg: Some(c), bg: None, bold: true }
}

/// A bold text on a background.
pub open spec fn chip(fg: Color, bg: Color) -> Style {
    Style { fg: Some(fg), bg: Some(bg), bold: true }
}

fn no_style() -> (r: Style)
    ensures
        r == plain(),
{
    Style { fg: None, bg: None, bold: false }
}

fn fg(c: Color) -> (r: Style)
    ensures
        r == ink(c),
{
    Style { fg: Some(c), bg: None, bold: false }
}

fn bold(c: Color) -> (r: Style)
    ensures
        r == strong(c),
{
    Style { fg: Some(c), bg: None, bold: true }
}

/// A piece of a line in one style.
#[derive(Debug)]
pub struct Span {
    pub text: String,
    pub style: Style,
}

/// The contents of a `Span`.
#[verifier::ext_equal]
pub struct SpanView {
    pub text: Seq<char>,
    pub style: Style,
}

impl View for Span {
    type V = SpanView;

    open spec fn view(&self) -> SpanView {
        SpanView { text: self.text@, style: self.style }
    }
}

/// A piece of a line.
pub open spec fn piece(text: Seq<char>, style: Style) -> SpanView {
    SpanView { text, style }
}

/// The contents of the pieces of a line.
pub open spec fn span_views(spans: Seq<Span>) -> Seq<SpanView> {
    Seq::new(spans.len(), |i: int| spans[i]@)
}

fn span(text: &str, style: Style) -> (r: Span)
    ensures
        r@ == piece(text@, style),
{
    Span { text: text.to_string(), style }
}

/// Adds a piece.
fn add_span(spans: &mut Vec<Span>, s: Span)
    ensures
        span_views(final(spans)@) == span_views(old(spans)@).push(s@),
{
    spans.push(s);
    assert(span_views(spans@) =~= span_views(old(spans)@).push(s@));
}

fn no_spans() -> (r: Vec<Span>)
    ensures
        span_views(r@) == Seq::<SpanView>::empty(),
{
    let r: Vec<Span> = Vec::new();
    assert(span_views(r@) =~= seq![]);
    r
}

/// A line.
#[derive(Debug)]
pub enum Line {
    /// A text in one style
    Text { text: String, style: Style },
    /// Pieces
    Spans(Vec<Span>),
    /// Pieces at the right
    Right(Vec<Span>),
}

/// The contents of a `Line`.
#[verifier::ext_equal]
pub enum LineView {
    Text { text: Seq<char>, style: Style },
    Spans(Seq<SpanView>),
    Right(Seq<SpanView>),
}

impl View for Line {
    type V = LineView;

    open spec fn view(&self) -> LineView {
        match *self {
            Line::Text { text, style } => LineView::Text { text: text@, style },
            Line::Spans(spans) => LineView::Spans(span_views(spans@)),
            Line::Right(spans) => LineView::Right(span_views(spans@)),
        }
    }
}

/// A line of one text.
pub open spec fn line_of(text: Seq<char>, style: Style) -> LineView {
    LineView::Text { text, style }
}

/// An empty line.
pub open spec fn blank() -> LineView {
    line_of(seq![], plain())
}

/// The contents of lines.
pub open spec fn line_views(lines: Seq<Line>) -> Seq<LineView> {
    Seq::new(lines.len(), |i: int| lines[i]@)
}

fn no_lines() -> (r: Vec<Line>)
    ensures
        line_views(r@) == Seq::<LineView>::empty(),
{
    let r: Vec<Line> = Vec::new();
    assert(line_views(r@) =~= seq![]);
    r
}

/// Adds a line.
fn add_line(lines: &mut Vec<Line>, l: Line)
    ensures
        line_views(final(lines)@) == line_views(old(lines)@).push(l@),
{
    lines.push(l);
    assert(line_views(lines@) =~= line_views(old(lines)@).push(l@));
}

/// Adds a line of one text.
fn add_text(lines: &mut Vec<Line>, text: String, style: Style)
    ensures
        line_views(final(lines)@) == line_views(old(lines)@).push(line_of(text@, style)),
{
    add_line(lines, Line::Text { text, style });
}

/// Adds an empty line.
fn add_blank(lines: &mut Vec<Line>)
    ensures
        line_views(final(lines)@) == line_views(old(lines)@).push(blank()),
{
    add_text(lines, String::new(), no_style());
}

/// Adds lines.
fn add_lines(lines: &mut Vec<Line>, more: Vec<Line>)
    ensures
        line_views(final(lines)@) == line_views(old(lines)@) + line_views(more@),
{
    let mut more = more;
    let ghost added = line_views(more@);
    lines.append(&mut more);
    assert(line_views(lines@) =~= line_views(old(lines)@) + added);
}

/// The texts of a list, each indented and in a style.
pub open spec fn item_lines(items: Seq<Seq<char>>, style: Style) -> Seq<LineView> {
    Seq::new(items.len(), |i: int| line_of("  "@ + items[i], style))
}

/// Shows the texts of a list, each indented and in a style.
fn items(list: &Vec<String>, style: Style) -> (r: Vec<Line>)
    ensures
        line_views(r@) == item_lines(text::texts(list@), style),
{
    let mut out: Vec<Line> = no_lines();
    let ghost all = item_lines(text::texts(list@), style);
    for i in 0..list.len()
        invariant
            all == item_lines(text::texts(list@), style),
            line_views(out@) == all.take(i as int),
    {
        add_text(&mut out, text::concat("  ", list[i].as_str()), style);
        assert(all.take(i + 1) =~= all.take(i as int).push(all[i as int]));
    }
    assert(all.take(list@.len() as int) =~= all);
    out
}

// ---------------------------------------------------------------------------
// Panes
// ---------------------------------------------------------------------------

/// A border.
#[derive(Debug)]
pub struct Border {
    pub color: Color,
    /// The background of all that it surrounds
    pub fill: Option<Color>,
    pub title: Option<Span>,
}

/// The contents of a `Border`.
#[verifier::ext_equal]
pub struct BorderView {
    pub color: Color,
    pub fill: Option<Color>,
    pub title: Option<SpanView>,
}

impl View for Border {
    type V = BorderView;

    open spec fn view(&self) -> BorderView {
        BorderView {
            color: self.color,
            fill: self.fill,
            title: match self.title {
                Some(t) => Some(t@),
                None => None,
            },
        }
    }
}

/// A part of the screen that shows lines.
#[derive(Debug)]
pub struct Pane {
    pub area: Rect,
    /// Whether what lies below is wiped out first
    pub clear: bool,
    pub border: Option<Border>,
    pub lines: Vec<Line>,
    /// Whether long lines are broken
    pub wrap: bool,
    /// How many lines are left out at the top
    pub scroll: u16,
    pub centered: bool,
}

/// The contents of a `Pane`.
#[verifier::ext_equal]
pub struct PaneView {
    pub area: Rect,
    pub clear: bool,
    pub border: Option<BorderView>,
    pub lines: Seq<LineView>,
    pub wrap: bool,
    pub scroll: u16,
    pub centered: bool,
}

/// The contents of an optional border.
pub open spec fn border_view(border: Option<Border>) -> Option<BorderView> {
    match border {
        Some(b) => Some(b@),
        None => None,
    }
}

impl View for Pane {
    type V = PaneView;

    open spec fn view(&self) -> PaneView {
        PaneView {
            area: self.area,
            clear: self.clear,
            border: border_view(self.border),
            lines: line_views(self.lines@),
            wrap: self.wrap,
            scroll: self.scroll,
            centered: self.centered,
        }
    }
}

/// The contents of panes.
pub open spec fn pane_views(panes: Seq<Pane>) -> Seq<PaneView> {
    Seq::new(panes.len(), |i: int| panes[i]@)
}

/// Lines without a border.
pub open spec fn bare(area: Rect, lines: Seq<LineView>) -> PaneView {
    PaneView {
        area,
        clear: false,
        border: None,
        lines,
        wrap: false,
        scroll: 0,
        centered: false,
    }
}

fn bare_pane(area: Rect, lines: Vec<Line>) -> (r: Pane)
    ensures
        r@ == bare(area, line_views(lines@)),
{
    Pane { area, clear: false, border: None, lines, wrap: false, scroll: 0, centered: false }
}

/// A pane of one line without a border.
fn line_pane(area: Rect, line: Line) -> (r: Pane)
    ensures
        r@ == bare(area, seq![line@]),
{
    let mut lines: Vec<Line> = no_lines();
    add_line(&mut lines, line);
    assert(line_views(lines@) =~= seq![line@]);
    bare_pane(area, lines)
}

/// A list with a cursor.
#[derive(Debug)]
pub struct ListPane {
    pub area: Rect,
    pub border: Border,
    pub rows: Vec<Line>,
    /// How the row under the cursor is shown
    pub highlight: Style,
}

/// The contents of a `ListPane`.
#[verifier::ext_equal]
pub struct ListPaneView {
    pub area: Rect,
    pub border: BorderView,
    pub rows: Seq<LineView>,
    pub highlight: Style,
}

impl View for ListPane {
    type V = ListPaneView;

    open spec fn view(&self) -> ListPaneView {
        ListPaneView {
            area: self.area,
            border: self.border@,
            rows: line_views(self.rows@),
            highlight: self.highlight,
        }
    }
}

// ---------------------------------------------------------------------------
// The list
// ---------------------------------------------------------------------------

/// The title of the list.
pub open spec fn list_title(app: AppView) -> Seq<char> {
    match app.tab {
        Tab::Downloaded => text::counted(" Installed ("@, app.list().len(), ") "@),
        Tab::Remote => text::counted(" Results ("@, app.list().len(), ") "@),
    }
}

/// A package in the list.
pub open spec fn row_of(p: PkgView, marked: bool, tab: Tab, c: ThemeView) -> LineView {
    let front = seq![
        piece(
            if marked {
                "▐ "@
            } else {
                "  "@
            },
            ink(c.green),
        ),
        piece(
            p.name,
            ink(
                if p.installed {
                    c.text
                } else {
                    c.subtext0
                },
            ),
        ),
        piece(" "@, plain()),
        piece(p.version, ink(c.overlay0)),
    ];
    let aur = if p.is_aur() {
        seq![piece("  aur"@, ink(c.peach))]
    } else {
        seq![]
    };
    let here = if p.installed && tab == Tab::Remote {
        seq![piece("  installed"@, ink(c.green))]
    } else {
        seq![]
    };
    LineView::Spans(front + aur + here)
}

/// The packages in the list.
pub open spec fn rows_of(app: AppView, c: ThemeView) -> Seq<LineView> {
    Seq::new(
        app.list().len(),
        |i: int|
            row_of(app.list()[i], app.marked.contains(app.list()[i].name), app.tab, c),
    )
}

/// The list with its title.
pub open spec fn list_pane(app: AppView, c: ThemeView, area: Rect) -> ListPaneView {
    ListPaneView {
        area,
        border: BorderView {
            color: c.surface0,
            fill: None,
            title: Some(piece(list_title(app), strong(c.mauve))),
        },
        rows: rows_of(app, c),
        highlight: Style { fg: None, bg: Some(c.selected), bold: true },
    }
}

/// Shows a package in the list.
fn row(p: &Pkg, marked: bool, tab: Tab, c: &Theme) -> (r: Line)
    ensures
        r@ == row_of(p@, marked, tab, c@),
{
    let mut spans = no_spans();
    add_span(
        &mut spans,
        span(
            if marked {
                "▐ "
            } else {
                "  "
            },
            fg(c.green),
        ),
    );
    add_span(
        &mut spans,
        span(
            p.name.as_str(),
            fg(
                if p.installed {
                    c.text
                } else {
                    c.subtext0
                },
            ),
        ),
    );
    add_span(&mut spans, span(" ", no_style()));
    add_span(&mut spans, span(p.version.as_str(), fg(c.overlay0)));
    if p.is_aur() {
        add_span(&mut spans, span("  aur", fg(c.peach)));
    }
    if p.installed && tab == Tab::Remote {
        add_span(&mut spans, span("  installed", fg(c.green)));
    }
    let r = Line::Spans(spans);
    assert(r@ =~= row_of(p@, marked, tab, c@));
    r
}

/// The list on the left.
pub fn draw_list(app: &App, c: &Theme, area: Rect) -> (r: ListPane)
    requires
        app.wf(),
    ensures
        r@ == list_pane(app@, c@, area),
{
    let list = app.list();
    let n = list.len();
    let title = match app.tab {
        Tab::Downloaded => text::count(" Installed (", n, ") "),
        Tab::Remote => text::count(" Results (", n, ") "),
    };
    let mut rows: Vec<Line> = no_lines();
    let ghost all = rows_of(app@, c@);
    for i in 0..n
        invariant
            app.wf(),
            n == list@.len(),
            pacman::pkg_views(list@) == app@.list(),
            all == rows_of(app@, c@),
            line_views(rows@) == all.take(i as int),
    {
        assert(pacman::pkg_views(list@)[i as int] == list@[i as int]@);
        let marked = app.marked.contains(list[i].name.as_str());
        add_line(&mut rows, row(&list[i], marked, app.tab, c));
        assert(all.take(i + 1) =~= all.take(i as int).push(all[i as int]));
    }
    assert(all.take(n as int) =~= all);
    ListPane {
        area,
        border: Border {
            color: c.surface0,
            fill: None,
            title: Some(Span { text: title, style: bold(c.mauve) }),
        },
        rows,
        highlight: Style { fg: None, bg: Some(c.selected), bold: true },
    }
}

// ---------------------------------------------------------------------------
// The details
// ---------------------------------------------------------------------------

/// The border of the details.
pub open spec fn detail_border(title: Seq<char>, c: ThemeView) -> BorderView {
    BorderView { color: c.surface0, fill: None, title: Some(piece(title, strong(c.mauve))) }
}

fn detail_block(title: &str, c: &Theme) -> (r: Border)
    ensures
        r@ == detail_border(title@, c@),
{
    Border { color: c.surface0, fill: None, title: Some(span(title, bold(c.mauve))) }
}

/// The heading of a section.
pub open spec fn section_lines(title: Seq<char>, c: ThemeView) -> Seq<LineView> {
    seq![blank(), line_of(title, strong(c.blue))]
}

fn section(lines: &mut Vec<Line>, title: String, c: &Theme)
    ensures
        line_views(final(lines)@) == line_views(old(lines)@) + section_lines(title@, c@),
{
    add_blank(lines);
    add_text(lines, title, bold(c.blue));
    assert(line_views(lines@) =~= line_views(old(lines)@) + section_lines(title@, c@));
}

/// Name and version.
pub open spec fn name_line(d: PkgView, c: ThemeView) -> LineView {
    LineView::Spans(
        seq![
            piece(d.name, strong(c.mauve)),
            piece("  "@, plain()),
            piece(d.version, ink(c.overlay0)),
        ],
    )
}

/// A badge behind a dot, unless there is none.
pub open spec fn badge(text: Option<Seq<char>>, style: Style) -> Seq<SpanView> {
    match text {
        Some(t) => seq![piece("  ·  "@, plain()), piece(t, style)],
        None => seq![],
    }
}

/// Where a package comes from, whether it is installed, its votes and size.
pub open spec fn badge_line(cur: PkgView, d: PkgView, c: ThemeView) -> LineView {
    let from = piece(
        if cur.is_aur() {
            "AUR"@
        } else {
            "repo"@
        },
        ink(
            if cur.is_aur() {
                c.peach
            } else {
                c.blue
            },
        ),
    );
    let here = badge(
        if cur.installed {
            Some("installed"@)
        } else {
            None
        },
        ink(c.green),
    );
    let votes = badge(
        match d.votes {
            Some(v) => Some(v + " votes"@),
            None => None,
        },
        ink(c.yellow),
    );
    let size = badge(
        if d.size.len() > 0 {
            Some(d.size)
        } else {
            None
        },
        ink(c.overlay0),
    );
    LineView::Spans(seq![from] + here + votes + size)
}

/// A text with an empty line below, unless it is empty.
pub open spec fn paragraph(text: Seq<char>, color: Color) -> Seq<LineView> {
    if text.len() == 0 {
        seq![]
    } else {
        seq![line_of(text, ink(color)), blank()]
    }
}

/// A package that is required, and whether it is installed.
pub open spec fn require_line(raw: Seq<char>, have: bool, c: ThemeView) -> LineView {
    LineView::Spans(
        seq![
            piece(
                if have {
                    "  ✓ "@
                } else {
                    "  ✗ "@
                },
                ink(
                    if have {
                        c.green
                    } else {
                        c.red
                    },
                ),
            ),
            piece(
                raw,
                ink(
                    if have {
                        c.subtext0
                    } else {
                        c.text
                    },
                ),
            ),
            piece(
                if have {
                    seq![]
                } else {
                    "   will be installed"@
                },
                ink(c.overlay0),
            ),
        ],
    )
}

/// A package that is optional, and whether it is installed.
pub open spec fn optional_line(raw: Seq<char>, have: bool, c: ThemeView) -> LineView {
    LineView::Spans(
        seq![
            piece(
                if have {
                    "  ✓ "@
                } else {
                    "  · "@
                },
                ink(
                    if have {
                        c.green
                    } else {
                        c.overlay0
                    },
                ),
            ),
            piece(raw, ink(c.subtext0)),
        ],
    )
}

/// Whether a dependency is installed, whatever version it asks for.
pub open spec fn is_installed(raw: Seq<char>, names: Set<Seq<char>>) -> bool {
    names.contains(pacman::dep_name_of(raw))
}

/// The packages that are required.
pub open spec fn require_lines(
    depends: Seq<Seq<char>>,
    names: Set<Seq<char>>,
    c: ThemeView,
) -> Seq<LineView> {
    if depends.len() == 0 {
        seq![line_of("  none"@, ink(c.overlay0))]
    } else {
        Seq::new(
            depends.len(),
            |i: int| require_line(depends[i], is_installed(depends[i], names), c),
        )
    }
}

/// The packages that are optional.
pub open spec fn optional_lines(
    optdepends: Seq<Seq<char>>,
    names: Set<Seq<char>>,
    c: ThemeView,
) -> Seq<LineView> {
    if optdepends.len() == 0 {
        seq![]
    } else {
        section_lines("Optional"@, c) + Seq::new(
            optdepends.len(),
            |i: int| optional_line(optdepends[i], is_installed(optdepends[i], names), c),
        )
    }
}

/// What requires an installed package, and the files it owns.
pub open spec fn owner_lines(
    required_by: Seq<Seq<char>>,
    files: Seq<Seq<char>>,
    c: ThemeView,
) -> Seq<LineView> {
    let users = if required_by.len() == 0 {
        seq![line_of("  nothing"@, ink(c.overlay0))]
    } else {
        item_lines(required_by, ink(c.subtext0))
    };
    let owned = if files.len() == 0 {
        seq![line_of("  reading…"@, ink(c.overlay0))]
    } else {
        item_lines(files, ink(c.overlay0))
    };
    section_lines("Required by"@, c) + users + section_lines(
        text::counted("Files ("@, files.len(), ")"@),
        c,
    ) + owned
}

/// What is known of the package under the cursor: what the list knows of it,
/// until the full record arrives.
pub open spec fn detail_of(app: AppView, cur: PkgView) -> PkgView {
    match app.details {
        Some(d) => d,
        None => cur,
    }
}

/// The details of the package under the cursor.
pub open spec fn detail_lines(app: AppView, cur: PkgView, c: ThemeView) -> Seq<LineView> {
    let d = detail_of(app, cur);
    let loading = if app.details is None && !cur.installed {
        seq![line_of("  loading…"@, ink(c.overlay0))]
    } else {
        seq![]
    };
    let owner = if cur.installed {
        owner_lines(d.required_by, app.files, c)
    } else {
        seq![]
    };
    seq![name_line(d, c), badge_line(cur, d, c), blank()] + paragraph(d.description, c.text)
        + paragraph(d.url, c.blue) + loading + section_lines("Requires"@, c) + require_lines(
        d.depends,
        app.installed_names,
        c,
    ) + optional_lines(d.optdepends, app.installed_names, c) + owner
}

/// The right pane.
pub open spec fn detail_pane(app: AppView, c: ThemeView, area: Rect) -> PaneView {
    match app.current() {
        None => PaneView {
            border: Some(detail_border(" Details "@, c)),
            ..bare(area, seq![])
        },
        Some(cur) => PaneView {
            border: Some(detail_border(" Details "@, c)),
            wrap: true,
            scroll: app.detail_scroll,
            ..bare(area, detail_lines(app, cur, c))
        },
    }
}

/// Adds a badge behind a dot.
fn add_badge(spans: &mut Vec<Span>, text: String, style: Style)
    ensures
        span_views(final(spans)@) == span_views(old(spans)@) + badge(Some(text@), style),
{
    add_span(spans, span("  ·  ", no_style()));
    add_span(spans, Span { text, style });
    assert(span_views(spans@) =~= span_views(old(spans)@) + badge(Some(text@), style));
}

/// Shows name and version.
fn named(d: &Pkg, c: &Theme) -> (r: Line)
    ensures
        r@ == name_line(d@, c@),
{
    let mut spans = no_spans();
    add_span(&mut spans, span(d.name.as_str(), bold(c.mauve)));
    add_span(&mut spans, span("  ", no_style()));
    add_span(&mut spans, span(d.version.as_str(), fg(c.overlay0)));
    let r = Line::Spans(spans);
    assert(r@ =~= name_line(d@, c@));
    r
}

/// Shows where a package comes from, whether it is installed, its votes and
/// size.
fn badges(cur: &Pkg, d: &Pkg, c: &Theme) -> (r: Line)
    ensures
        r@ == badge_line(cur@, d@, c@),
{
    let mut spans = no_spans();
    add_span(
        &mut spans,
        span(
            if cur.is_aur() {
                "AUR"
            } else {
                "repo"
            },
            fg(
                if cur.is_aur() {
                    c.peach
                } else {
                    c.blue
                },
            ),
        ),
    );
    let ghost from = span_views(spans@);
    if cur.installed {
        add_badge(&mut spans, "installed".to_string(), fg(c.green));
    }
    if let Some(v) = &d.votes {
        add_badge(&mut spans, text::concat(v.as_str(), " votes"), fg(c.yellow));
    }
    if !d.size.as_str().is_empty() {
        add_badge(&mut spans, d.size.clone(), fg(c.overlay0));
    }
    let r = Line::Spans(spans);
    assert(r@ =~= badge_line(cur@, d@, c@));
    r
}

/// Adds a text with an empty line below, unless it is empty.
fn add_paragraph(lines: &mut Vec<Line>, s: &String, color: Color)
    ensures
        line_views(final(lines)@) == line_views(old(lines)@) + paragraph(s@, color),
{
    if !s.as_str().is_empty() {
        add_text(lines, s.clone(), fg(color));
        add_blank(lines);
    }
    assert(line_views(lines@) =~= line_views(old(lines)@) + paragraph(s@, color));
}

/// Shows a package that is required.
fn requirement(raw: &str, have: bool, c: &Theme) -> (r: Line)
    ensures
        r@ == require_line(raw@, have, c@),
{
    let mut spans = no_spans();
    let mut note: String = String::new();
    if have {
        add_span(&mut spans, span("  ✓ ", fg(c.green)));
        add_span(&mut spans, span(raw, fg(c.subtext0)));
    } else {
        add_span(&mut spans, span("  ✗ ", fg(c.red)));
        add_span(&mut spans, span(raw, fg(c.text)));
        note = "   will be installed".to_string();
    }
    add_span(&mut spans, Span { text: note, style: fg(c.overlay0) });
    let r = Line::Spans(spans);
    assert(r@ =~= require_line(raw@, have, c@));
    r
}

/// Shows a package that is optional.
fn option(raw: &str, have: bool, c: &Theme) -> (r: Line)
    ensures
        r@ == optional_line(raw@, have, c@),
{
    let mut spans = no_spans();
    if have {
        add_span(&mut spans, span("  ✓ ", fg(c.green)));
    } else {
        add_span(&mut spans, span("  · ", fg(c.overlay0)));
    }
    add_span(&mut spans, span(raw, fg(c.subtext0)));
    let r = Line::Spans(spans);
    assert(r@ =~= optional_line(raw@, have, c@));
    r
}

/// Whether a dependency is installed.
fn have(app: &App, raw: &String) -> (r: bool)
    requires
        app.wf(),
    ensures
        r == is_installed(raw@, app@.installed_names),
{
    app.installed_names.contains(pacman::dep_name(raw.as_str()))
}

/// Shows the packages that are required.
fn requirements(app: &App, d: &Pkg, c: &Theme) -> (r: Vec<Line>)
    requires
        app.wf(),
    ensures
        line_views(r@) == require_lines(d@.depends, app@.installed_names, c@),
{
    let mut out: Vec<Line> = no_lines();
    let ghost all = require_lines(d@.depends, app@.installed_names, c@);
    let n = d.depends.len();
    assert(d@.depends.len() == n);
    if n == 0 {
        add_text(&mut out, "  none".to_string(), fg(c.overlay0));
        assert(line_views(out@) =~= all);
        return out;
    }
    for i in 0..n
        invariant
            app.wf(),
            n == d.depends@.len(),
            n > 0,
            all == require_lines(d@.depends, app@.installed_names, c@),
            line_views(out@) == all.take(i as int),
    {
        let raw = &d.depends[i];
        add_line(&mut out, requirement(raw.as_str(), have(app, raw), c));
        assert(all.take(i + 1) =~= all.take(i as int).push(all[i as int]));
    }
    assert(all.take(n as int) =~= all);
    out
}

/// Shows the packages that are optional.
fn options(app: &App, d: &Pkg, c: &Theme) -> (r: Vec<Line>)
    requires
        app.wf(),
    ensures
        line_views(r@) == optional_lines(d@.optdepends, app@.installed_names, c@),
{
    let mut out: Vec<Line> = no_lines();
    let ghost all = optional_lines(d@.optdepends, app@.installed_names, c@);
    let n = d.optdepends.len();
    assert(d@.optdepends.len() == n);
    if n == 0 {
        return out;
    }
    section(&mut out, "Optional".to_string(), c);
    assert(line_views(out@) =~= all.take(2));
    for i in 0..n
        invariant
            app.wf(),
            n == d.optdepends@.len(),
            n > 0,
            all == optional_lines(d@.optdepends, app@.installed_names, c@),
            line_views(out@) == all.take(i + 2),
    {
        let raw = &d.optdepends[i];
        add_line(&mut out, option(raw.as_str(), have(app, raw), c));
        assert(all.take(i + 3) =~= all.take(i + 2).push(all[i + 2]));
    }
    assert(all.take(n + 2) =~= all);
    out
}

/// Shows what requires an installed package, and the files it owns.
fn ownership(required_by: &Vec<String>, files: &Vec<String>, c: &Theme) -> (r: Vec<Line>)
    ensures
        line_views(r@) == owner_lines(text::texts(required_by@), text::texts(files@), c@),
{
    let mut out: Vec<Line> = no_lines();
    section(&mut out, "Required by".to_string(), c);
    if required_by.is_empty() {
        add_text(&mut out, "  nothing".to_string(), fg(c.overlay0));
    } else {
        add_lines(&mut out, items(required_by, fg(c.subtext0)));
    }
    section(&mut out, text::count("Files (", files.len(), ")"), c);
    if files.is_empty() {
        add_text(&mut out, "  reading…".to_string(), fg(c.overlay0));
    } else {
        add_lines(&mut out, items(files, fg(c.overlay0)));
    }
    assert(line_views(out@) =~= owner_lines(
        text::texts(required_by@),
        text::texts(files@),
        c@,
    ));
    out
}

/// The details on the right.
pub fn draw_details(app: &App, c: &Theme, area: Rect) -> (r: Pane)
    requires
        app.wf(),
    ensures
        r@ == detail_pane(app@, c@, area),
{
    let border = Some(detail_block(" Details ", c));
    let cur = match app.current() {
        Some(cur) => cur,
        None => {
            return Pane { border, ..bare_pane(area, no_lines()) };
        },
    };
    // Fall back to what the list knows until the full record arrives
    let d = match &app.details {
        Some(d) => d,
        None => cur,
    };
    let mut lines: Vec<Line> = no_lines();
    add_line(&mut lines, named(d, c));
    add_line(&mut lines, badges(cur, d, c));
    add_blank(&mut lines);
    add_paragraph(&mut lines, &d.description, c.text);
    add_paragraph(&mut lines, &d.url, c.blue);
    if app.details.is_none() && !cur.installed {
        add_text(&mut lines, "  loading…".to_string(), fg(c.overlay0));
    }
    // Dependencies, marking which are already installed
    section(&mut lines, "Requires".to_string(), c);
    add_lines(&mut lines, requirements(app, d, c));
    add_lines(&mut lines, options(app, d, c));
    // What depends on this package
    if cur.installed {
        add_lines(&mut lines, ownership(&d.required_by, &app.files, c));
    }
    assert(line_views(lines@) =~= detail_lines(app@, cur@, c@));
    Pane { border, wrap: true, scroll: app.detail_scroll, ..bare_pane(area, lines) }
}

// ---------------------------------------------------------------------------
// Tabs, search and status
// ---------------------------------------------------------------------------

/// A tab.
pub open spec fn tab_piece(tab: Tab, on: bool, c: ThemeView) -> SpanView {
    piece(
        " "@ + tab.title() + " "@,
        if on {
            chip(c.base, c.mauve)
        } else {
            ink(c.overlay0)
        },
    )
}

/// The tabs above the search bar.
pub open spec fn tabs_line(app: AppView, c: ThemeView) -> LineView {
    LineView::Spans(
        seq![
            piece(" "@, plain()),
            tab_piece(Tab::Downloaded, app.tab == Tab::Downloaded, c),
            piece(" "@, plain()),
            tab_piece(Tab::Remote, app.tab == Tab::Remote, c),
            piece(" "@, plain()),
            piece("  ⇥ Tab"@, ink(c.surface1)),
        ],
    )
}

fn tab_span(tab: Tab, on: bool, c: &Theme) -> (r: Span)
    ensures
        r@ == tab_piece(tab, on, c@),
{
    let label = text::concat3(" ", tab.label(), " ");
    Span {
        text: label,
        style: if on {
            Style { fg: Some(c.base), bg: Some(c.mauve), bold: true }
        } else {
            fg(c.overlay0)
        },
    }
}

/// The tabs above the search bar, switched with Tab.
pub fn draw_tabs(app: &App, c: &Theme, area: Rect) -> (r: Pane)
    ensures
        r@ == bare(area, seq![tabs_line(app@, c@)]),
{
    let mut spans = no_spans();
    add_span(&mut spans, span(" ", no_style()));
    add_span(&mut spans, tab_span(Tab::Downloaded, app.tab == Tab::Downloaded, c));
    add_span(&mut spans, span(" ", no_style()));
    add_span(&mut spans, tab_span(Tab::Remote, app.tab == Tab::Remote, c));
    add_span(&mut spans, span(" ", no_style()));
    add_span(&mut spans, span("  ⇥ Tab", fg(c.surface1)));
    let line = Line::Spans(spans);
    assert(line@ =~= tabs_line(app@, c@));
    line_pane(area, line)
}

/// What stands in the search box.
pub open spec fn search_line(app: AppView, c: ThemeView) -> LineView {
    if app.query.len() == 0 {
        LineView::Spans(
            seq![
                piece("  "@, ink(c.mauve)),
                piece(
                    match app.tab {
                        Tab::Downloaded => "type to filter installed packages"@,
                        Tab::Remote => "type to search pacman + AUR"@,
                    },
                    ink(c.surface1),
                ),
            ],
        )
    } else {
        LineView::Spans(
            seq![
                piece("  "@, ink(c.mauve)),
                piece(app.query, strong(c.text)),
                piece("█"@, ink(c.mauve)),
                piece(
                    if app.search_pending {
                        " …"@
                    } else {
                        seq![]
                    },
                    ink(c.overlay0),
                ),
            ],
        )
    }
}

/// The search box.
pub open spec fn search_pane(app: AppView, c: ThemeView, area: Rect) -> PaneView {
    PaneView {
        border: Some(
            BorderView {
                color: if app.query.len() == 0 {
                    c.surface1
                } else {
                    c.mauve
                },
                fill: None,
                title: None,
            },
        ),
        ..bare(area, seq![search_line(app, c)])
    }
}

/// The search box.
pub fn draw_search(app: &App, c: &Theme, area: Rect) -> (r: Pane)
    ensures
        r@ == search_pane(app@, c@, area),
{
    let empty = app.query.as_str().is_empty();
    let mut spans = no_spans();
    add_span(&mut spans, span("  ", fg(c.mauve)));
    if empty {
        add_span(
            &mut spans,
            span(
                match app.tab {
                    Tab::Downloaded => "type to filter installed packages",
                    Tab::Remote => "type to search pacman + AUR",
                },
                fg(c.surface1),
            ),
        );
    } else {
        add_span(&mut spans, span(app.query.as_str(), bold(c.text)));
        add_span(&mut spans, span("█", fg(c.mauve)));
        let spinner = if app.search_pending {
            " …".to_string()
        } else {
            String::new()
        };
        add_span(&mut spans, Span { text: spinner, style: fg(c.overlay0) });
    }
    let line = Line::Spans(spans);
    assert(line@ =~= search_line(app@, c@));
    Pane {
        border: Some(
            Border {
                color: if empty {
                    c.surface1
                } else {
                    c.mauve
                },
                fill: None,
                title: None,
            },
        ),
        ..line_pane(area, line)
    }
}

/// What the keys do.
pub open spec fn help_of(tab: Tab) -> Seq<char> {
    match tab {
        Tab::Remote => "Tab switch · space mark · shift+space range · D install · Esc clear"@,
        Tab::Downloaded => "Tab switch · space mark · shift+space range · D delete · Esc quit"@,
    }
}

/// The status line: what happened, how many packages are marked, what the
/// keys do, and the active theme in brackets.
pub open spec fn status_line(app: AppView, c: ThemeView) -> LineView {
    let marked = if app.marked.len() > 0 {
        seq![piece(text::counted("· "@, app.marked.len(), " marked "@), strong(c.green))]
    } else {
        seq![]
    };
    LineView::Spans(
        seq![piece(" "@ + app.status + " "@, ink(c.subtext0))] + marked + seq![
            piece("· "@ + help_of(app.tab), ink(c.overlay0)),
            piece("  ["@ + c.name + "]"@, ink(c.surface1)),
        ],
    )
}

/// The status line.
pub fn draw_status(app: &App, c: &Theme, area: Rect) -> (r: Pane)
    requires
        app.wf(),
    ensures
        r@ == bare(area, seq![status_line(app@, c@)]),
{
    let marked = app.marked.len();
    let help = match app.tab {
        Tab::Remote => "Tab switch · space mark · shift+space range · D install · Esc clear",
        Tab::Downloaded => "Tab switch · space mark · shift+space range · D delete · Esc quit",
    };
    let mut spans = no_spans();
    add_span(
        &mut spans,
        Span { text: text::concat3(" ", app.status.as_str(), " "), style: fg(c.subtext0) },
    );
    if marked > 0 {
        add_span(
            &mut spans,
            Span { text: text::count("· ", marked, " marked "), style: bold(c.green) },
        );
    }
    add_span(&mut spans, Span { text: text::concat("· ", help), style: fg(c.overlay0) });
    add_span(
        &mut spans,
        Span { text: text::concat3("  [", c.name.as_str(), "]"), style: fg(c.surface1) },
    );
    let line = Line::Spans(spans);
    assert(line@ =~= status_line(app@, c@));
    line_pane(area, line)
}

// ---------------------------------------------------------------------------
// Dialogs
// ---------------------------------------------------------------------------

/// A button.
pub open spec fn button_piece(label: Seq<char>, on: bool, color: Color, c: ThemeView) -> SpanView {
    piece(
        "  "@ + label + "  "@,
        if on {
            chip(c.base, color)
        } else {
            ink(c.subtext0)
        },
    )
}

/// A right-aligned Cancel / Continue pair.
pub open spec fn buttons_line(
    selected: usize,
    accent: Color,
    enabled: bool,
    c: ThemeView,
) -> LineView {
    LineView::Right(
        seq![
            button_piece("Cancel"@, selected == 0, c.surface1, c),
            piece("  "@, plain()),
            button_piece(
                "Continue"@,
                selected == 1,
                if enabled {
                    accent
                } else {
                    c.surface1
                },
                c,
            ),
            piece(" "@, plain()),
        ],
    )
}

fn button_span(label: &str, on: bool, color: Color, c: &Theme) -> (r: Span)
    ensures
        r@ == button_piece(label@, on, color, c@),
{
    Span {
        text: text::concat3("  ", label, "  "),
        style: if on {
            Style { fg: Some(c.base), bg: Some(color), bold: true }
        } else {
            fg(c.subtext0)
        },
    }
}

/// A right-aligned Cancel / Continue pair.
pub fn buttons(selected: usize, accent: Color, enabled: bool, c: &Theme) -> (r: Line)
    ensures
        r@ == buttons_line(selected, accent, enabled, c@),
{
    let mut spans = no_spans();
    add_span(&mut spans, button_span("Cancel", selected == 0, c.surface1, c));
    add_span(&mut spans, span("  ", no_style()));
    let color = if enabled {
        accent
    } else {
        c.surface1
    };
    add_span(&mut spans, button_span("Continue", selected == 1, color, c));
    add_span(&mut spans, span(" ", no_style()));
    let r = Line::Right(spans);
    assert(r@ =~= buttons_line(selected, accent, enabled, c@));
    r
}

/// The border of a dialog.
pub open spec fn dialog_border(title: Option<Seq<char>>, color: Color, c: ThemeView) -> BorderView {
    BorderView {
        color,
        fill: Some(c.base),
        title: match title {
            Some(t) => Some(piece(t, strong(color))),
            None => None,
        },
    }
}

fn dialog_block(title: String, color: Color, c: &Theme) -> (r: Border)
    ensures
        r@ == dialog_border(Some(title@), color, c@),
{
    Border { color, fill: Some(c.base), title: Some(Span { text: title, style: bold(color) }) }
}

/// The dialog itself, wiped out and bordered.
pub open spec fn dialog_frame(area: Rect, border: BorderView, lines: Seq<LineView>) -> PaneView {
    PaneView { clear: true, border: Some(border), ..bare(area, lines) }
}

fn dialog(area: Rect, border: Border, lines: Vec<Line>) -> (r: Pane)
    ensures
        r@ == dialog_frame(area, border@, line_views(lines@)),
{
    Pane { clear: true, border: Some(border), ..bare_pane(area, lines) }
}

/// One of the two ways to delete.
pub open spec fn choice_lines(
    on: bool,
    label: Seq<char>,
    desc: Seq<char>,
    color: Color,
    c: ThemeView,
) -> Seq<LineView> {
    seq![
        LineView::Spans(
            seq![
                piece(
                    if on {
                        "  ▸ "@
                    } else {
                        "    "@
                    },
                    ink(color),
                ),
                piece(
                    label,
                    if on {
                        strong(color)
                    } else {
                        ink(c.subtext0)
                    },
                ),
            ],
        ),
        line_of("      "@ + desc, ink(c.overlay0)),
        blank(),
    ]
}

/// The two ways to delete.
pub open spec fn delete_lines(label: Seq<char>, cursor: usize, c: ThemeView) -> Seq<LineView> {
    seq![
        blank(),
        LineView::Spans(seq![piece("  "@, plain()), piece(label, strong(c.text))]),
        blank(),
    ] + choice_lines(
        cursor == 0,
        "Normal delete"@,
        "only this package, dependencies and configs stay"@,
        c.blue,
        c,
    ) + choice_lines(
        cursor == 1,
        "MEGA delete"@,
        "package + unused deps + home leftovers + .pacsave + cache"@,
        c.red,
        c,
    ) + seq![line_of("  ↑↓ choose · Enter confirm · Esc cancel"@, ink(c.overlay0))]
}

/// The dialog with the two ways to delete.
pub open spec fn delete_pane(label: Seq<char>, cursor: usize, c: ThemeView, area: Rect) -> PaneView {
    dialog_frame(
        area,
        dialog_border(Some(" Delete "@), c.mauve, c),
        delete_lines(label, cursor, c),
    )
}

fn choice(on: bool, label: &str, desc: &str, color: Color, c: &Theme) -> (r: Vec<Line>)
    ensures
        line_views(r@) == choice_lines(on, label@, desc@, color, c@),
{
    let mut out: Vec<Line> = no_lines();
    let mut spans = no_spans();
    if on {
        add_span(&mut spans, span("  ▸ ", fg(color)));
        add_span(&mut spans, span(label, bold(color)));
    } else {
        add_span(&mut spans, span("    ", fg(color)));
        add_span(&mut spans, span(label, fg(c.subtext0)));
    }
    let ghost shown = span_views(spans@);
    assert(shown =~= choice_lines(on, label@, desc@, color, c@)[0]->Spans_0);
    add_line(&mut out, Line::Spans(spans));
    add_text(&mut out, text::concat("      ", desc), fg(c.overlay0));
    add_blank(&mut out);
    assert(line_views(out@) =~= choice_lines(on, label@, desc@, color, c@));
    out
}

/// The dialog with the two ways to delete.
pub fn draw_delete_choice(app: &App, cursor: usize, c: &Theme, area: Rect) -> (r: Pane)
    requires
        app.wf(),
    ensures
        r@ == delete_pane(app@.delete_targets_label(), cursor, c@, area),
{
    let name = app.delete_targets_label();
    let mut lines: Vec<Line> = no_lines();
    add_blank(&mut lines);
    let mut spans = no_spans();
    add_span(&mut spans, span("  ", no_style()));
    add_span(&mut spans, span(name.as_str(), bold(c.text)));
    assert(span_views(spans@) =~= seq![piece("  "@, plain()), piece(name@, strong(c@.text))]);
    add_line(&mut lines, Line::Spans(spans));
    add_blank(&mut lines);
    add_lines(
        &mut lines,
        choice(
            cursor == 0,
            "Normal delete",
            "only this package, dependencies and configs stay",
            c.blue,
            c,
        ),
    );
    add_lines(
        &mut lines,
        choice(
            cursor == 1,
            "MEGA delete",
            "package + unused deps + home leftovers + .pacsave + cache",
            c.red,
            c,
        ),
    );
    add_text(
        &mut lines,
        "  ↑↓ choose · Enter confirm · Esc cancel".to_string(),
        fg(c.overlay0),
    );
    assert(line_views(lines@) =~= delete_lines(name@, cursor, c@));
    dialog(area, dialog_block(" Delete ".to_string(), c.mauve, c), lines)
}

/// The title of the confirmation.
pub open spec fn mega_title(plan: MegaPlanView) -> Seq<char> {
    let names = text::joined(plan.packages, ", "@);
    if plan.error is Some {
        " Cannot remove: "@ + names + " "@
    } else {
        " MEGA delete: "@ + names + text::counted(" · "@, plan.cascade.len(), " pkg + "@)
            + text::decimal_of(plan.extra()) + " extra "@
    }
}

/// A list with a heading.
pub open spec fn group_lines(
    title: Seq<char>,
    list: Seq<Seq<char>>,
    color: Color,
    c: ThemeView,
) -> Seq<LineView> {
    let none = if list.len() == 0 {
        seq![line_of("  none"@, ink(c.overlay0))]
    } else {
        seq![]
    };
    seq![blank(), line_of(title, strong(color))] + none + item_lines(list, ink(c.subtext0))
}

/// Why pacman refused.
pub open spec fn refusal_lines(err: Seq<char>, c: ThemeView) -> Seq<LineView> {
    seq![line_of("pacman refused this removal:"@, strong(c.red)), blank()] + item_lines(
        text::lines_of(err),
        ink(c.text),
    ) + seq![blank(), line_of("  Nothing was changed."@, ink(c.subtext0))]
}

/// All that a plan would remove. Nothing is truncated: the dialog scrolls
/// instead. Each config leftover comes with the .pacnew next to it, which goes
/// too.
pub open spec fn removal_lines(plan: MegaPlanView, c: ThemeView) -> Seq<LineView> {
    seq![line_of("This will permanently remove:"@, strong(c.red))] + group_lines(
        text::counted("Packages ("@, plan.cascade.len(), ") — "@) + text::decimal_of(
            plan.owned_files,
        ) + " files"@,
        plan.cascade,
        c.text,
        c,
    ) + group_lines(
        text::counted("Orphaned deps of these ("@, plan.orphans.len(), ")"@),
        plan.orphans,
        c.yellow,
        c,
    ) + group_lines(
        text::counted("Home leftovers ("@, plan.home_paths.len(), ")"@),
        plan.home_paths,
        c.peach,
        c,
    ) + group_lines(
        text::counted("Config leftovers ("@, plan.system_leftovers.len(), " candidates)"@),
        ops::remnants(plan.system_leftovers),
        c.overlay0,
        c,
    ) + group_lines(
        text::counted("Cached archives ("@, plan.cache_files.len(), ")"@),
        plan.cache_files,
        c.overlay0,
        c,
    )
}

/// What the confirmation says.
pub open spec fn mega_lines(plan: MegaPlanView, c: ThemeView) -> Seq<LineView> {
    match plan.error {
        Some(err) => refusal_lines(err, c),
        None => removal_lines(plan, c),
    }
}

/// How many lines there are, as far as a pane counts them.
pub open spec fn height_of(lines: Seq<LineView>) -> u16 {
    (lines.len() % 65536) as u16
}

/// How far lines are scrolled: no further than to the last of them.
pub open spec fn scroll_of(scroll: u16, content: u16, view: u16) -> u16 {
    model::min(scroll as int, model::less(content as int, view as int)) as u16
}

/// How far the confirmation is scrolled, unless all of it can be seen.
pub open spec fn scroll_hint(scroll: u16, content: u16, view: u16) -> Seq<char> {
    if content > view {
        text::counted(" ↑↓ scroll · "@, (scroll_of(scroll, content, view) + view) as nat, "/"@)
            + text::decimal_of(content as nat) + " lines"@
    } else {
        seq![]
    }
}

/// The confirmation: its border, what it says, how far it is scrolled, and
/// the buttons at the bottom right.
pub open spec fn mega_panes(
    plan: MegaPlanView,
    scroll: u16,
    button: usize,
    c: ThemeView,
    area: Rect,
    rows: Seq<Rect>,
) -> Seq<PaneView> {
    let lines = mega_lines(plan, c);
    let content = height_of(lines);
    let view = rows[0].height;
    seq![
        dialog_frame(area, dialog_border(Some(mega_title(plan)), c.red, c), seq![]),
        PaneView { wrap: true, scroll: scroll_of(scroll, content, view), ..bare(rows[0], lines) },
        bare(
            layout::left_of(rows[1], 45),
            seq![line_of(scroll_hint(scroll, content, view), ink(c.overlay0))],
        ),
        bare(
            layout::right_of(rows[1], 45),
            seq![buttons_line(button, c.red, plan.error is None, c)],
        ),
    ]
}

/// Shows a list with a heading.
fn group(title: String, list: &Vec<String>, color: Color, c: &Theme) -> (r: Vec<Line>)
    ensures
        line_views(r@) == group_lines(title@, text::texts(list@), color, c@),
{
    let mut out: Vec<Line> = no_lines();
    add_blank(&mut out);
    add_text(&mut out, title, bold(color));
    if list.is_empty() {
        add_text(&mut out, "  none".to_string(), fg(c.overlay0));
    }
    add_lines(&mut out, items(list, fg(c.subtext0)));
    assert(line_views(out@) =~= group_lines(title@, text::texts(list@), color, c@));
    out
}

/// Shows why pacman refused.
fn refusal(err: &str, c: &Theme) -> (r: Vec<Line>)
    ensures
        line_views(r@) == refusal_lines(err@, c@),
{
    let mut out: Vec<Line> = no_lines();
    add_text(&mut out, "pacman refused this removal:".to_string(), bold(c.red));
    add_blank(&mut out);
    let chars = text::chars_of(err);
    let parts = text::lines(chars.as_slice());
    let ghost all = text::slices(parts@);
    let mut list: Vec<String> = Vec::new();
    assert(text::texts(list@) =~= all.take(0));
    for i in 0..parts.len()
        invariant
            all == text::slices(parts@),
            text::texts(list@) == all.take(i as int),
    {
        let ghost before = text::texts(list@);
        list.push(text::string_of(parts[i]));
        assert(text::texts(list@) =~= before.push(all[i as int]));
        assert(all.take(i + 1) =~= all.take(i as int).push(all[i as int]));
    }
    assert(all.take(parts@.len() as int) =~= all);
    add_lines(&mut out, items(&list, fg(c.text)));
    add_blank(&mut out);
    add_text(&mut out, "  Nothing was changed.".to_string(), fg(c.subtext0));
    assert(line_views(out@) =~= refusal_lines(err@, c@));
    out
}

/// Shows all that a plan would remove.
///
/// NOTE: nothing is truncated — the dialog scrolls instead. A confirmation
/// that hides part of what it is about to delete is worse than a long one.
fn removal(plan: &MegaPlan, c: &Theme) -> (r: Vec<Line>)
    ensures
        line_views(r@) == removal_lines(plan@, c@),
{
    let mut out: Vec<Line> = no_lines();
    add_text(&mut out, "This will permanently remove:".to_string(), bold(c.red));
    let packages = text::concat3(
        text::count("Packages (", plan.cascade.len(), ") — ").as_str(),
        text::decimal(plan.owned_files).as_str(),
        " files",
    );
    add_lines(&mut out, group(packages, &plan.cascade, c.text, c));
    let orphans = text::count("Orphaned deps of these (", plan.orphans.len(), ")");
    add_lines(&mut out, group(orphans, &plan.orphans, c.yellow, c));
    let home = text::count("Home leftovers (", plan.home_paths.len(), ")");
    add_lines(&mut out, group(home, &plan.home_paths, c.peach, c));
    let config = text::count("Config leftovers (", plan.system_leftovers.len(), " candidates)");
    let remnants = ops::config_remnants(&plan.system_leftovers);
    add_lines(&mut out, group(config, &remnants, c.overlay0, c));
    let cached = text::count("Cached archives (", plan.cache_files.len(), ")");
    add_lines(&mut out, group(cached, &plan.cache_files, c.overlay0, c));
    assert(line_views(out@) =~= removal_lines(plan@, c@));
    out
}

/// How many lines there are, as far as a pane counts them.
fn height(lines: &Vec<Line>) -> (r: u16)
    ensures
        r == height_of(line_views(lines@)),
{
    (lines.len() % 65536) as u16
}

/// How far lines are scrolled.
fn scrolled(scroll: u16, content: u16, view: u16) -> (r: u16)
    ensures
        r == scroll_of(scroll, content, view),
        content > view ==> r + view <= content,
{
    let most = content.saturating_sub(view);
    if scroll < most {
        scroll
    } else {
        most
    }
}

/// The confirmation of a mega delete, in an area whose inside was divided
/// into rows. Returns the content lines and the visible rows too, so that key
/// handling can clamp scrolling.
pub fn draw_mega_confirm(
    plan: &MegaPlan,
    scroll: u16,
    button: usize,
    c: &Theme,
    area: Rect,
    rows: &Vec<Rect>,
) -> (r: (Vec<Pane>, u16, u16))
    requires
        rows@.len() == 2,
        rows@[1].wf(),
        plan@.error is None ==> plan@.extra() <= usize::MAX,
    ensures
        pane_views(r.0@) == mega_panes(plan@, scroll, button, c@, area, rows@),
        r.1 == height_of(mega_lines(plan@, c@)),
        r.2 == rows@[0].height,
{
    let names = text::join(&plan.packages, ", ");
    let title = if plan.error.is_some() {
        text::concat3(" Cannot remove: ", names.as_str(), " ")
    } else {
        let front = text::concat3(
            " MEGA delete: ",
            names.as_str(),
            text::count(" · ", plan.cascade.len(), " pkg + ").as_str(),
        );
        text::concat3(front.as_str(), text::decimal(plan.total_extra()).as_str(), " extra ")
    };
    let lines = match &plan.error {
        Some(err) => refusal(err.as_str(), c),
        None => removal(plan, c),
    };
    let content = height(&lines);
    let view = rows[0].height;
    let at = scrolled(scroll, content, view);
    let hint = if content > view {
        text::concat3(
            text::count(" ↑↓ scroll · ", (at + view) as usize, "/").as_str(),
            text::decimal(content as usize).as_str(),
            " lines",
        )
    } else {
        String::new()
    };
    let (left, right) = layout::halves(rows[1], 45);
    let mut panes: Vec<Pane> = Vec::new();
    panes.push(dialog(area, dialog_block(title, c.red, c), no_lines()));
    panes.push(Pane { wrap: true, scroll: at, ..bare_pane(rows[0], lines) });
    panes.push(line_pane(left, Line::Text { text: hint, style: fg(c.overlay0) }));
    panes.push(line_pane(right, buttons(button, c.red, plan.error.is_none(), c)));
    assert(pane_views(panes@) =~= mega_panes(plan@, scroll, button, c@, area, rows@));
    (panes, content, view)
}

/// A line of what was installed.
pub open spec fn landed_line(l: Seq<char>, c: ThemeView) -> LineView {
    line_of(
        l,
        if text::stands_at(l, "── "@, 0) {
            strong(c.blue)
        } else {
            ink(c.overlay0)
        },
    )
}

/// What was installed.
pub open spec fn landed_lines(
    names: Seq<Seq<char>>,
    files: Seq<Seq<char>>,
    c: ThemeView,
) -> Seq<LineView> {
    seq![line_of("Installed: "@ + text::joined(names, ", "@), strong(c.green)), blank()] + Seq::new(
        files.len(),
        |i: int| landed_line(files[i], c),
    )
}

/// The dialog with what was installed.
pub open spec fn landed_panes(
    names: Seq<Seq<char>>,
    files: Seq<Seq<char>>,
    scroll: u16,
    c: ThemeView,
    area: Rect,
    rows: Seq<Rect>,
) -> Seq<PaneView> {
    let lines = landed_lines(names, files, c);
    seq![
        dialog_frame(area, dialog_border(Some(" Installed files "@), c.green, c), seq![]),
        PaneView {
            scroll: scroll_of(scroll, height_of(lines), rows[0].height),
            ..bare(rows[0], lines)
        },
        bare(rows[1], seq![line_of(" ↑↓ scroll · Esc close"@, ink(c.overlay0))]),
    ]
}

/// The dialog with what was installed, in an area whose inside was divided
/// into rows.
pub fn draw_installed(
    names: &Vec<String>,
    files: &Vec<String>,
    scroll: u16,
    c: &Theme,
    area: Rect,
    rows: &Vec<Rect>,
) -> (r: Vec<Pane>)
    requires
        rows@.len() == 2,
    ensures
        pane_views(r@) == landed_panes(
            text::texts(names@),
            text::texts(files@),
            scroll,
            c@,
            area,
            rows@,
        ),
{
    let mut lines: Vec<Line> = no_lines();
    let ghost all = landed_lines(text::texts(names@), text::texts(files@), c@);
    let joined = text::join(names, ", ");
    add_text(&mut lines, text::concat("Installed: ", joined.as_str()), bold(c.green));
    add_blank(&mut lines);
    assert(line_views(lines@) =~= all.take(2));
    let heading = text::chars_of("── ");
    for i in 0..files.len()
        invariant
            all == landed_lines(text::texts(names@), text::texts(files@), c@),
            heading@ == "── "@,
            line_views(lines@) == all.take(i + 2),
    {
        let chars = text::chars_of(files[i].as_str());
        let style = if text::starts_with(chars.as_slice(), heading.as_slice()) {
            bold(c.blue)
        } else {
            fg(c.overlay0)
        };
        add_text(&mut lines, files[i].clone(), style);
        assert(all.take(i + 3) =~= all.take(i + 2).push(all[i + 2]));
    }
    assert(all.take(files@.len() as int + 2) =~= all);
    let at = scrolled(scroll, height(&lines), rows[0].height);
    let mut panes: Vec<Pane> = Vec::new();
    panes.push(
        dialog(area, dialog_block(" Installed files ".to_string(), c.green, c), no_lines()),
    );
    panes.push(Pane { scroll: at, ..bare_pane(rows[0], lines) });
    panes.push(
        line_pane(
            rows[1],
            Line::Text { text: " ↑↓ scroll · Esc close".to_string(), style: fg(c.overlay0) },
        ),
    );
    assert(pane_views(panes@) =~= landed_panes(
        text::texts(names@),
        text::texts(files@),
        scroll,
        c@,
        area,
        rows@,
    ));
    panes
}

/// The dialog while a plan is being worked out.
pub open spec fn busy_pane(msg: Seq<char>, c: ThemeView, area: Rect) -> PaneView {
    PaneView {
        centered: true,
        ..dialog_frame(
            area,
            dialog_border(None, c.mauve, c),
            seq![line_of(msg, ink(c.text))],
        )
    }
}

/// The dialog while a plan is being worked out.
pub fn draw_busy(msg: &str, c: &Theme, area: Rect) -> (r: Pane)
    ensures
        r@ == busy_pane(msg@, c@, area),
{
    let mut lines: Vec<Line> = no_lines();
    add_text(&mut lines, msg.to_string(), fg(c.text));
    assert(line_views(lines@) =~= seq![line_of(msg@, ink(c@.text))]);
    let border = Border { color: c.mauve, fill: Some(c.base), title: None };
    Pane { centered: true, ..dialog(area, border, lines) }
}

// ---------------------------------------------------------------------------
// The screen
// ---------------------------------------------------------------------------

/// All that is on the screen, in the order in which it is drawn: the list
/// first.
#[derive(Debug)]
pub struct Screen {
    pub list: ListPane,
    pub panes: Vec<Pane>,
    /// The rows that the screen was divided into
    pub screen_rows: Vec<Rect>,
    /// The rows that the inside of a dialog was divided into
    pub dialog_rows: Vec<Rect>,
}

/// The dialog over the main screen, if any.
pub open spec fn overlay_panes(app: AppView, c: ThemeView, area: Rect, rows: Seq<Rect>) -> Seq<
    PaneView,
> {
    match app.overlay {
        OverlayView::Closed => seq![],
        OverlayView::DeleteChoice { cursor } => seq![
            delete_pane(app.delete_targets_label(), cursor, c, layout::popup_of(area, 62, 34)),
        ],
        OverlayView::MegaConfirm { plan, scroll, button, .. } => mega_panes(
            plan,
            scroll,
            button,
            c,
            layout::popup_of(area, 82, 82),
            rows,
        ),
        OverlayView::Installed { names, files, scroll } => landed_panes(
            names,
            files,
            scroll,
            c,
            layout::popup_of(area, 82, 78),
            rows,
        ),
        OverlayView::Busy(msg) => seq![busy_pane(msg, c, layout::popup_of(area, 46, 14))],
    }
}

/// Whether rows are those that the inside of the dialog is divided into.
pub open spec fn overlay_rows(app: AppView, area: Rect, rows: Seq<Rect>) -> bool {
    match app.overlay {
        OverlayView::MegaConfirm { .. } => rows == layout::dialog_rows_of(
            layout::inner_of(layout::popup_of(area, 82, 82)),
        ),
        OverlayView::Installed { .. } => rows == layout::dialog_rows_of(
            layout::inner_of(layout::popup_of(area, 82, 78)),
        ),
        _ => rows.len() == 0,
    }
}

/// How tall the confirmation is, once it has been drawn.
pub open spec fn measured_by(app: AppView, c: ThemeView, rows: Seq<Rect>) -> AppView {
    match app.overlay {
        OverlayView::MegaConfirm { plan, .. } => app.measured(
            height_of(mega_lines(plan, c)),
            rows[0].height,
        ),
        _ => app,
    }
}

/// The panes of the screen, the dialog last.
pub open spec fn screen_panes(
    app: AppView,
    c: ThemeView,
    area: Rect,
    screen_rows: Seq<Rect>,
    dialog_rows: Seq<Rect>,
) -> Seq<PaneView> {
    seq![
        detail_pane(app, c, layout::right_of(screen_rows[0], 42)),
        bare(screen_rows[1], seq![tabs_line(app, c)]),
        search_pane(app, c, screen_rows[2]),
        bare(screen_rows[3], seq![status_line(app, c)]),
    ] + overlay_panes(app, c, area, dialog_rows)
}

/// Whether the number of things that the plan on the screen removes can be
/// told.
pub open spec fn can_be_counted(app: AppView) -> bool {
    app.overlay matches OverlayView::MegaConfirm { plan, .. } ==> plan.error is None ==> plan.extra()
        <= usize::MAX
}

/// Whether the number of things that the plan on the screen removes can be
/// told.
pub fn can_draw(app: &App) -> (r: bool)
    ensures
        r == can_be_counted(app@),
{
    match &app.overlay {
        Overlay::MegaConfirm { plan, .. } => plan.error.is_some() || plan.is_countable(),
        _ => true,
    }
}

/// The rows that the inside of the dialog is divided into, if it is.
fn rows_of_dialog(app: &App, area: Rect) -> (r: Vec<Rect>)
    requires
        area.wf(),
    ensures
        overlay_rows(app@, area, r@),
{
    match &app.overlay {
        Overlay::MegaConfirm { .. } => {
            layout::dialog_rows(layout::inner(layout::popup(area, 82, 82)))
        },
        Overlay::Installed { .. } => {
            layout::dialog_rows(layout::inner(layout::popup(area, 82, 78)))
        },
        _ => Vec::new(),
    }
}

/// The dialog over the main screen, in rows that its inside was divided into.
/// The mega dialog reports back how tall its content was and how many rows it
/// had.
pub fn draw_overlay(app: &mut App, c: &Theme, area: Rect, rows: &Vec<Rect>) -> (r: Vec<Pane>)
    requires
        old(app).wf(),
        area.wf(),
        overlay_rows(old(app)@, area, rows@),
        can_be_counted(old(app)@),
    ensures
        final(app).wf(),
        final(app)@ == measured_by(old(app)@, c@, rows@),
        pane_views(r@) == overlay_panes(old(app)@, c@, area, rows@),
{
    let mut measured: Option<(u16, u16)> = None;
    let panes = match &app.overlay {
        Overlay::Closed => Vec::new(),
        Overlay::DeleteChoice { cursor } => {
            let pane = draw_delete_choice(app, *cursor, c, layout::popup(area, 62, 34));
            let mut panes: Vec<Pane> = Vec::new();
            panes.push(pane);
            panes
        },
        Overlay::MegaConfirm { plan, scroll, button, .. } => {
            let (panes, content, view) = draw_mega_confirm(
                plan,
                *scroll,
                *button,
                c,
                layout::popup(area, 82, 82),
                rows,
            );
            measured = Some((content, view));
            panes
        },
        Overlay::Installed { names, files, scroll } => draw_installed(
            names,
            files,
            *scroll,
            c,
            layout::popup(area, 82, 78),
            rows,
        ),
        Overlay::Busy(msg) => {
            let pane = draw_busy(msg.as_str(), c, layout::popup(area, 46, 14));
            let mut panes: Vec<Pane> = Vec::new();
            panes.push(pane);
            panes
        },
    };
    assert(pane_views(panes@) =~= overlay_panes(app@, c@, area, rows@));
    if let Some((content, view)) = measured {
        app.measured(content, view);
    }
    panes
}

/// The whole screen, in rows that it and the inside of its dialog were
/// divided into.
pub fn compose(
    app: &mut App,
    c: &Theme,
    area: Rect,
    screen_rows: Vec<Rect>,
    dialog_rows: Vec<Rect>,
) -> (r: Screen)
    requires
        old(app).wf(),
        area.wf(),
        layout::divided(true, layout::screen_rules(), area, screen_rows@),
        overlay_rows(old(app)@, area, dialog_rows@),
        can_be_counted(old(app)@),
    ensures
        final(app).wf(),
        final(app)@ == measured_by(old(app)@, c@, dialog_rows@),
        r.list@ == list_pane(old(app)@, c@, layout::left_of(screen_rows@[0], 42)),
        pane_views(r.panes@) == screen_panes(
            old(app)@,
            c@,
            area,
            screen_rows@,
            dialog_rows@,
        ),
        r.screen_rows == screen_rows,
        r.dialog_rows == dialog_rows,
{
    assert(screen_rows@[0].within(area));
    let (left, right) = layout::halves(screen_rows[0], 42);
    let list = draw_list(app, c, left);
    let mut panes: Vec<Pane> = Vec::new();
    panes.push(draw_details(app, c, right));
    panes.push(draw_tabs(app, c, screen_rows[1]));
    panes.push(draw_search(app, c, screen_rows[2]));
    panes.push(draw_status(app, c, screen_rows[3]));
    let ghost main = pane_views(panes@);
    let mut over = draw_overlay(app, c, area, &dialog_rows);
    let ghost dialog = pane_views(over@);
    panes.append(&mut over);
    assert(pane_views(panes@) =~= main + dialog);
    assert(pane_views(panes@) =~= screen_panes(old(app)@, c@, area, screen_rows@, dialog_rows@));
    Screen { list, panes, screen_rows, dialog_rows }
}

/// The whole screen. The confirmation of a mega delete keeps how tall it was.
pub fn draw(app: &mut App, c: &Theme, area: Rect) -> (r: Screen)
    requires
        old(app).wf(),
        area.wf(),
        can_be_counted(old(app)@),
    ensures
        layout::divided(true, layout::screen_rules(), area, r.screen_rows@),
        overlay_rows(old(app)@, area, r.dialog_rows@),
        final(app).wf(),
        final(app)@ == measured_by(old(app)@, c@, r.dialog_rows@),
        r.list@ == list_pane(old(app)@, c@, layout::left_of(r.screen_rows@[0], 42)),
        pane_views(r.panes@) == screen_panes(
            old(app)@,
            c@,
            area,
            r.screen_rows@,
            r.dialog_rows@,
        ),
{
    let screen_rows = layout::screen_rows(area);
    let dialog_rows = rows_of_dialog(app, area);
    compose(app, c, area, screen_rows, dialog_rows)
}

// ---------------------------------------------------------------------------
// Laws
// ---------------------------------------------------------------------------

/// Whether a list item is shown on a line of its own.
pub open spec fn shows(lines: Seq<LineView>, item: Seq<char>, style: Style) -> bool {
    lines.contains(line_of("  "@ + item, style))
}

/// Lines that are shown stay shown among more lines.
proof fn lemma_among(a: Seq<LineView>, b: Seq<LineView>, c: Seq<LineView>, l: LineView)
    requires
        b.contains(l),
    ensures
        (a + b + c).contains(l),
{
    let i = choose|i: int| 0 <= i < b.len() && b[i] == l;
    assert((a + b + c)[a.len() + i] == l);
}

/// Every item of a list is shown.
proof fn lemma_item_shown(items: Seq<Seq<char>>, style: Style, item: Seq<char>)
    requires
        items.contains(item),
    ensures
        shows(item_lines(items, style), item, style),
{
    let i = choose|i: int| 0 <= i < items.len() && items[i] == item;
    assert(item_lines(items, style)[i] == line_of("  "@ + item, style));
}

/// Every item of a list with a heading is shown.
proof fn lemma_group_shown(
    title: Seq<char>,
    list: Seq<Seq<char>>,
    color: Color,
    c: ThemeView,
    item: Seq<char>,
)
    requires
        list.contains(item),
    ensures
        shows(group_lines(title, list, color, c), item, ink(c.subtext0)),
{
    lemma_item_shown(list, ink(c.subtext0), item);
    let front = seq![blank(), line_of(title, strong(color))];
    let shown = item_lines(list, ink(c.subtext0));
    lemma_among(front, shown, seq![], line_of("  "@ + item, ink(c.subtext0)));
    assert(list.len() > 0);
    assert(group_lines(title, list, color, c) =~= front + shown + Seq::<LineView>::empty());
}

/// Nothing is truncated: the confirmation of a plan shows every package,
/// orphan, home leftover, config leftover with the .pacnew next to it, and
/// cached archive that it would remove, each on a line of its own.
pub proof fn law_nothing_is_truncated(plan: MegaPlanView, c: ThemeView, item: Seq<char>)
    requires
        plan.error is None,
        plan.cascade.contains(item) || plan.orphans.contains(item) || plan.home_paths.contains(item)
            || plan.system_leftovers.contains(item) || ops::remnants(
            plan.system_leftovers,
        ).contains(item) || plan.cache_files.contains(item),
    ensures
        shows(mega_lines(plan, c), item, ink(c.subtext0)),
{
    let l = line_of("  "@ + item, ink(c.subtext0));
    let head = seq![line_of("This will permanently remove:"@, strong(c.red))];
    let t1 = text::counted("Packages ("@, plan.cascade.len(), ") — "@) + text::decimal_of(
        plan.owned_files,
    ) + " files"@;
    let t2 = text::counted("Orphaned deps of these ("@, plan.orphans.len(), ")"@);
    let t3 = text::counted("Home leftovers ("@, plan.home_paths.len(), ")"@);
    let t4 = text::counted("Config leftovers ("@, plan.system_leftovers.len(), " candidates)"@);
    let t5 = text::counted("Cached archives ("@, plan.cache_files.len(), ")"@);
    let g1 = group_lines(t1, plan.cascade, c.text, c);
    let g2 = group_lines(t2, plan.orphans, c.yellow, c);
    let g3 = group_lines(t3, plan.home_paths, c.peach, c);
    let g4 = group_lines(t4, ops::remnants(plan.system_leftovers), c.overlay0, c);
    let g5 = group_lines(t5, plan.cache_files, c.overlay0, c);
    let all = removal_lines(plan, c);
    assert(all == head + g1 + g2 + g3 + g4 + g5);
    if plan.system_leftovers.contains(item) {
        let n = choose|n: int|
            0 <= n < plan.system_leftovers.len() && plan.system_leftovers[n] == item;
        ops::lemma_remnants(plan.system_leftovers, n);
    }
    if plan.cascade.contains(item) {
        lemma_group_shown(t1, plan.cascade, c.text, c, item);
        lemma_among(head, g1, g2 + g3 + g4 + g5, l);
        assert(all =~= head + g1 + (g2 + g3 + g4 + g5));
    } else if plan.orphans.contains(item) {
        lemma_group_shown(t2, plan.orphans, c.yellow, c, item);
        lemma_among(head + g1, g2, g3 + g4 + g5, l);
        assert(all =~= head + g1 + g2 + (g3 + g4 + g5));
    } else if plan.home_paths.contains(item) {
        lemma_group_shown(t3, plan.home_paths, c.peach, c, item);
        lemma_among(head + g1 + g2, g3, g4 + g5, l);
        assert(all =~= head + g1 + g2 + g3 + (g4 + g5));
    } else if ops::remnants(plan.system_leftovers).contains(item) {
        lemma_group_shown(t4, ops::remnants(plan.system_leftovers), c.overlay0, c, item);
        lemma_among(head + g1 + g2 + g3, g4, g5, l);
    } else {
        lemma_group_shown(t5, plan.cache_files, c.overlay0, c, item);
        lemma_among(head + g1 + g2 + g3 + g4, g5, seq![], l);
        assert(all =~= head + g1 + g2 + g3 + g4 + g5 + Seq::<LineView>::empty());
    }
}

/// MEGA delete lists everything it would touch first: whatever a command of
/// it names is a word of the command line, a target named in the title, or an
/// item on a line of its own.
pub proof fn law_everything_removed_is_shown(plan: MegaPlanView, c: ThemeView, i: int, k: int)
    requires
        plan.error is None,
        0 <= i < ops::mega_commands(plan).len(),
        0 <= k < ops::mega_commands(plan)[i].len(),
    ensures
        ({
            let word = ops::mega_commands(plan)[i][k];
            ||| ops::is_command_word(word)
            ||| plan.packages.contains(word)
            ||| shows(mega_lines(plan, c), word, ink(c.subtext0))
        }),
{
    ops::law_mega_removes_only_what_is_listed(plan, i, k);
    let word = ops::mega_commands(plan)[i][k];
    if !ops::is_command_word(word) && !plan.packages.contains(word) {
        law_nothing_is_truncated(plan, c, word);
    }
}

/// When pacman refuses, every line of the reason is shown.
pub proof fn law_refusal_is_shown(plan: MegaPlanView, c: ThemeView, err: Seq<char>, l: Seq<char>)
    requires
        plan.error == Some(err),
        text::lines_of(err).contains(l),
    ensures
        shows(mega_lines(plan, c), l, ink(c.text)),
{
    lemma_item_shown(text::lines_of(err), ink(c.text), l);
    lemma_among(
        seq![line_of("pacman refused this removal:"@, strong(c.red)), blank()],
        item_lines(text::lines_of(err), ink(c.text)),
        seq![blank(), line_of("  Nothing was changed."@, ink(c.subtext0))],
        line_of("  "@ + l, ink(c.text)),
    );
}

/// The confirmation is never scrolled so far that rows stay empty below its
/// last line.
pub proof fn law_scroll_keeps_the_rows_full(scroll: u16, content: u16, view: u16)
    ensures
        scroll_of(scroll, content, view) <= scroll,
        content >= view ==> scroll_of(scroll, content, view) + view <= content,
        content <= view ==> scroll_of(scroll, content, view) == 0,
{
}

/// The active theme stands in brackets at the end of the status line.
pub proof fn law_theme_is_shown_in_brackets(app: AppView, c: ThemeView)
    ensures
        status_line(app, c) matches LineView::Spans(spans) && spans.len() >= 3 && spans.last()
            == piece("  ["@ + c.name + "]"@, ink(c.surface1)),
{
}

/// Every requirement is shown, marked by whether it is installed already: by
/// its bare name, which a package may provide under a virtual one.
pub proof fn law_requirements_are_marked(app: AppView, cur: PkgView, c: ThemeView, i: int)
    requires
        0 <= i < detail_of(app, cur).depends.len(),
    ensures
        ({
            let raw = detail_of(app, cur).depends[i];
            detail_lines(app, cur, c).contains(
                require_line(raw, app.installed_names.contains(pacman::dep_name_of(raw)), c),
            )
        }),
{
    let d = detail_of(app, cur);
    let raw = d.depends[i];
    let shown = require_lines(d.depends, app.installed_names, c);
    let l = require_line(raw, is_installed(raw, app.installed_names), c);
    assert(shown[i] == l);
    let loading = if app.details is None && !cur.installed {
        seq![line_of("  loading…"@, ink(c.overlay0))]
    } else {
        seq![]
    };
    let owner = if cur.installed {
        owner_lines(d.required_by, app.files, c)
    } else {
        seq![]
    };
    let front = seq![name_line(d, c), badge_line(cur, d, c), blank()] + paragraph(
        d.description,
        c.text,
    ) + paragraph(d.url, c.blue) + loading + section_lines("Requires"@, c);
    let back = optional_lines(d.optdepends, app.installed_names, c) + owner;
    lemma_among(front, shown, back, l);
    assert(detail_lines(app, cur, c) =~= front + shown + back);
}

/// The full path of every file that an installed package owns is shown, and
/// so is everything that requires the package.
pub proof fn law_files_are_shown(app: AppView, cur: PkgView, c: ThemeView, s: Seq<char>)
    requires
        cur.installed,
    ensures
        app.files.contains(s) ==> shows(detail_lines(app, cur, c), s, ink(c.overlay0)),
        detail_of(app, cur).required_by.contains(s) ==> shows(
            detail_lines(app, cur, c),
            s,
            ink(c.subtext0),
        ),
{
    let d = detail_of(app, cur);
    let all = detail_lines(app, cur, c);
    let owner = owner_lines(d.required_by, app.files, c);
    let front = all.take(all.len() - owner.len());
    assert(all =~= front + owner + Seq::<LineView>::empty());
    if app.files.contains(s) {
        let shown = item_lines(app.files, ink(c.overlay0));
        let l = line_of("  "@ + s, ink(c.overlay0));
        lemma_item_shown(app.files, ink(c.overlay0), s);
        lemma_among(owner.take(owner.len() - shown.len()), shown, seq![], l);
        assert(owner =~= owner.take(owner.len() - shown.len()) + shown + Seq::<LineView>::empty());
        lemma_among(front, owner, seq![], l);
    }
    if d.required_by.contains(s) {
        let shown = item_lines(d.required_by, ink(c.subtext0));
        let l = line_of("  "@ + s, ink(c.subtext0));
        lemma_item_shown(d.required_by, ink(c.subtext0), s);
        lemma_among(section_lines("Required by"@, c), shown, owner.skip(2 + shown.len() as int), l);
        assert(owner =~= section_lines("Required by"@, c) + shown + owner.skip(
            2 + shown.len() as int,
        ));
        lemma_among(front, owner, seq![], l);
    }
}

/// All that is drawn lies on the screen.
pub proof fn law_everything_lies_on_the_screen(
    app: AppView,
    c: ThemeView,
    area: Rect,
    screen_rows: Seq<Rect>,
    dialog_rows: Seq<Rect>,
)
    requires
        area.wf(),
        layout::divided(true, layout::screen_rules(), area, screen_rows),
        overlay_rows(app, area, dialog_rows),
    ensures
        list_pane(app, c, layout::left_of(screen_rows[0], 42)).area.within(area),
        forall|i: int|
            0 <= i < screen_panes(app, c, area, screen_rows, dialog_rows).len() ==> (
            #[trigger] screen_panes(app, c, area, screen_rows, dialog_rows)[i]).area.within(area),
{
    assert(screen_rows[0].within(area));
    assert(screen_rows[1].within(area));
    assert(screen_rows[2].within(area));
    assert(screen_rows[3].within(area));
    layout::lemma_halves_within(screen_rows[0], 42);
    layout::law_popup_lies_on_the_screen(area, 62, 34);
    layout::law_popup_lies_on_the_screen(area, 82, 82);
    layout::law_popup_lies_on_the_screen(area, 82, 78);
    layout::law_popup_lies_on_the_screen(area, 46, 14);
    let panes = screen_panes(app, c, area, screen_rows, dialog_rows);
    let over = overlay_panes(app, c, area, dialog_rows);
    if dialog_rows.len() == 2 {
        assert(dialog_rows[0].within(area));
        assert(dialog_rows[1].within(area));
        layout::lemma_halves_within(dialog_rows[1], 45);
    }
    assert forall|i: int| 0 <= i < over.len() implies (#[trigger] over[i]).area.within(area) by {}
    assert forall|i: int| 0 <= i < panes.len() implies (#[trigger] panes[i]).area.within(area) by {
        if i >= 4 {
            assert(panes[i] == over[i - 4]);
        }
    }
}

} // verus!
