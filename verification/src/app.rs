//! Application state and key handling.
//!
//! The remote search (`yay -Ss`) takes ~1.2s and hits the network, and so does
//! fetching details for a package that is not installed. Both run in the
//! background: the application says what it asks for, and takes the replies
//! in. Late replies are discarded by comparing the name or query they were
//! issued for.

use vstd::prelude::*;

use crate::model;
use crate::model::AppView;
use crate::model::EffectView;
use crate::model::MsgView;
use crate::model::OverlayView;
use crate::model::RequestView;
use crate::names;
use crate::names::NameSet;
use crate::ops;
use crate::ops::MegaPlan;
use crate::pacman;
use crate::pacman::Pkg;
use crate::text;

verus! {

// ---------------------------------------------------------------------------
// Types
// ---------------------------------------------------------------------------

/// A reply from the background.
pub enum Msg {
    /// The results of a search, with the query
    Search(String, Vec<Pkg>),
    /// The details of a package, with its name
    Details(String, Box<Pkg>),
    /// The files of a package, with its name
    Files(String, Vec<String>),
    /// The plan of a mega delete, with the key that it was asked for under
    Plan(String, Box<MegaPlan>),
}

impl View for Msg {
    type V = MsgView;

    open spec fn view(&self) -> MsgView {
        match *self {
            Msg::Search(q, results) => MsgView::Search(q@, pacman::pkg_views(results@)),
            Msg::Details(name, pkg) => MsgView::Details(name@, (*pkg)@),
            Msg::Files(name, files) => MsgView::Files(name@, text::texts(files@)),
            Msg::Plan(key, plan) => MsgView::Plan(key@, (*plan)@),
        }
    }
}

/// The two tabs above the search bar.
#[derive(Debug, Clone, Copy, PartialEq, Eq, Structural)]
pub enum Tab {
    /// Search the installed packages — local, instant, no network
    Downloaded,
    /// Search the repos and the AUR (yay -Ss)
    Remote,
}

impl Tab {
    /// The other tab.
    pub open spec fn opposite(self) -> Tab {
        match self {
            Tab::Downloaded => Tab::Remote,
            Tab::Remote => Tab::Downloaded,
        }
    }

    /// What is written on a tab.
    pub open spec fn title(self) -> Seq<char> {
        match self {
            Tab::Downloaded => "Downloaded"@,
            Tab::Remote => "AUR + pacman"@,
        }
    }

    /// What is written on the tab.
    pub fn label(self) -> (r: &'static str)
        ensures
            r@ == self.title(),
    {
        match self {
            Tab::Downloaded => "Downloaded",
            Tab::Remote => "AUR + pacman",
        }
    }

    /// The other tab.
    pub fn other(self) -> (r: Tab)
        ensures
            r == self.opposite(),
            r != self,
            r.opposite() == self,
    {
        match self {
            Tab::Downloaded => Tab::Remote,
            Tab::Remote => Tab::Downloaded,
        }
    }
}

/// The row under the cursor, and the first row shown.
#[derive(Debug, Clone, Copy)]
pub struct ListState {
    pub offset: usize,
    pub selected: Option<usize>,
}

/// The keys that mean something here.
#[derive(Debug, Clone, Copy)]
pub enum KeyCode {
    Esc,
    Enter,
    Up,
    Down,
    PageUp,
    PageDown,
    Home,
    End,
    Left,
    Right,
    Tab,
    BackTab,
    Backspace,
    Char(char),
    /// Any other key
    Other,
}

/// A key with its modifiers.
#[derive(Debug, Clone, Copy)]
pub struct KeyPress {
    pub code: KeyCode,
    pub shift: bool,
    pub ctrl: bool,
}

/// What lies over the main screen.
pub enum Overlay {
    /// Nothing
    Closed,
    /// The two choices D opens on the installed tab
    DeleteChoice { cursor: usize },
    /// Confirmation before a mega delete. Scrollable: what it would remove is
    /// routinely longer than the screen.
    MegaConfirm {
        plan: Box<MegaPlan>,
        scroll: u16,
        /// 0 = Cancel, 1 = Continue
        button: usize,
        /// Lines the last render produced, so scrolling can be clamped
        content_lines: u16,
        /// Rows the last render had room for
        view_lines: u16,
    },
    /// After an install: what landed where
    Installed { names: Vec<String>, files: Vec<String>, scroll: u16 },
    /// While a plan is being worked out
    Busy(String),
}

impl View for Overlay {
    type V = OverlayView;

    open spec fn view(&self) -> OverlayView {
        match *self {
            Overlay::Closed => OverlayView::Closed,
            Overlay::DeleteChoice { cursor } => OverlayView::DeleteChoice { cursor },
            Overlay::MegaConfirm { plan, scroll, button, content_lines, view_lines } =>
                OverlayView::MegaConfirm {
                plan: (*plan)@,
                scroll,
                button,
                content_lines,
                view_lines,
            },
            Overlay::Installed { names, files, scroll } => OverlayView::Installed {
                names: text::texts(names@),
                files: text::texts(files@),
                scroll,
            },
            Overlay::Busy(msg) => OverlayView::Busy(msg@),
        }
    }
}

/// What a key asks the world for.
pub enum Effect {
    Nothing,
    /// Install packages
    Install(Vec<String>),
    /// Remove packages and nothing else
    Remove(Vec<String>),
    /// Work out the plan of a mega delete, to be sent back under the key
    Plan { key: String, targets: Vec<String> },
    /// Carry a plan out
    RemoveMega(Box<MegaPlan>),
}

impl View for Effect {
    type V = EffectView;

    open spec fn view(&self) -> EffectView {
        match *self {
            Effect::Nothing => EffectView::Nothing,
            Effect::Install(names) => EffectView::Install(text::texts(names@)),
            Effect::Remove(names) => EffectView::Remove(text::texts(names@)),
            Effect::Plan { key, targets } => EffectView::Plan {
                key: key@,
                targets: text::texts(targets@),
            },
            Effect::RemoveMega(plan) => EffectView::RemoveMega((*plan)@),
        }
    }
}

/// What is asked for in the background.
pub enum Request {
    /// The files of an installed package
    Files(String),
    /// The details of a package that is not installed
    Details(Box<Pkg>),
}

impl View for Request {
    type V = RequestView;

    open spec fn view(&self) -> RequestView {
        match *self {
            Request::Files(name) => RequestView::Files(name@),
            Request::Details(pkg) => RequestView::Details((*pkg)@),
        }
    }
}

/// A package that was just installed, with what `pacman -Ql` printed of it.
pub struct Landed {
    pub name: String,
    pub listing: String,
}

/// The names and listings of what was just installed.
pub open spec fn landed_views(landed: Seq<Landed>) -> Seq<(Seq<char>, Seq<char>)> {
    Seq::new(landed.len(), |i: int| (landed[i].name@, landed[i].listing@))
}

/// The application.
pub struct App {
    pub installed: Vec<Pkg>,
    pub installed_names: NameSet,
    pub query: String,
    /// Remote search results (AUR + pacman tab)
    pub results: Vec<Pkg>,
    /// Installed packages filtered by the query (Downloaded tab). Unused while
    /// the query is empty; `installed` is shown directly then so 1000+ records
    /// are not cloned for nothing.
    pub filtered: Vec<Pkg>,
    pub tab: Tab,
    pub search_pending: bool,
    pub state: ListState,
    pub marked: NameSet,
    /// Where the last plain-space mark happened, for Shift+Space range marking
    pub anchor: Option<usize>,
    /// Full record for the package shown in the right pane
    pub details: Option<Pkg>,
    pub files: Vec<String>,
    pub detail_scroll: u16,
    pub overlay: Overlay,
    pub status: String,
    /// When the last key came that changed the query, in milliseconds
    pub last_key: u64,
    /// When the theme files were last looked at, in milliseconds
    pub last_theme_check: u64,
    pub last_searched: String,
    /// Package whose details were already requested, so we ask only once
    pub detail_requested: String,
    pub quit: bool,
}

/// The contents of an optional package.
pub open spec fn pkg_view(pkg: Option<Pkg>) -> Option<pacman::PkgView> {
    match pkg {
        Some(p) => Some(p@),
        None => None,
    }
}

impl View for App {
    type V = AppView;

    open spec fn view(&self) -> AppView {
        AppView {
            installed: pacman::pkg_views(self.installed@),
            installed_names: self.installed_names@,
            query: self.query@,
            results: pacman::pkg_views(self.results@),
            filtered: pacman::pkg_views(self.filtered@),
            tab: self.tab,
            search_pending: self.search_pending,
            state: self.state,
            marked: self.marked@,
            anchor: self.anchor,
            details: pkg_view(self.details),
            files: text::texts(self.files@),
            detail_scroll: self.detail_scroll,
            overlay: self.overlay@,
            status: self.status@,
            last_key: self.last_key,
            last_theme_check: self.last_theme_check,
            last_searched: self.last_searched@,
            detail_requested: self.detail_requested@,
            quit: self.quit,
        }
    }
}

/// The empty list of strings.
fn no_texts() -> (r: Vec<String>)
    ensures
        text::texts(r@) == Seq::<Seq<char>>::empty(),
{
    let v: Vec<String> = Vec::new();
    assert(text::texts(v@) =~= seq![]);
    v
}

/// The empty list of packages.
fn no_pkgs() -> (r: Vec<Pkg>)
    ensures
        pacman::pkg_views(r@) == Seq::<pacman::PkgView>::empty(),
{
    let v: Vec<Pkg> = Vec::new();
    assert(pacman::pkg_views(v@) =~= seq![]);
    v
}

/// A number in front of a text.
fn number_of(n: usize, back: &str) -> (r: String)
    ensures
        r@ == text::counted(seq![], n as nat, back@),
{
    assert(""@ =~= seq![]) by {
        reveal_strlit("");
    }
    text::count("", n, back)
}

impl App {
    /// The sets are sets, and the state is one that `AppView::ok` allows.
    pub open spec fn wf(&self) -> bool {
        &&& self.installed_names.wf()
        &&& self.marked.wf()
        &&& self@.ok()
    }

    /// Names that count as installed: real package names plus the virtual
    /// names they provide.
    ///
    /// NOTE: without `Provides`, 7zip's `sh` dependency showed as missing —
    /// `sh` is provided by bash, not a package of its own.
    pub fn name_set(pkgs: &Vec<Pkg>) -> (r: NameSet)
        ensures
            r.wf(),
            r@ == model::names_of(pacman::pkg_views(pkgs@)),
    {
        let mut set = NameSet::new();
        let ghost all = pacman::pkg_views(pkgs@);
        for i in 0..pkgs.len()
            invariant
                all == pacman::pkg_views(pkgs@),
                set.wf(),
                set@ == model::names_of(all.take(i as int)),
        {
            let ghost before = set@;
            let p = &pkgs[i];
            proof {
                assert(all.take(i + 1).drop_last() =~= all.take(i as int));
                assert(all.take(i + 1).last() == p@);
            }
            set.insert(p.name.clone());
            let ghost bare = ops::bare_names(text::texts(p.provides@));
            assert(bare.take(0).to_set() =~= Set::empty());
            for k in 0..p.provides.len()
                invariant
                    set.wf(),
                    bare == ops::bare_names(text::texts(p.provides@)),
                    set@ =~= before.insert(p.name@).union(bare.take(k as int).to_set()),
            {
                set.insert(pacman::dep_name(p.provides[k].as_str()).to_string());
                proof {
                    assert(bare.take(k + 1) =~= bare.take(k as int).push(bare[k as int]));
                    pacman::lemma_push_to_set(bare.take(k as int), bare[k as int]);
                }
            }
            assert(bare.take(p.provides@.len() as int) =~= bare);
            assert(set@ =~= before.union(model::names_of_one(p@)));
        }
        assert(all.take(pkgs@.len() as int) =~= all);
        set
    }

    /// The application at startup, with the packages that are installed.
    pub fn new(installed: Vec<Pkg>, now: u64) -> (r: App)
        ensures
            r.wf(),
            r@ == AppView::initial(pacman::pkg_views(installed@), now),
    {
        let installed_names = Self::name_set(&installed);
        let selected = if installed.len() > 0 {
            Some(0)
        } else {
            None
        };
        let r = App {
            status: number_of(installed.len(), " packages installed"),
            installed,
            installed_names,
            query: String::new(),
            results: no_pkgs(),
            filtered: no_pkgs(),
            tab: Tab::Downloaded,
            search_pending: false,
            state: ListState { offset: 0, selected },
            marked: NameSet::new(),
            anchor: None,
            details: None,
            files: no_texts(),
            detail_scroll: 0,
            overlay: Overlay::Closed,
            last_key: now,
            last_theme_check: now,
            last_searched: String::new(),
            detail_requested: String::new(),
            quit: false,
        };
        assert(r@ =~= AppView::initial(pacman::pkg_views(r.installed@), now));
        r
    }

    /// The list on screen, per the active tab.
    pub fn list(&self) -> (r: &[Pkg])
        ensures
            pacman::pkg_views(r@) == self@.list(),
            r@.len() == self@.list().len(),
    {
        match self.tab {
            Tab::Downloaded => if self.query.as_str().is_empty() {
                self.installed.as_slice()
            } else {
                self.filtered.as_slice()
            },
            Tab::Remote => self.results.as_slice(),
        }
    }

    /// The package under the cursor.
    pub fn current(&self) -> (r: Option<&Pkg>)
        ensures
            match r {
                Some(p) => self@.current() == Some(p@),
                None => self@.current() is None,
            },
    {
        let list = self.list();
        match self.state.selected {
            Some(i) => if i < list.len() {
                assert(pacman::pkg_views(list@)[i as int] == list@[i as int]@);
                Some(&list[i])
            } else {
                None
            },
            None => None,
        }
    }

    /// Puts the cursor on a row, or on none.
    fn select(&mut self, row: Option<usize>)
        ensures
            final(self)@ == old(self)@.select(row),
            final(self).installed_names == old(self).installed_names,
            final(self).marked == old(self).marked,
    {
        self.state.selected = row;
        if row.is_none() {
            self.state.offset = 0;
        }
        assert(self@ =~= old(self)@.select(row));
    }

    /// Puts the cursor on the first row, if there is one.
    fn select_first(&mut self)
        ensures
            final(self)@ == old(self)@.select_first(),
            final(self).installed_names == old(self).installed_names,
            final(self).marked == old(self).marked,
    {
        let len = self.list().len();
        self.select(
            if len == 0 {
                None
            } else {
                Some(0)
            },
        );
    }

    /// Filter the installed packages by the query. Local work, no network.
    fn refilter(&mut self)
        ensures
            final(self)@ == old(self)@.refilter(),
            final(self).installed_names == old(self).installed_names,
            final(self).marked == old(self).marked,
    {
        if self.tab != Tab::Downloaded || self.query.as_str().is_empty() {
            return;
        }
        let lower = self.query.as_str().to_lowercase();
        let q = text::chars_of(lower.as_str());
        let ghost all = pacman::pkg_views(self.installed@);
        let mut out: Vec<Pkg> = Vec::new();
        assert(pacman::pkg_views(out@) =~= seq![]);
        for i in 0..self.installed.len()
            invariant
                all == pacman::pkg_views(self.installed@),
                pacman::pkg_views(out@) == model::fitting(all.take(i as int), q@),
        {
            let ghost before = pacman::pkg_views(out@);
            let p = &self.installed[i];
            proof {
                assert(all.take(i + 1).drop_last() =~= all.take(i as int));
                assert(all.take(i + 1).last() == p@);
            }
            let name = p.name.as_str().to_lowercase();
            let description = p.description.as_str().to_lowercase();
            let n = text::chars_of(name.as_str());
            let d = text::chars_of(description.as_str());
            if text::contains(n.as_slice(), q.as_slice()) || text::contains(
                d.as_slice(),
                q.as_slice(),
            ) {
                let pkg = p.clone();
                out.push(pkg);
                assert(pacman::pkg_views(out@) =~= before.push(p@));
            }
        }
        assert(all.take(self.installed@.len() as int) =~= all);
        self.status = number_of(out.len(), " installed packages match");
        self.filtered = out;
        assert(self@ =~= old(self)@.refilter());
    }

    /// Forgets what the right pane shows.
    fn reset_detail(&mut self)
        ensures
            final(self)@ == old(self)@.reset_detail(),
            final(self).installed_names == old(self).installed_names,
            final(self).marked == old(self).marked,
    {
        self.details = None;
        self.files = no_texts();
        self.detail_requested = String::new();
        self.detail_scroll = 0;
        assert(self@ =~= old(self)@.reset_detail());
    }

    /// Forgets the marks.
    fn unmark(&mut self)
        ensures
            final(self)@ == old(self)@.unmark(),
            final(self).installed_names == old(self).installed_names,
            final(self).marked.wf(),
    {
        self.marked = NameSet::new();
        self.anchor = None;
        assert(self@ =~= old(self)@.unmark());
    }

    /// Says how many packages are installed.
    fn count_installed(&mut self)
        ensures
            final(self)@ == old(self)@.count_installed(),
            final(self).installed_names == old(self).installed_names,
            final(self).marked == old(self).marked,
    {
        self.status = number_of(self.installed.len(), " packages installed");
        assert(self@ =~= old(self)@.count_installed());
    }

    /// Switch tabs. The query survives, so a term typed once can be looked up
    /// in the other source with a single keypress.
    pub fn switch_tab(&mut self, now: u64)
        requires
            old(self).wf(),
        ensures
            final(self).wf(),
            final(self)@ == old(self)@.switch_tab(now),
    {
        self.tab = self.tab.other();
        self.unmark();
        self.refilter();
        if self.tab == Tab::Remote {
            self.last_key = now;
        }
        self.select_first();
        self.reset_detail();
        if self.tab == Tab::Downloaded && self.query.as_str().is_empty() {
            self.count_installed();
        }
        assert(self@ =~= old(self)@.switch_tab(now));
    }

    /// Whether the package under the cursor has a name.
    fn is_current(&self, name: &str) -> (r: bool)
        ensures
            r == self@.is_current(name@),
    {
        match self.current() {
            Some(p) => text::equal(p.name.as_str(), name),
            None => false,
        }
    }

    /// Takes a reply in.
    pub fn handle_msg(&mut self, msg: Msg)
        requires
            old(self).wf(),
        ensures
            final(self).wf(),
            final(self)@ == old(self)@.handle_msg(msg@),
    {
        match msg {
            Msg::Search(q, results) => {
                // Stale if the query or the tab moved on in the meantime
                if !text::equal(q.as_str(), self.query.as_str()) || self.tab != Tab::Remote {
                    return;
                }
                self.search_pending = false;
                let mut status = number_of(results.len(), " results for \"");
                status.append(q.as_str());
                status.append("\"");
                self.status = status;
                self.results = results;
                self.select_first();
                self.reset_detail();
            },
            Msg::Details(name, pkg) => {
                if self.is_current(name.as_str()) {
                    self.details = Some(*pkg);
                }
            },
            Msg::Files(name, files) => {
                if self.is_current(name.as_str()) {
                    self.files = files;
                }
            },
            Msg::Plan(key, plan) => {
                // If the targets changed while the plan was being computed,
                // drop it — a confirmation screen for the wrong package ends
                // badly.
                let targets = self.targets();
                let now = text::join(&targets, ",");
                if text::equal(now.as_str(), key.as_str()) {
                    self.overlay = Overlay::MegaConfirm {
                        plan,
                        scroll: 0,
                        button: 0,
                        content_lines: 0,
                        view_lines: 0,
                    };
                } else {
                    self.overlay = Overlay::Closed;
                    self.status = "selection changed, mega delete cancelled".to_string();
                }
            },
        }
        assert(self@ =~= old(self)@.handle_msg(msg@));
    }

    /// Fire the remote search once the query settled. Returns the query to
    /// search for.
    pub fn maybe_search(&mut self, now: u64) -> (r: Option<String>)
        requires
            old(self).wf(),
        ensures
            final(self).wf(),
            match r {
                Some(q) => old(self)@.search_is_due(now) && q@ == old(self)@.query && final(self)@
                    == old(self)@.searching(),
                None => !old(self)@.search_is_due(now) && final(self)@ == old(self)@,
            },
    {
        if self.tab != Tab::Remote || self.query.as_str().is_empty() || text::equal(
            self.query.as_str(),
            self.last_searched.as_str(),
        ) {
            return None;
        }
        let elapsed: u64 = if now < self.last_key {
            0
        } else {
            now - self.last_key
        };
        if elapsed < model::DEBOUNCE {
            return None;
        }
        self.last_searched = self.query.clone();
        self.search_pending = true;
        self.status = text::concat3("searching ", self.query.as_str(), "…");
        assert(self@ =~= old(self)@.searching());
        Some(self.query.clone())
    }

    /// The first installed package of a name.
    fn find_installed(&self, name: &str) -> (r: Option<&Pkg>)
        ensures
            match r {
                Some(p) => model::first_named(self@.installed, name@) == Some(p@),
                None => model::first_named(self@.installed, name@) is None,
            },
    {
        let n = self.installed.len();
        let ghost all = pacman::pkg_views(self.installed@);
        let mut i: usize = 0;
        assert(all.skip(0) =~= all);
        while i < n
            invariant
                n == self.installed@.len(),
                i <= n,
                all == pacman::pkg_views(self.installed@),
                model::first_named(all, name@) == model::first_named(all.skip(i as int), name@),
            decreases n - i,
        {
            let p = &self.installed[i];
            assert(all.skip(i as int)[0] == p@);
            if text::equal(p.name.as_str(), name) {
                return Some(p);
            }
            assert(all.skip(i as int).drop_first() =~= all.skip(i + 1));
            i += 1;
        }
        None
    }

    /// Details for the selected package. Installed ones are already in memory
    /// (one `pacman -Qi` at startup), so only the file list costs a process.
    /// For anything else the details come over the network. Returns what to
    /// ask for.
    pub fn maybe_load_details(&mut self) -> (r: Option<Request>)
        requires
            old(self).wf(),
        ensures
            final(self).wf(),
            final(self)@ == old(self)@.load_details().0,
            match r {
                Some(request) => old(self)@.load_details().1 == Some(request@),
                None => old(self)@.load_details().1 is None,
            },
    {
        let pkg = match self.current() {
            Some(p) => p.clone(),
            None => {
                return None;
            },
        };
        if text::equal(pkg.name.as_str(), self.detail_requested.as_str()) {
            return None;
        }
        self.detail_requested = pkg.name.clone();
        self.details = None;
        self.files = no_texts();
        self.detail_scroll = 0;
        if pkg.installed {
            let full = match self.find_installed(pkg.name.as_str()) {
                Some(p) => p.clone(),
                None => pkg.clone(),
            };
            self.details = Some(full);
            assert(self@ =~= old(self)@.load_details().0);
            Some(Request::Files(pkg.name.clone()))
        } else {
            assert(self@ =~= old(self)@.load_details().0);
            Some(Request::Details(Box::new(pkg)))
        }
    }

    /// Pick up a desktop theme switch while the window is open: tells whether
    /// the theme files are to be looked at now.
    pub fn maybe_reload_theme(&mut self, now: u64) -> (r: bool)
        requires
            old(self).wf(),
        ensures
            final(self).wf(),
            r == old(self)@.theme_is_due(now),
            r ==> final(self)@ == (AppView { last_theme_check: now, ..old(self)@ }),
            !r ==> final(self)@ == old(self)@,
    {
        let elapsed: u64 = if now < self.last_theme_check {
            0
        } else {
            now - self.last_theme_check
        };
        if elapsed < model::THEME_POLL {
            return false;
        }
        self.last_theme_check = now;
        assert(self@ =~= (AppView { last_theme_check: now, ..old(self)@ }));
        true
    }

    /// Says that the theme changed.
    pub fn theme_changed(&mut self, name: &str)
        requires
            old(self).wf(),
        ensures
            final(self).wf(),
            final(self)@ == (AppView { status: "theme: "@ + name@, ..old(self)@ }),
    {
        self.status = text::concat("theme: ", name);
        assert(self@ =~= (AppView { status: "theme: "@ + name@, ..old(self)@ }));
    }

    /// Moves the cursor by some rows, within the list.
    pub fn move_cursor(&mut self, delta: isize)
        requires
            old(self).wf(),
        ensures
            final(self).wf(),
            final(self)@ == old(self)@.move_cursor(delta as int),
    {
        let len = self.list().len();
        if len == 0 {
            return;
        }
        let cur: usize = match self.state.selected {
            Some(i) => i,
            None => 0,
        };
        let next: usize = if delta < 0 {
            let up = (-(delta + 1)) as usize;
            if cur <= up {
                0
            } else {
                cur - up - 1
            }
        } else {
            let down = delta as usize;
            if len - 1 - cur <= down {
                len - 1
            } else {
                cur + down
            }
        };
        assert(next == model::clamp(cur + delta, 0, len - 1));
        self.select(Some(next));
    }

    /// Marked packages, or the one under the cursor when nothing is marked.
    pub fn targets(&self) -> (r: Vec<String>)
        requires
            self.wf(),
        ensures
            text::texts(r@) == self@.targets(),
    {
        if !self.marked.is_empty() {
            return self.marked.to_vec();
        }
        let mut out: Vec<String> = no_texts();
        if let Some(p) = self.current() {
            out.push(p.name.clone());
            assert(text::texts(out@) =~= seq![p@.name]);
        }
        out
    }

    /// Label for the delete dialog: the marked set, or the row under the
    /// cursor.
    pub fn delete_targets_label(&self) -> (r: String)
        requires
            self.wf(),
        ensures
            r@ == self@.delete_targets_label(),
    {
        let t = self.targets();
        let n = t.len();
        let ghost all = text::texts(t@);
        assert(n == all.len());
        if n == 0 {
            String::new()
        } else if n == 1 {
            assert(all[0] == t@[0]@);
            t[0].clone()
        } else if n <= 3 {
            text::join(&t, ", ")
        } else {
            assert(all[0] == t@[0]@ && all[1] == t@[1]@);
            let mut out = text::concat3(t[0].as_str(), ", ", t[1].as_str());
            let more = text::count(" … (", n, " packages)");
            out.append(more.as_str());
            out
        }
    }

    /// Marks the row under the cursor, or unmarks it.
    pub fn toggle_mark(&mut self)
        requires
            old(self).wf(),
        ensures
            final(self).wf(),
            final(self)@ == old(self)@.toggle_mark(),
    {
        let name = match self.current() {
            Some(p) => p.name.clone(),
            None => {
                return;
            },
        };
        if !self.marked.remove(name.as_str()) {
            self.marked.insert(name);
        }
        self.anchor = self.state.selected;
        proof {
            let was = old(self)@.marked;
            if !was.contains(name@) {
                assert(was.remove(name@) =~= was);
            }
        }
        assert(self@ =~= old(self)@.toggle_mark());
    }

    /// Shift+Space: mark everything between the last marked row and this one.
    pub fn mark_range(&mut self)
        requires
            old(self).wf(),
            old(self)@.has_range(),
        ensures
            final(self).wf(),
            final(self)@ == old(self)@.mark_range(),
    {
        let index = match self.state.selected {
            Some(i) => i,
            None => {
                return;
            },
        };
        let anchor = match self.anchor {
            Some(a) => a,
            None => {
                // No anchor yet — behave like a plain mark so the first press
                // is never a no-op.
                self.toggle_mark();
                return;
            },
        };
        let (lo, hi) = if anchor <= index {
            (anchor, index)
        } else {
            (index, anchor)
        };
        let mut marked = self.marked.copy();
        let list = self.list();
        let ghost rows = model::row_names(self@.list(), lo as int, hi as int);
        let ghost was = self@.marked;
        assert(rows.take(0).to_set() =~= Set::empty());
        let mut i: usize = lo;
        while i <= hi
            invariant
                lo <= i <= hi + 1,
                hi < list@.len(),
                pacman::pkg_views(list@) == self@.list(),
                rows == model::row_names(self@.list(), lo as int, hi as int),
                marked.wf(),
                marked@ =~= was.union(rows.take(i - lo).to_set()),
            decreases hi + 1 - i,
        {
            assert(pacman::pkg_views(list@)[i as int] == list@[i as int]@);
            marked.insert(list[i].name.clone());
            proof {
                assert(rows[i - lo] == list@[i as int].name@);
                assert(rows.take(i + 1 - lo) =~= rows.take(i - lo).push(rows[i - lo]));
                pacman::lemma_push_to_set(rows.take(i - lo), rows[i - lo]);
            }
            i += 1;
        }
        assert(rows.take(hi + 1 - lo) =~= rows);
        let total = marked.len();
        let mut status = number_of(hi - lo + 1, " marked in range · ");
        let more = number_of(total, " total");
        status.append(more.as_str());
        self.marked = marked;
        self.anchor = Some(index);
        self.status = status;
        assert(self@ =~= old(self)@.mark_range());
    }

    /// Shows the list for a query that changed.
    fn on_query_changed(&mut self)
        ensures
            final(self)@ == old(self)@.on_query_changed(),
            final(self).installed_names == old(self).installed_names,
            final(self).marked.wf(),
    {
        self.refilter();
        if self.tab == Tab::Remote && self.query.as_str().is_empty() {
            self.results = no_pkgs();
            self.last_searched = String::new();
        }
        self.unmark();
        self.select_first();
        self.reset_detail();
        assert(self@ =~= old(self)@.on_query_changed());
    }

    /// Drops the names that count as installed.
    fn not_installed(&self, names: &Vec<String>) -> (r: Vec<String>)
        requires
            self.wf(),
        ensures
            text::texts(r@) == model::names_outside(
                text::texts(names@),
                self@.installed_names,
            ),
    {
        let ghost all = text::texts(names@);
        let mut out: Vec<String> = no_texts();
        for i in 0..names.len()
            invariant
                self.wf(),
                all == text::texts(names@),
                text::texts(out@) == model::names_outside(
                    all.take(i as int),
                    self@.installed_names,
                ),
        {
            let ghost before = text::texts(out@);
            proof {
                assert(all.take(i + 1).drop_last() =~= all.take(i as int));
                assert(all.take(i + 1).last() == names@[i as int]@);
            }
            if !self.installed_names.contains(names[i].as_str()) {
                out.push(names[i].clone());
                assert(text::texts(out@) =~= before.push(names@[i as int]@));
            }
        }
        assert(all.take(names@.len() as int) =~= all);
        out
    }

    /// Keeps the names that count as installed: what an install brought.
    pub fn installed_now(&self, names: &Vec<String>) -> (r: Vec<String>)
        requires
            self.wf(),
        ensures
            text::texts(r@) == model::names_inside(text::texts(names@), self@.installed_names),
    {
        let ghost all = text::texts(names@);
        let mut out: Vec<String> = no_texts();
        for i in 0..names.len()
            invariant
                self.wf(),
                all == text::texts(names@),
                text::texts(out@) == model::names_inside(
                    all.take(i as int),
                    self@.installed_names,
                ),
        {
            let ghost before = text::texts(out@);
            proof {
                assert(all.take(i + 1).drop_last() =~= all.take(i as int));
                assert(all.take(i + 1).last() == names@[i as int]@);
            }
            if self.installed_names.contains(names[i].as_str()) {
                out.push(names[i].clone());
                assert(text::texts(out@) =~= before.push(names@[i as int]@));
            }
        }
        assert(all.take(names@.len() as int) =~= all);
        out
    }

    /// Shows where everything landed after an install.
    pub fn show_installed(&mut self, landed: Vec<Landed>)
        requires
            old(self).wf(),
        ensures
            final(self).wf(),
            final(self)@ == old(self)@.show_installed(landed_views(landed@)),
    {
        let ghost all = landed_views(landed@);
        let mut names: Vec<String> = no_texts();
        let mut files: Vec<String> = no_texts();
        for i in 0..landed.len()
            invariant
                all == landed_views(landed@),
                text::texts(names@) == Seq::new(i as nat, |k: int| all[k].0),
                text::texts(files@) == model::landed_files(all.take(i as int)),
        {
            let ghost before = text::texts(files@);
            let ghost named = text::texts(names@);
            proof {
                assert(all.take(i + 1).drop_last() =~= all.take(i as int));
                assert(all.take(i + 1).last() == all[i as int]);
            }
            names.push(landed[i].name.clone());
            assert(text::texts(names@) =~= named.push(landed@[i as int].name@));
            files.push(text::concat("── ", landed[i].name.as_str()));
            assert(text::texts(files@) =~= before + seq!["── "@ + landed@[i as int].name@]);
            let ghost headed = text::texts(files@);
            let mut owned = pacman::files(landed[i].listing.as_str());
            let ghost paths = text::texts(owned@);
            files.append(&mut owned);
            assert(text::texts(files@) =~= headed + paths);
        }
        assert(all.take(landed@.len() as int) =~= all);
        self.overlay = Overlay::Installed { names, files, scroll: 0 };
        assert(self@ =~= old(self)@.show_installed(all));
    }

    /// Refresh the installed list after an install or a removal.
    pub fn after_change(&mut self, installed: Vec<Pkg>)
        requires
            old(self).wf(),
        ensures
            final(self).wf(),
            final(self)@ == old(self)@.after_change(pacman::pkg_views(installed@)),
    {
        self.installed_names = Self::name_set(&installed);
        self.installed = installed;
        self.unmark();
        self.refilter();
        self.reset_detail();
        let len = self.list().len();
        let cur: usize = match self.state.selected {
            Some(i) => i,
            None => 0,
        };
        if len == 0 {
            self.select(None);
        } else if cur >= len {
            self.select(Some(len - 1));
        }
        self.count_installed();
        assert(self@ =~= old(self)@.after_change(pacman::pkg_views(installed@)));
    }

    /// Keeps how tall the mega dialog was: the lines of its content and the
    /// rows it had.
    pub fn measured(&mut self, content: u16, view: u16)
        requires
            old(self).wf(),
        ensures
            final(self).wf(),
            final(self)@ == old(self)@.measured(content, view),
    {
        if let Overlay::MegaConfirm { content_lines, view_lines, .. } = &mut self.overlay {
            *content_lines = content;
            *view_lines = view;
        }
        assert(self@ =~= old(self)@.measured(content, view));
    }

    /// Keeps the first row that the list showed.
    pub fn scrolled_to(&mut self, offset: usize)
        requires
            old(self).wf(),
        ensures
            final(self).wf(),
            final(self)@ == (AppView {
                state: ListState { offset, ..old(self)@.state },
                ..old(self)@
            }),
    {
        self.state.offset = offset;
        assert(self@ =~= (AppView {
            state: ListState { offset, ..old(self)@.state },
            ..old(self)@
        }));
    }

    /// D: installs on the remote tab, opens the delete choices on the
    /// installed one.
    fn on_d(&mut self) -> (r: Effect)
        requires
            old(self).wf(),
        ensures
            final(self).wf(),
            (final(self)@, r@) == old(self)@.on_d(),
    {
        let targets = self.targets();
        assert(text::texts(targets@).len() == targets@.len());
        if targets.is_empty() {
            return Effect::Nothing;
        }
        if self.tab == Tab::Remote {
            let wanted = self.not_installed(&targets);
            assert(text::texts(wanted@).len() == wanted@.len());
            if wanted.is_empty() {
                self.status = "already installed".to_string();
                assert(self@ =~= old(self)@.on_d().0);
                return Effect::Nothing;
            }
            Effect::Install(wanted)
        } else {
            self.overlay = Overlay::DeleteChoice { cursor: 0 };
            assert(self@ =~= old(self)@.on_d().0);
            Effect::Nothing
        }
    }

    /// Shows that a plan is being worked out, and asks for it.
    fn start_mega(&mut self, targets: Vec<String>) -> (r: Effect)
        ensures
            final(self)@ == (AppView {
                overlay: OverlayView::Busy(
                    text::joined(text::texts(targets@), ", "@) + ": working out the plan…"@,
                ),
                ..old(self)@
            }),
            final(self).installed_names == old(self).installed_names,
            final(self).marked == old(self).marked,
            r@ == (EffectView::Plan {
                key: text::joined(text::texts(targets@), ","@),
                targets: text::texts(targets@),
            }),
    {
        let named = text::join(&targets, ", ");
        self.overlay = Overlay::Busy(text::concat(named.as_str(), ": working out the plan…"));
        let key = text::join(&targets, ",");
        assert(self@ =~= (AppView {
            overlay: OverlayView::Busy(
                text::joined(text::texts(targets@), ", "@) + ": working out the plan…"@,
            ),
            ..old(self)@
        }));
        Effect::Plan { key, targets }
    }

    /// A key over the delete choices.
    fn on_choice_key(&mut self, cursor: usize, key: KeyPress) -> (r: Effect)
        requires
            old(self).wf(),
            old(self)@.overlay == (OverlayView::DeleteChoice { cursor }),
        ensures
            final(self).wf(),
            (final(self)@, r@) == old(self)@.on_choice_key(cursor, key),
    {
        match key.code {
            KeyCode::Esc => {
                self.overlay = Overlay::Closed;
            },
            KeyCode::Up | KeyCode::Down => {
                self.overlay = Overlay::DeleteChoice { cursor: 1 - cursor };
            },
            KeyCode::Enter => {
                let targets = self.targets();
                assert(text::texts(targets@).len() == targets@.len());
                if targets.is_empty() {
                    self.overlay = Overlay::Closed;
                } else if cursor == 1 {
                    return self.start_mega(targets);
                } else {
                    self.overlay = Overlay::Closed;
                    assert(self@ =~= old(self)@.on_choice_key(cursor, key).0);
                    return Effect::Remove(targets);
                }
            },
            _ => {},
        }
        assert(self@ =~= old(self)@.on_choice_key(cursor, key).0);
        Effect::Nothing
    }

    /// A key over the confirmation of a mega delete.
    fn on_confirm_key(
        &mut self,
        plan: Box<MegaPlan>,
        scroll: u16,
        button: usize,
        content_lines: u16,
        view_lines: u16,
        key: KeyPress,
    ) -> (r: Effect)
        requires
            old(self).wf(),
            button <= 1,
            key.code == KeyCode::Down ==> scroll + 1 <= u16::MAX,
            key.code == KeyCode::PageDown ==> scroll + model::max(view_lines as int, 1)
                <= u16::MAX,
        ensures
            final(self).wf(),
            ({
                let before = AppView {
                    overlay: OverlayView::MegaConfirm {
                        plan: (*plan)@,
                        scroll,
                        button,
                        content_lines,
                        view_lines,
                    },
                    ..old(self)@
                };
                (final(self)@, r@) == before.on_confirm_key(
                    (*plan)@,
                    scroll,
                    button,
                    content_lines,
                    view_lines,
                    key,
                )
            }),
    {
        let ghost before = AppView {
            overlay: OverlayView::MegaConfirm {
                plan: (*plan)@,
                scroll,
                button,
                content_lines,
                view_lines,
            },
            ..self@
        };
        let page: u16 = if view_lines < 1 {
            1
        } else {
            view_lines
        };
        let max_scroll: u16 = content_lines.saturating_sub(view_lines);
        let mut to: u16 = scroll;
        let mut pressed: usize = button;
        match key.code {
            KeyCode::Esc => {
                self.overlay = Overlay::Closed;
                assert(self@ =~= AppView { overlay: OverlayView::Closed, ..before });
                return Effect::Nothing;
            },
            KeyCode::Up => {
                to = scroll.saturating_sub(1);
            },
            KeyCode::Down => {
                to = if scroll + 1 < max_scroll {
                    scroll + 1
                } else {
                    max_scroll
                };
            },
            KeyCode::PageUp => {
                to = scroll.saturating_sub(page);
            },
            KeyCode::PageDown => {
                to = if scroll + page < max_scroll {
                    scroll + page
                } else {
                    max_scroll
                };
            },
            KeyCode::Home => {
                to = 0;
            },
            KeyCode::End => {
                to = max_scroll;
            },
            KeyCode::Left | KeyCode::Right | KeyCode::Tab => {
                pressed = 1 - button;
            },
            KeyCode::Enter => {
                self.overlay = Overlay::Closed;
                assert(self@ =~= AppView { overlay: OverlayView::Closed, ..before });
                if button == 1 && plan.error.is_none() {
                    return Effect::RemoveMega(plan);
                }
                return Effect::Nothing;
            },
            _ => {},
        }
        self.overlay = Overlay::MegaConfirm {
            plan,
            scroll: to,
            button: pressed,
            content_lines,
            view_lines,
        };
        assert(self@ =~= before.on_confirm_key(
            (*plan)@,
            scroll,
            button,
            content_lines,
            view_lines,
            key,
        ).0);
        Effect::Nothing
    }

    /// A key over the list of what was installed.
    fn on_installed_key(
        &mut self,
        names: Vec<String>,
        files: Vec<String>,
        scroll: u16,
        key: KeyPress,
    )
        requires
            old(self).wf(),
        ensures
            final(self).wf(),
            ({
                let before = AppView {
                    overlay: OverlayView::Installed {
                        names: text::texts(names@),
                        files: text::texts(files@),
                        scroll,
                    },
                    ..old(self)@
                };
                final(self)@ == before.on_installed_key(
                    text::texts(names@),
                    text::texts(files@),
                    scroll,
                    key,
                )
            }),
    {
        let mut to: u16 = scroll;
        match key.code {
            KeyCode::Esc | KeyCode::Enter => {
                self.overlay = Overlay::Closed;
                assert(self@ =~= AppView { overlay: OverlayView::Closed, ..old(self)@ });
                return;
            },
            KeyCode::Up => {
                to = scroll.saturating_sub(1);
            },
            KeyCode::Down => {
                to = scroll.saturating_add(1);
            },
            KeyCode::PageUp => {
                to = scroll.saturating_sub(15);
            },
            KeyCode::PageDown => {
                to = scroll.saturating_add(15);
            },
            _ => {},
        }
        self.overlay = Overlay::Installed { names, files, scroll: to };
        assert(self@ =~= (AppView {
            overlay: OverlayView::Installed {
                names: text::texts(names@),
                files: text::texts(files@),
                scroll: to,
            },
            ..old(self)@
        }));
    }

    /// A key over whatever lies over the main screen.
    fn on_overlay_key(&mut self, key: KeyPress) -> (r: Effect)
        requires
            old(self).wf(),
            old(self)@.accepts(key),
        ensures
            final(self).wf(),
            (final(self)@, r@) == old(self)@.on_overlay_key(key),
    {
        let ghost was = self@;
        if let Overlay::DeleteChoice { cursor } = self.overlay {
            return self.on_choice_key(cursor, key);
        }
        let mut overlay = Overlay::Closed;
        std::mem::swap(&mut overlay, &mut self.overlay);
        assert(AppView { overlay: overlay@, ..self@ } =~= was);
        match overlay {
            Overlay::MegaConfirm { plan, scroll, button, content_lines, view_lines } => {
                self.on_confirm_key(plan, scroll, button, content_lines, view_lines, key)
            },
            Overlay::Installed { names, files, scroll } => {
                self.on_installed_key(names, files, scroll, key);
                Effect::Nothing
            },
            Overlay::Busy(msg) => {
                match key.code {
                    KeyCode::Esc => {},
                    _ => {
                        self.overlay = Overlay::Busy(msg);
                    },
                }
                assert(self@ =~= was.on_overlay_key(key).0);
                Effect::Nothing
            },
            _ => {
                assert(self@ =~= was);
                Effect::Nothing
            },
        }
    }

    /// Esc: clears the query, or quits when there is none.
    fn on_esc(&mut self)
        requires
            old(self).wf(),
        ensures
            final(self).wf(),
            final(self)@ == old(self)@.on_esc(),
    {
        if self.query.as_str().is_empty() {
            self.quit = true;
            assert(self@ =~= AppView { quit: true, ..old(self)@ });
            return;
        }
        self.query = String::new();
        self.results = no_pkgs();
        self.filtered = no_pkgs();
        self.last_searched = String::new();
        assert(self@ =~= (AppView {
            query: seq![],
            results: seq![],
            filtered: seq![],
            last_searched: seq![],
            ..old(self)@
        }));
        self.on_query_changed();
        self.count_installed();
    }

    /// A character: a space marks, D acts, anything else is typed.
    ///
    /// NOTE: the kitty keyboard protocol reports a shifted key as the
    /// unshifted char plus SHIFT (Shift+d -> 'd' + SHIFT), while a legacy
    /// terminal sends 'D' with no modifier. Uppercasing here makes both paths
    /// land on the same branch.
    fn on_char(&mut self, c: char, shift: bool, ctrl: bool, now: u64) -> (r: Effect)
        requires
            old(self).wf(),
            c == ' ' && (shift || ctrl) ==> old(self)@.has_range(),
        ensures
            final(self).wf(),
            (final(self)@, r@) == old(self)@.on_char(c, shift, ctrl, now),
    {
        let ch = if shift {
            text::to_upper(c)
        } else {
            c
        };
        // Space marks, so a space cannot be typed into the search box. yay -Ss
        // takes a single term anyway. Shift+Space extends the mark from the
        // last one; Ctrl+Space does the same on terminals that cannot report
        // shift on a space.
        if ch == ' ' && (shift || ctrl) {
            self.mark_range();
        } else if ch == ' ' {
            self.toggle_mark();
        } else if ch == 'D' {
            return self.on_d();
        } else {
            self.query.push(ch);
            self.last_key = now;
            assert(self@ =~= (AppView {
                query: old(self)@.query.push(ch),
                last_key: now,
                ..old(self)@
            }));
            self.on_query_changed();
        }
        Effect::Nothing
    }

    /// A key on the main screen.
    fn on_main_key(&mut self, key: KeyPress, now: u64) -> (r: Effect)
        requires
            old(self).wf(),
            old(self)@.overlay == OverlayView::Closed,
            old(self)@.accepts(key),
        ensures
            final(self).wf(),
            (final(self)@, r@) == old(self)@.on_main_key(key, now),
    {
        match key.code {
            KeyCode::Esc => self.on_esc(),
            KeyCode::Up => self.move_cursor(-1),
            KeyCode::Down => self.move_cursor(1),
            KeyCode::PageUp => self.move_cursor(-10),
            KeyCode::PageDown => self.move_cursor(10),
            // Scroll the right pane; file lists run long
            KeyCode::Left => {
                self.detail_scroll = self.detail_scroll.saturating_sub(5);
                assert(self@ =~= old(self)@.on_main_key(key, now).0);
            },
            KeyCode::Right => {
                self.detail_scroll = self.detail_scroll.saturating_add(5);
                assert(self@ =~= old(self)@.on_main_key(key, now).0);
            },
            KeyCode::Tab | KeyCode::BackTab => self.switch_tab(now),
            KeyCode::Backspace => {
                let _ = self.query.pop();
                self.last_key = now;
                assert(self@ =~= (AppView {
                    query: self@.query,
                    last_key: now,
                    ..old(self)@
                }));
                self.on_query_changed();
            },
            KeyCode::Char(c) => {
                return self.on_char(c, key.shift, key.ctrl, now);
            },
            _ => {},
        }
        Effect::Nothing
    }

    /// Whether a key can be acted on: see `AppView::accepts`.
    pub fn accepts(&self, key: KeyPress) -> (r: bool)
        requires
            self.wf(),
        ensures
            r == self@.accepts(key),
    {
        match &self.overlay {
            Overlay::Closed => match key.code {
                KeyCode::Char(c) => if c == ' ' && (key.shift || key.ctrl) {
                    match (self.state.selected, self.anchor) {
                        (Some(_), Some(anchor)) => anchor < self.list().len(),
                        _ => true,
                    }
                } else {
                    true
                },
                _ => true,
            },
            Overlay::MegaConfirm { scroll, view_lines, .. } => match key.code {
                KeyCode::Down => *scroll < u16::MAX,
                KeyCode::PageDown => {
                    let page: u16 = if *view_lines < 1 {
                        1
                    } else {
                        *view_lines
                    };
                    *scroll <= u16::MAX - page
                },
                _ => true,
            },
            _ => true,
        }
    }

    /// Acts on a key. Returns what it asks the world for.
    pub fn on_key(&mut self, key: KeyPress, now: u64) -> (r: Effect)
        requires
            old(self).wf(),
            old(self)@.accepts(key),
        ensures
            final(self).wf(),
            (final(self)@, r@) == old(self)@.on_key(key, now),
    {
        let interrupt = match key.code {
            KeyCode::Char(c) => key.ctrl && c == 'c',
            _ => false,
        };
        if interrupt {
            self.quit = true;
            assert(self@ =~= AppView { quit: true, ..old(self)@ });
            return Effect::Nothing;
        }
        match self.overlay {
            Overlay::Closed => self.on_main_key(key, now),
            _ => self.on_overlay_key(key),
        }
    }
}

} // verus!
