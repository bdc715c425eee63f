//! Packages, and the output of pacman and yay read into them.
//!
//! Rule: this module CHANGES NOTHING, it only reads what the package tools
//! printed.

use vstd::prelude::*;

use crate::json;
use crate::names::NameSet;
use crate::order;
use crate::text;
use crate::text::Class;

verus! {

// ---------------------------------------------------------------------------
// Packages
// ---------------------------------------------------------------------------

/// What is known of a package.
#[derive(Debug)]
pub struct Pkg {
    pub name: String,
    pub version: String,
    pub description: String,
    pub url: String,
    pub repo: String,
    pub depends: Vec<String>,
    pub optdepends: Vec<String>,
    pub required_by: Vec<String>,
    /// Virtual names this package provides ("sh", "cron" and the like)
    pub provides: Vec<String>,
    pub size: String,
    pub install_reason: String,
    pub installed: bool,
    /// Vote count on AUR results, None for repo packages
    pub votes: Option<String>,
}

/// The contents of a `Pkg`.
#[verifier::ext_equal]
pub struct PkgView {
    pub name: Seq<char>,
    pub version: Seq<char>,
    pub description: Seq<char>,
    pub url: Seq<char>,
    pub repo: Seq<char>,
    pub depends: Seq<Seq<char>>,
    pub optdepends: Seq<Seq<char>>,
    pub required_by: Seq<Seq<char>>,
    pub provides: Seq<Seq<char>>,
    pub size: Seq<char>,
    pub install_reason: Seq<char>,
    pub installed: bool,
    pub votes: Option<Seq<char>>,
}

/// The text of an optional string.
pub open spec fn text_of(s: Option<String>) -> Option<Seq<char>> {
    match s {
        Some(t) => Some(t@),
        None => None,
    }
}

impl View for Pkg {
    type V = PkgView;

    open spec fn view(&self) -> PkgView {
        PkgView {
            name: self.name@,
            version: self.version@,
            description: self.description@,
            url: self.url@,
            repo: self.repo@,
            depends: text::texts(self.depends@),
            optdepends: text::texts(self.optdepends@),
            required_by: text::texts(self.required_by@),
            provides: text::texts(self.provides@),
            size: self.size@,
            install_reason: self.install_reason@,
            installed: self.installed,
            votes: text_of(self.votes),
        }
    }
}

impl PkgView {
    /// A package of which nothing is known.
    pub open spec fn empty() -> PkgView {
        PkgView {
            name: seq![],
            version: seq![],
            description: seq![],
            url: seq![],
            repo: seq![],
            depends: seq![],
            optdepends: seq![],
            required_by: seq![],
            provides: seq![],
            size: seq![],
            install_reason: seq![],
            installed: false,
            votes: None,
        }
    }

    /// Whether the package comes from the AUR.
    pub open spec fn is_aur(self) -> bool {
        self.repo == "aur"@
    }
}

impl Default for Pkg {
    fn default() -> (r: Pkg)
        ensures
            r@ == PkgView::empty(),
    {
        let r = Pkg {
            name: String::new(),
            version: String::new(),
            description: String::new(),
            url: String::new(),
            repo: String::new(),
            depends: Vec::new(),
            optdepends: Vec::new(),
            required_by: Vec::new(),
            provides: Vec::new(),
            size: String::new(),
            install_reason: String::new(),
            installed: false,
            votes: None,
        };
        assert(r@ =~= PkgView::empty());
        r
    }
}

impl Clone for Pkg {
    fn clone(&self) -> (r: Pkg)
        ensures
            r@ == self@,
    {
        let votes = match &self.votes {
            Some(v) => Some(v.clone()),
            None => None,
        };
        Pkg {
            name: self.name.clone(),
            version: self.version.clone(),
            description: self.description.clone(),
            url: self.url.clone(),
            repo: self.repo.clone(),
            depends: text::copy_texts(&self.depends),
            optdepends: text::copy_texts(&self.optdepends),
            required_by: text::copy_texts(&self.required_by),
            provides: text::copy_texts(&self.provides),
            size: self.size.clone(),
            install_reason: self.install_reason.clone(),
            installed: self.installed,
            votes,
        }
    }
}

impl Pkg {
    /// Whether the package comes from the AUR.
    pub fn is_aur(&self) -> (r: bool)
        ensures
            r == self@.is_aur(),
    {
        text::equal(self.repo.as_str(), "aur")
    }
}

/// The contents of a list of packages.
pub open spec fn pkg_views(pkgs: Seq<Pkg>) -> Seq<PkgView> {
    Seq::new(pkgs.len(), |i: int| pkgs[i]@)
}

/// The elements at the places that an order names.
pub open spec fn picked<A>(s: Seq<A>, order: Seq<int>) -> Seq<A> {
    Seq::new(order.len(), |i: int| s[order[i]])
}

/// Puts packages in the order of their keys.
fn arrange(pkgs: &Vec<Pkg>, keys: &Vec<order::Key>) -> (r: Vec<Pkg>)
    requires
        keys@.len() == pkgs@.len(),
    ensures
        pkg_views(r@) == picked(pkg_views(pkgs@), order::order_of(order::key_views(keys@))),
{
    let sorted = order::sort(keys);
    let mut out: Vec<Pkg> = Vec::new();
    let ghost places = order::places(sorted@);
    for i in 0..sorted.len()
        invariant
            places == order::places(sorted@),
            forall|k: int| 0 <= k < sorted@.len() ==> (#[trigger] sorted@[k]) < pkgs@.len(),
            out@.len() == i,
            forall|k: int| 0 <= k < i ==> (#[trigger] out@[k])@ == pkg_views(pkgs@)[places[k]],
    {
        out.push(pkgs[sorted[i]].clone());
    }
    assert(pkg_views(out@) =~= picked(pkg_views(pkgs@), places));
    out
}

// ---------------------------------------------------------------------------
// Names and versions
// ---------------------------------------------------------------------------

/// A version without its package release.
pub open spec fn base_version_of(version: Seq<char>) -> Seq<char> {
    let n = text::after_last_of(version, Class::Is('-'));
    if n > 0 {
        version.take(n - 1)
    } else {
        version
    }
}

/// "26.2.5-1" -> "26.2.5", "1:1.6.8-1" -> "1:1.6.8"
///
/// Arch's pkgver can't contain a '-', so the last one always introduces
/// pkgrel. A split package's translation/locale sub-packages are commonly
/// rebuilt with their own pkgrel independent of the parent — comparing on
/// full "version-rel" strings misses those; the pkgver alone still matches.
pub fn base_version(version: &[char]) -> (r: &[char])
    ensures
        r@ == base_version_of(version@),
{
    let n = text::find_last(version, Class::Is('-'));
    if n > 0 {
        text::head(version, n - 1)
    } else {
        version
    }
}

/// The last dash of a version introduces the release, whatever it follows.
pub proof fn law_base_version_drops_release(pkgver: Seq<char>, pkgrel: Seq<char>)
    requires
        !pkgrel.contains('-'),
    ensures
        base_version_of(pkgver + seq!['-'] + pkgrel) == pkgver,
{
    let s = pkgver + seq!['-'] + pkgrel;
    let n = pkgver.len() + 1;
    assert forall|k: int| n <= k < s.len() implies !Class::Is('-').has(#[trigger] s[k]) by {
        assert(s[k] == pkgrel[k - n]);
    }
    text::lemma_after_last_of_is(s, Class::Is('-'), n as int);
    assert(s.take(n - 1) =~= pkgver);
}

/// The bare name in a dependency.
pub open spec fn dep_name_of(raw: Seq<char>) -> Seq<char> {
    text::trimmed(raw.take(text::first_of(raw, Class::Relation)))
}

/// "pcre2", "pacman>6.1", "sh=1.0" -> "pcre2"
///
/// Dependencies arrive with version constraints; checking whether one is
/// installed needs the bare name.
pub fn dep_name(raw: &str) -> (r: &str)
    ensures
        r@ == dep_name_of(raw@),
{
    let chars = text::chars_of(raw);
    let s = chars.as_slice();
    let end = text::find(s, Class::Relation);
    let front = text::head(s, end);
    let from = text::find(front, Class::Visible);
    let inner = text::tail(front, from);
    let len = text::find_last(inner, Class::Visible);
    proof {
        assert(front@.len() == end);
        assert(inner@.len() == end - from);
        assert(raw@.subrange(from as int, from + len) =~= dep_name_of(raw@));
    }
    raw.substring_char(from, from + len)
}

/// A bare name holds no version relation, and is its own bare name.
pub proof fn law_dep_name_is_bare(raw: Seq<char>)
    ensures
        forall|i: int| 0 <= i < dep_name_of(raw).len() ==> !Class::Relation.has(
            #[trigger] dep_name_of(raw)[i],
        ),
        dep_name_of(dep_name_of(raw)) == dep_name_of(raw),
{
    let end = text::first_of(raw, Class::Relation);
    text::lemma_first_of(raw, Class::Relation);
    let front = raw.take(end);
    text::lemma_first_of(front, Class::Visible);
    let a = text::first_of(front, Class::Visible);
    let inner = front.skip(a);
    text::lemma_after_last_of(inner, Class::Visible);
    let b = text::after_last_of(inner, Class::Visible);
    let name = inner.take(b);
    assert(name == dep_name_of(raw));
    assert forall|i: int| 0 <= i < name.len() implies !Class::Relation.has(#[trigger] name[i]) by {
        assert(name[i] == raw[a + i]);
    }
    text::lemma_first_of_is(name, Class::Relation, name.len() as int);
    assert(name.take(name.len() as int) =~= name);
    if name.len() > 0 {
        assert(name[0] == front[a]);
        assert(name.last() == inner[b - 1]);
    }
    text::lemma_first_of_is(name, Class::Visible, 0);
    assert(name.skip(0) =~= name);
    text::lemma_after_last_of_is(name, Class::Visible, name.len() as int);
}

// ---------------------------------------------------------------------------
// `pacman -Qi` and `pacman -Si`
// ---------------------------------------------------------------------------

/// A record read so far: its fields in the order in which they came, each with
/// its value.
pub open spec fn with_line(
    fields: Seq<(Seq<char>, Seq<char>)>,
    line: Seq<char>,
) -> Seq<(Seq<char>, Seq<char>)> {
    if line.len() > 0 && text::white_space(line[0]) && fields.len() > 0 && fields.last().0.len()
        > 0 {
        // Continuation line — appended with a space between
        fields.drop_last().push(
            (fields.last().0, fields.last().1.push(' ') + text::trimmed(line)),
        )
    } else {
        match text::cut_at(line, ':') {
            Some((field, value)) => fields.push((text::trimmed(field), value)),
            None => fields,
        }
    }
}

/// The fields of a record.
pub open spec fn fields_of(lines: Seq<Seq<char>>) -> Seq<(Seq<char>, Seq<char>)>
    decreases lines.len(),
{
    if lines.len() == 0 {
        seq![]
    } else {
        with_line(fields_of(lines.drop_last()), lines.last())
    }
}

/// The value of a field, without white space on either side: the last one of
/// that name counts, and a missing field is empty.
pub open spec fn value_of(fields: Seq<(Seq<char>, Seq<char>)>, name: Seq<char>) -> Seq<char>
    decreases fields.len(),
{
    if fields.len() == 0 {
        seq![]
    } else if fields.last().0 == name {
        text::trimmed(fields.last().1)
    } else {
        value_of(fields.drop_last(), name)
    }
}

/// The words without the colons at their ends; a word of colons alone is
/// dropped.
pub open spec fn bare_words(words: Seq<Seq<char>>) -> Seq<Seq<char>>
    decreases words.len(),
{
    if words.len() == 0 {
        seq![]
    } else {
        let rest = bare_words(words.drop_last());
        let word = text::up_to_last(words.last(), Class::Not(':'));
        if word.len() > 0 {
            rest.push(word)
        } else {
            rest
        }
    }
}

/// The items of a list field.
pub open spec fn items_of(value: Seq<char>) -> Seq<Seq<char>> {
    let v = text::trimmed(value);
    if v.len() == 0 || v == "None"@ {
        seq![]
    } else {
        bare_words(text::words_of(v))
    }
}

/// "glibc  libgcc  pcre2" -> ["glibc","libgcc","pcre2"], "None" -> []
///
/// Optional Deps lines read "name: description", so the trailing colon goes.
pub fn split_list(value: &[char]) -> (r: Vec<String>)
    ensures
        text::texts(r@) == items_of(value@),
{
    let v = text::trim(value);
    let none = text::chars_of("None");
    let mut out: Vec<String> = Vec::new();
    assert(text::texts(out@) =~= seq![]);
    if v.len() == 0 || text::same(v, none.as_slice()) {
        return out;
    }
    let words = text::words(v);
    let ghost all = text::slices(words@);
    for i in 0..words.len()
        invariant
            all == text::slices(words@),
            text::texts(out@) == bare_words(all.take(i as int)),
    {
        let ghost before = out@;
        let word = text::trim_end(words[i], Class::Not(':'));
        proof {
            assert(all.take(i + 1).drop_last() =~= all.take(i as int));
            assert(all.take(i + 1).last() == words@[i as int]@);
        }
        if word.len() > 0 {
            out.push(text::string_of(word));
            assert(text::texts(out@) =~= text::texts(before).push(word@));
        }
    }
    assert(all.take(words@.len() as int) =~= all);
    out
}

/// What the fields of a record say of its package.
pub open spec fn pkg_of(fields: Seq<(Seq<char>, Seq<char>)>) -> PkgView {
    PkgView {
        name: value_of(fields, "Name"@),
        version: value_of(fields, "Version"@),
        description: value_of(fields, "Description"@),
        url: value_of(fields, "URL"@),
        size: value_of(fields, "Installed Size"@),
        install_reason: value_of(fields, "Install Reason"@),
        depends: items_of(value_of(fields, "Depends On"@)),
        optdepends: items_of(value_of(fields, "Optional Deps"@)),
        required_by: items_of(value_of(fields, "Required By"@)),
        provides: items_of(value_of(fields, "Provides"@)),
        ..PkgView::empty()
    }
}

/// A record without fields says nothing.
proof fn lemma_no_fields()
    ensures
        pkg_of(seq![]) == PkgView::empty(),
        items_of(seq![]) == Seq::<Seq<char>>::empty(),
{
    let none = Seq::<char>::empty();
    text::lemma_first_of(none, Class::Visible);
    text::lemma_after_last_of(none.skip(0), Class::Visible);
    assert(text::trimmed(none) =~= none);
    assert(items_of(none) =~= seq![]);
    assert(pkg_of(seq![]) =~= PkgView::empty());
}

/// Stores a field once it ends.
fn store(pkg: &mut Pkg, field: &str, value: &[char])
    ensures
        forall|fields: Seq<(Seq<char>, Seq<char>)>|
            old(pkg)@ == pkg_of(fields) ==> final(pkg)@ == #[trigger] pkg_of(
                fields.push((field@, value@)),
            ),
{
    let v = text::trim(value);
    if text::equal(field, "Name") {
        pkg.name = text::string_of(v);
    }
    if text::equal(field, "Version") {
        pkg.version = text::string_of(v);
    }
    if text::equal(field, "Description") {
        pkg.description = text::string_of(v);
    }
    if text::equal(field, "URL") {
        pkg.url = text::string_of(v);
    }
    if text::equal(field, "Installed Size") {
        pkg.size = text::string_of(v);
    }
    if text::equal(field, "Install Reason") {
        pkg.install_reason = text::string_of(v);
    }
    if text::equal(field, "Depends On") {
        pkg.depends = split_list(v);
    }
    if text::equal(field, "Optional Deps") {
        pkg.optdepends = split_list(v);
    }
    if text::equal(field, "Required By") {
        pkg.required_by = split_list(v);
    }
    if text::equal(field, "Provides") {
        pkg.provides = split_list(v);
    }
    proof {
        assert forall|fields: Seq<(Seq<char>, Seq<char>)>|
            old(pkg)@ == pkg_of(fields) implies pkg@ == #[trigger] pkg_of(
            fields.push((field@, value@)),
        ) by {
            assert(fields.push((field@, value@)).drop_last() =~= fields);
        }
    }
}

/// Reads one record.
fn parse_block(block: &[char]) -> (r: Pkg)
    ensures
        r@ == pkg_of(fields_of(text::lines_of(block@))),
{
    let mut pkg = Pkg::default();
    let mut field: String = String::new();
    let mut value: Vec<char> = Vec::new();
    // Whether a field has begun; its name may be empty all the same
    let mut open: bool = false;
    let lines = text::lines(block);
    let ghost all = text::slices(lines@);
    // The fields that have ended
    let ghost mut ended: Seq<(Seq<char>, Seq<char>)> = seq![];
    proof {
        lemma_no_fields();
        assert(all.take(0) =~= seq![]);
    }
    for i in 0..lines.len()
        invariant
            all == text::slices(lines@),
            pkg@ == pkg_of(ended),
            fields_of(all.take(i as int)) == if open {
                ended.push((field@, value@))
            } else {
                ended
            },
            !open ==> field@.len() == 0 && ended.len() == 0,
    {
        let line = lines[i];
        let ghost fields = fields_of(all.take(i as int));
        proof {
            assert(all.take(i + 1).drop_last() =~= all.take(i as int));
            assert(all.take(i + 1).last() == line@);
        }
        if line.len() > 0 && line[0].is_whitespace() && !field.as_str().is_empty() {
            // Continuation line — append with a space between
            let ghost was = value@;
            value.push(' ');
            let more = text::trim(line);
            for k in 0..more.len()
                invariant
                    more@ == text::trimmed(line@),
                    value@ == was.push(' ') + more@.take(k as int),
            {
                value.push(more[k]);
                assert(more@.take(k + 1) =~= more@.take(k as int).push(more@[k as int]));
            }
            proof {
                assert(more@.take(more@.len() as int) =~= more@);
                assert(ended.push((field@, was)).drop_last() =~= ended);
            }
        } else {
            match text::split_once(line, ':') {
                Some((f, v)) => {
                    if open {
                        store(&mut pkg, field.as_str(), value.as_slice());
                        proof {
                            ended = ended.push((field@, value@));
                        }
                    }
                    field = text::trim_string(f);
                    value = vstd::slice::slice_to_vec(v);
                    open = true;
                },
                None => {},
            }
        }
    }
    assert(all.take(lines@.len() as int) =~= all);
    if open {
        store(&mut pkg, field.as_str(), value.as_slice());
    }
    pkg
}

/// The packages of the records that have a name. Each is installed; one whose
/// name is among the foreign ones comes from the AUR.
pub open spec fn pkgs_of(blocks: Seq<Seq<char>>, foreign: Set<Seq<char>>) -> Seq<PkgView>
    decreases blocks.len(),
{
    if blocks.len() == 0 {
        seq![]
    } else {
        let rest = pkgs_of(blocks.drop_last(), foreign);
        let block = blocks.last();
        let pkg = pkg_of(fields_of(text::lines_of(block)));
        if text::trimmed(block).len() == 0 || pkg.name.len() == 0 {
            rest
        } else {
            rest.push(
                PkgView {
                    installed: true,
                    repo: if foreign.contains(pkg.name) {
                        "aur"@
                    } else {
                        "repo"@
                    },
                    ..pkg
                },
            )
        }
    }
}

/// The packages that a listing of records describes. Blank lines stand
/// between the records.
pub open spec fn listing_of(listing: Seq<char>, foreign: Set<Seq<char>>) -> Seq<PkgView> {
    pkgs_of(text::parts_of(listing, seq!['\n', '\n']), foreign)
}

/// Parse `pacman -Qi` output — every installed package in one call, ~100ms.
///
/// Format: "Field           : value", with continuation lines indented. Field
/// names start at column 0, so checking the indent is enough to tell them
/// apart.
pub fn parse_qi(listing: &str, aur_names: &NameSet) -> (r: Vec<Pkg>)
    requires
        aur_names.wf(),
    ensures
        pkg_views(r@) == listing_of(listing@, aur_names@),
{
    let chars = text::chars_of(listing);
    let mut sep: Vec<char> = Vec::new();
    sep.push('\n');
    sep.push('\n');
    assert(sep@ =~= seq!['\n', '\n']);
    let blocks = text::split(chars.as_slice(), sep.as_slice());
    let ghost all = text::slices(blocks@);
    let mut out: Vec<Pkg> = Vec::new();
    assert(pkg_views(out@) =~= seq![]);
    for i in 0..blocks.len()
        invariant
            aur_names.wf(),
            all == text::slices(blocks@),
            pkg_views(out@) == pkgs_of(all.take(i as int), aur_names@),
    {
        let block = blocks[i];
        let ghost before = out@;
        proof {
            assert(all.take(i + 1).drop_last() =~= all.take(i as int));
            assert(all.take(i + 1).last() == block@);
        }
        if text::trim(block).len() > 0 {
            let mut pkg = parse_block(block);
            if !pkg.name.as_str().is_empty() {
                pkg.installed = true;
                pkg.repo = if aur_names.contains(pkg.name.as_str()) {
                    "aur".to_string()
                } else {
                    "repo".to_string()
                };
                let ghost view = pkg@;
                out.push(pkg);
                assert(pkg_views(out@) =~= pkg_views(before).push(view));
            }
        }
    }
    assert(all.take(blocks@.len() as int) =~= all);
    out
}

// ---------------------------------------------------------------------------
// Plain lists
// ---------------------------------------------------------------------------

/// The lines without white space on either side; empty ones are dropped.
pub open spec fn names_in(lines: Seq<Seq<char>>) -> Seq<Seq<char>>
    decreases lines.len(),
{
    if lines.len() == 0 {
        seq![]
    } else {
        let rest = names_in(lines.drop_last());
        let name = text::trimmed(lines.last());
        if name.len() > 0 {
            rest.push(name)
        } else {
            rest
        }
    }
}

/// Reads a list with one name to the line.
pub fn name_list(listing: &str) -> (r: Vec<String>)
    ensures
        text::texts(r@) == names_in(text::lines_of(listing@)),
{
    let chars = text::chars_of(listing);
    let lines = text::lines(chars.as_slice());
    let ghost all = text::slices(lines@);
    let mut out: Vec<String> = Vec::new();
    assert(text::texts(out@) =~= seq![]);
    for i in 0..lines.len()
        invariant
            all == text::slices(lines@),
            text::texts(out@) == names_in(all.take(i as int)),
    {
        let ghost before = out@;
        let name = text::trim(lines[i]);
        proof {
            assert(all.take(i + 1).drop_last() =~= all.take(i as int));
            assert(all.take(i + 1).last() == lines@[i as int]@);
        }
        if name.len() > 0 {
            out.push(text::string_of(name));
            assert(text::texts(out@) =~= text::texts(before).push(name@));
        }
    }
    assert(all.take(lines@.len() as int) =~= all);
    out
}

/// The set of the names in a list.
pub fn name_set(list: &Vec<String>) -> (r: NameSet)
    ensures
        r.wf(),
        r@ == text::texts(list@).to_set(),
{
    let mut set = NameSet::new();
    let ghost all = text::texts(list@);
    assert(set@ =~= all.take(0).to_set());
    for i in 0..list.len()
        invariant
            all == text::texts(list@),
            set.wf(),
            set@ == all.take(i as int).to_set(),
    {
        set.insert(list[i].clone());
        proof {
            let now = all.take(i + 1);
            assert(now =~= all.take(i as int).push(all[i as int]));
            lemma_push_to_set(all.take(i as int), all[i as int]);
        }
    }
    assert(all.take(list@.len() as int) =~= all);
    set
}

/// A list grown by one has one more member.
pub proof fn lemma_push_to_set(s: Seq<Seq<char>>, x: Seq<char>)
    ensures
        s.push(x).to_set() == s.to_set().insert(x),
{
    assert forall|y: Seq<char>| #[trigger] s.push(x).to_set().contains(y) == s.to_set().insert(
        x,
    ).contains(y) by {
        if s.contains(y) {
            let k = choose|k: int| 0 <= k < s.len() && s[k] == y;
            assert(s.push(x)[k] == y);
        }
        assert(s.push(x)[s.len() as int] == x);
    }
    assert(s.push(x).to_set() =~= s.to_set().insert(x));
}

/// Dependencies nothing uses any more, as `pacman -Qtdq` lists them.
pub fn orphans(listing: &str) -> (r: Vec<String>)
    ensures
        text::texts(r@) == names_in(text::lines_of(listing@)),
{
    name_list(listing)
}

/// The paths in lines of the form "package path".
pub open spec fn paths_in(lines: Seq<Seq<char>>) -> Seq<Seq<char>>
    decreases lines.len(),
{
    if lines.len() == 0 {
        seq![]
    } else {
        let rest = paths_in(lines.drop_last());
        match text::cut_at(lines.last(), ' ') {
            Some((_, path)) => rest.push(path),
            None => rest,
        }
    }
}

/// Full paths of the files a package installed, as `pacman -Ql` lists them.
pub fn files(listing: &str) -> (r: Vec<String>)
    ensures
        text::texts(r@) == paths_in(text::lines_of(listing@)),
{
    let chars = text::chars_of(listing);
    let lines = text::lines(chars.as_slice());
    let ghost all = text::slices(lines@);
    let mut out: Vec<String> = Vec::new();
    assert(text::texts(out@) =~= seq![]);
    for i in 0..lines.len()
        invariant
            all == text::slices(lines@),
            text::texts(out@) == paths_in(all.take(i as int)),
    {
        let ghost before = out@;
        proof {
            assert(all.take(i + 1).drop_last() =~= all.take(i as int));
            assert(all.take(i + 1).last() == lines@[i as int]@);
        }
        match text::split_once(lines[i], ' ') {
            Some((_, path)) => {
                out.push(text::string_of(path));
                assert(text::texts(out@) =~= text::texts(before).push(path@));
            },
            None => {},
        }
    }
    assert(all.take(lines@.len() as int) =~= all);
    out
}

// ---------------------------------------------------------------------------
// Installed packages
// ---------------------------------------------------------------------------

/// The keys that sort packages by name.
pub open spec fn name_keys(pkgs: Seq<PkgView>) -> Seq<order::KeyView> {
    Seq::new(pkgs.len(), |i: int| order::KeyView::by_name(pkgs[i].name))
}

/// The packages by name.
pub open spec fn by_name(pkgs: Seq<PkgView>) -> Seq<PkgView> {
    picked(pkgs, order::order_of(name_keys(pkgs)))
}

/// Every installed package, by name: `foreign` is what `pacman -Qmq` printed,
/// `listing` what `pacman -Qi` did.
pub open spec fn installed_of(foreign: Seq<char>, listing: Seq<char>) -> Seq<PkgView> {
    by_name(listing_of(listing, names_in(text::lines_of(foreign)).to_set()))
}

/// Every installed package. Called once at startup, with what `pacman -Qmq`
/// and `pacman -Qi` printed.
pub fn installed(foreign: &str, listing: &str) -> (r: Vec<Pkg>)
    ensures
        pkg_views(r@) == installed_of(foreign@, listing@),
{
    let aur = name_set(&name_list(foreign));
    let pkgs = parse_qi(listing, &aur);
    let mut keys: Vec<order::Key> = Vec::new();
    let ghost views = pkg_views(pkgs@);
    for i in 0..pkgs.len()
        invariant
            views == pkg_views(pkgs@),
            keys@.len() == i,
            forall|k: int| 0 <= k < i ==> (#[trigger] keys@[k])@ == name_keys(views)[k],
    {
        keys.push(order::Key::by_name(&pkgs[i].name));
    }
    assert(order::key_views(keys@) =~= name_keys(views));
    arrange(&pkgs, &keys)
}

/// The installed packages come by name, each has one, each is installed, and
/// each is either a repo package or one of the foreign ones from the AUR.
pub proof fn law_installed_packages(foreign: Seq<char>, listing: Seq<char>)
    ensures
        ({
            let pkgs = installed_of(foreign, listing);
            &&& forall|i: int, j: int|
                0 <= i < j < pkgs.len() ==> !order::before(
                    (#[trigger] pkgs[j]).name,
                    (#[trigger] pkgs[i]).name,
                )
            &&& forall|i: int|
                0 <= i < pkgs.len() ==> {
                    let pkg = #[trigger] pkgs[i];
                    &&& pkg.name.len() > 0
                    &&& pkg.installed
                    &&& pkg.repo == if names_in(text::lines_of(foreign)).contains(pkg.name) {
                        "aur"@
                    } else {
                        "repo"@
                    }
                }
        }),
{
    let names = names_in(text::lines_of(foreign));
    let listed = listing_of(listing, names.to_set());
    let pkgs = installed_of(foreign, listing);
    let keys = name_keys(listed);
    order::law_order_is_stable(keys);
    let places = order::order_of(keys);
    assert forall|i: int, j: int| 0 <= i < j < pkgs.len() implies !order::before(
        (#[trigger] pkgs[j]).name,
        (#[trigger] pkgs[i]).name,
    ) by {
        let a = keys[places[i]];
        let b = keys[places[j]];
        assert(a.less(b) || a == b);
        order::lemma_before_asymmetric(a.name, b.name);
    }
    lemma_pkgs_of(text::parts_of(listing, seq!['\n', '\n']), names.to_set());
    assert forall|i: int| 0 <= i < pkgs.len() implies ({
        let pkg = #[trigger] pkgs[i];
        &&& pkg.name.len() > 0
        &&& pkg.installed
        &&& pkg.repo == if names.contains(pkg.name) {
            "aur"@
        } else {
            "repo"@
        }
    }) by {
        assert(pkgs[i] == listed[places[i]]);
        assert(names.to_set().contains(pkgs[i].name) == names.contains(pkgs[i].name));
    }
}

/// No installed package is lost: each one of the listing is among them, and
/// there are no more than those.
pub proof fn law_no_installed_package_is_lost(foreign: Seq<char>, listing: Seq<char>, i: int)
    requires
        0 <= i < listing_of(listing, names_in(text::lines_of(foreign)).to_set()).len(),
    ensures
        installed_of(foreign, listing).contains(
            listing_of(listing, names_in(text::lines_of(foreign)).to_set())[i],
        ),
        installed_of(foreign, listing).len() == listing_of(
            listing,
            names_in(text::lines_of(foreign)).to_set(),
        ).len(),
{
    let listed = listing_of(listing, names_in(text::lines_of(foreign)).to_set());
    let keys = name_keys(listed);
    order::law_order_is_stable(keys);
    let places = order::order_of(keys);
    order::lemma_order_is_onto(places, keys, listed.len(), i);
    let k = choose|k: int| 0 <= k < places.len() && places[k] == i;
    assert(installed_of(foreign, listing)[k] == listed[i]);
}

/// Each package of the records has a name, is installed, and comes from the
/// AUR if it is foreign.
proof fn lemma_pkgs_of(blocks: Seq<Seq<char>>, foreign: Set<Seq<char>>)
    ensures
        forall|i: int|
            0 <= i < pkgs_of(blocks, foreign).len() ==> {
                let pkg = #[trigger] pkgs_of(blocks, foreign)[i];
                &&& pkg.name.len() > 0
                &&& pkg.installed
                &&& pkg.repo == if foreign.contains(pkg.name) {
                    "aur"@
                } else {
                    "repo"@
                }
            },
    decreases blocks.len(),
{
    if blocks.len() > 0 {
        lemma_pkgs_of(blocks.drop_last(), foreign);
    }
}

/// Dependencies of one installed package, from what `pacman -Qi` printed of
/// it.
pub open spec fn deps_in(listing: Seq<char>) -> Seq<Seq<char>> {
    let pkgs = listing_of(listing, Set::empty());
    if pkgs.len() > 0 {
        pkgs[0].depends
    } else {
        seq![]
    }
}

/// Dependencies of one installed package, from what `pacman -Qi` printed of
/// it.
pub fn deps_of(listing: &str) -> (r: Vec<String>)
    ensures
        text::texts(r@) == deps_in(listing@),
{
    let none = NameSet::new();
    let pkgs = parse_qi(listing, &none);
    let ghost views = pkg_views(pkgs@);
    if pkgs.len() > 0 {
        assert(views[0] == pkgs@[0]@);
        text::copy_texts(&pkgs[0].depends)
    } else {
        let out: Vec<String> = Vec::new();
        assert(text::texts(out@) =~= seq![]);
        out
    }
}

// ---------------------------------------------------------------------------
// `yay -Ss`
// ---------------------------------------------------------------------------

/// The votes among the words of a result: "(+12 0.53)" gives "12".
pub open spec fn votes_in(words: Seq<Seq<char>>) -> Option<Seq<char>>
    decreases words.len(),
{
    if words.len() == 0 {
        None
    } else if "(+"@.is_prefix_of(words[0]) {
        Some(text::without_leading(words[0], "(+"@))
    } else {
        votes_in(words.drop_first())
    }
}

/// The result that a line names: "repo/name version ...".
pub open spec fn result_of(line: Seq<char>, names: Set<Seq<char>>) -> Option<PkgView> {
    let words = text::words_of(line);
    if words.len() == 0 {
        None
    } else {
        match text::cut_at(words[0], '/') {
            Some((repo, name)) => Some(
                PkgView {
                    name,
                    version: if words.len() > 1 {
                        words[1]
                    } else {
                        seq![]
                    },
                    repo,
                    installed: names.contains(name),
                    votes: if words.len() > 2 {
                        votes_in(words.skip(2))
                    } else {
                        None
                    },
                    ..PkgView::empty()
                },
            ),
            None => None,
        }
    }
}

/// The results of a listing. An indented line is the description of the
/// result above it, unless it has one.
pub open spec fn results_in(lines: Seq<Seq<char>>, names: Set<Seq<char>>) -> Seq<PkgView>
    decreases lines.len(),
{
    if lines.len() == 0 {
        seq![]
    } else {
        let rest = results_in(lines.drop_last(), names);
        let line = lines.last();
        if line.len() > 0 && text::white_space(line[0]) {
            if rest.len() > 0 && rest.last().description.len() == 0 {
                rest.drop_last().push(
                    PkgView { description: text::trimmed(line), ..rest.last() },
                )
            } else {
                rest
            }
        } else {
            match result_of(line, names) {
                Some(pkg) => rest.push(pkg),
                None => rest,
            }
        }
    }
}

/// Whether a package is a part of another: of the same version, and named
/// after it with a dash and more.
pub open spec fn part_of(pkg: PkgView, parent: PkgView) -> bool {
    &&& base_version_of(pkg.version) == base_version_of(parent.version)
    &&& parent.name.push('-').is_prefix_of(pkg.name)
}

/// Whether a result is a part of another one.
pub open spec fn is_part(results: Seq<PkgView>, i: int) -> bool {
    exists|j: int| 0 <= j < results.len() && part_of(results[i], #[trigger] results[j])
}

/// The first `n` results without those that are a part of another.
pub open spec fn whole_among(results: Seq<PkgView>, n: nat) -> Seq<PkgView>
    decreases n,
{
    if n == 0 {
        seq![]
    } else {
        let rest = whole_among(results, (n - 1) as nat);
        if is_part(results, n - 1) {
            rest
        } else {
            rest.push(results[n - 1])
        }
    }
}

/// How well a name fits a query, both in lower case: the same, beginning with
/// it, holding it, or neither.
pub open spec fn rank_of(name: Seq<char>, query: Seq<char>) -> int {
    if name == query {
        0
    } else if query.is_prefix_of(name) {
        1
    } else if text::includes(name, query) {
        2
    } else {
        3
    }
}

/// What results are sorted by: the fit, then repo before AUR, then the
/// shortest name, then the alphabet.
pub open spec fn relevance(pkg: PkgView, query: Seq<char>) -> order::KeyView {
    order::KeyView {
        rank: rank_of(text::lowercase(pkg.name), text::lowercase(query)),
        aur: pkg.is_aur(),
        size: vstd::utf8::encode_utf8(pkg.name).len() as int,
        name: pkg.name,
    }
}

/// The keys that sort results by relevance.
pub open spec fn relevance_keys(pkgs: Seq<PkgView>, query: Seq<char>) -> Seq<order::KeyView> {
    Seq::new(pkgs.len(), |i: int| relevance(pkgs[i], query))
}

/// The results by relevance.
pub open spec fn by_relevance(pkgs: Seq<PkgView>, query: Seq<char>) -> Seq<PkgView> {
    picked(pkgs, order::order_of(relevance_keys(pkgs, query)))
}

/// The results for a query: every package of the listing that is not a part
/// of another one, by relevance.
pub open spec fn search_results(
    query: Seq<char>,
    listing: Seq<char>,
    names: Set<Seq<char>>,
) -> Seq<PkgView> {
    let found = results_in(text::lines_of(listing), names);
    by_relevance(whole_among(found, found.len()), query)
}

/// The votes among the words of a result.
fn find_votes(words: &Vec<&[char]>, from: usize) -> (r: Option<String>)
    requires
        from <= words@.len(),
    ensures
        text_of(r) == votes_in(text::slices(words@).skip(from as int)),
{
    let plus = text::chars_of("(+");
    let n = words.len();
    let ghost all = text::slices(words@);
    let mut i: usize = from;
    while i < n
        invariant
            n == words@.len(),
            from <= i <= n,
            plus@ == "(+"@,
            all == text::slices(words@),
            votes_in(all.skip(from as int)) == votes_in(all.skip(i as int)),
        decreases n - i,
    {
        let word = words[i];
        assert(all.skip(i as int)[0] == word@);
        if text::starts_with(word, plus.as_slice()) {
            return Some(text::string_of(text::trim_leading(word, plus.as_slice())));
        }
        assert(all.skip(i as int).drop_first() =~= all.skip(i + 1));
        i += 1;
    }
    None
}

/// Reads the result that a line names.
fn parse_result(line: &[char], names: &NameSet) -> (r: Option<Pkg>)
    requires
        names.wf(),
    ensures
        match r {
            Some(pkg) => result_of(line@, names@) == Some(pkg@),
            None => result_of(line@, names@) is None,
        },
{
    let words = text::words(line);
    let ghost all = text::slices(words@);
    if words.len() == 0 {
        return None;
    }
    assert(all[0] == words@[0]@);
    match text::split_once(words[0], '/') {
        Some((repo, name)) => {
            let version = if words.len() > 1 {
                assert(all[1] == words@[1]@);
                text::string_of(words[1])
            } else {
                String::new()
            };
            let votes = if words.len() > 2 {
                find_votes(&words, 2)
            } else {
                None
            };
            let name = text::string_of(name);
            let known = names.contains(name.as_str());
            let base = Pkg::default();
            let pkg = Pkg {
                name,
                version,
                repo: text::string_of(repo),
                installed: known,
                votes,
                ..base
            };
            assert(pkg@ =~= result_of(line@, names@)->0);
            Some(pkg)
        },
        None => None,
    }
}

/// Reads the results of a listing.
fn parse_results(listing: &str, names: &NameSet) -> (r: Vec<Pkg>)
    requires
        names.wf(),
    ensures
        pkg_views(r@) == results_in(text::lines_of(listing@), names@),
{
    let chars = text::chars_of(listing);
    let lines = text::lines(chars.as_slice());
    let ghost all = text::slices(lines@);
    let mut out: Vec<Pkg> = Vec::new();
    assert(pkg_views(out@) =~= seq![]);
    for i in 0..lines.len()
        invariant
            names.wf(),
            all == text::slices(lines@),
            pkg_views(out@) == results_in(all.take(i as int), names@),
    {
        let line = lines[i];
        let ghost before = pkg_views(out@);
        proof {
            assert(all.take(i + 1).drop_last() =~= all.take(i as int));
            assert(all.take(i + 1).last() == line@);
        }
        if line.len() > 0 && line[0].is_whitespace() {
            // Description line — belongs to the entry above
            match out.pop() {
                Some(mut last) => {
                    assert(last@ == before.last());
                    if last.description.as_str().is_empty() {
                        last.description = text::trim_string(line);
                    }
                    let ghost view = last@;
                    out.push(last);
                    assert(pkg_views(out@) =~= before.drop_last().push(view));
                    assert(before.drop_last().push(before.last()) =~= before);
                },
                None => {},
            }
        } else {
            match parse_result(line, names) {
                Some(pkg) => {
                    let ghost view = pkg@;
                    out.push(pkg);
                    assert(pkg_views(out@) =~= before.push(view));
                },
                None => {},
            }
        }
    }
    assert(all.take(lines@.len() as int) =~= all);
    out
}

/// Drops the results that are a part of another one.
///
/// Split packages (Arch's term for several packages built from one PKGBUILD —
/// locale packs, sub-plugins) are named "<parent>-<suffix>" and share the
/// parent's pkgver. Searching "libreoffice" otherwise returns
/// libreoffice-fresh plus ~400 per-locale packages (libreoffice-fresh-af, -am,
/// -ar, ...), each one just noise once libreoffice-fresh itself is installed.
///
/// Matching on pkgver, not the full "version-rel" string, is what catches
/// libreoffice-still's own locale packs too — Arch rebuilds those with their
/// own pkgrel (still-af 25.8.7-1 vs still itself 25.8.7-5). pkgver alone is
/// what keeps this from also swallowing packages that only *look* namespaced,
/// like python-numpy under python: numpy's upstream version practically never
/// collides with python's, so it stays visible.
pub fn drop_parts(pkgs: &Vec<Pkg>) -> (r: Vec<Pkg>)
    ensures
        pkg_views(r@) == whole_among(pkg_views(pkgs@), pkgs@.len()),
{
    let ghost views = pkg_views(pkgs@);
    let n = pkgs.len();
    let mut stems: Vec<Vec<char>> = Vec::new();
    let mut names: Vec<Vec<char>> = Vec::new();
    let mut versions: Vec<Vec<char>> = Vec::new();
    for i in 0..n
        invariant
            n == pkgs@.len(),
            views == pkg_views(pkgs@),
            stems@.len() == i,
            names@.len() == i,
            versions@.len() == i,
            forall|k: int| 0 <= k < i ==> (#[trigger] stems@[k])@ == views[k].name.push('-'),
            forall|k: int| 0 <= k < i ==> (#[trigger] names@[k])@ == views[k].name,
            forall|k: int|
                0 <= k < i ==> (#[trigger] versions@[k])@ == base_version_of(views[k].version),
    {
        let name = text::chars_of(pkgs[i].name.as_str());
        let mut stem = text::chars_of(pkgs[i].name.as_str());
        stem.push('-');
        let version = text::chars_of(pkgs[i].version.as_str());
        names.push(name);
        stems.push(stem);
        versions.push(vstd::slice::slice_to_vec(base_version(version.as_slice())));
    }
    let mut out: Vec<Pkg> = Vec::new();
    assert(pkg_views(out@) =~= seq![]);
    for i in 0..n
        invariant
            n == pkgs@.len(),
            views == pkg_views(pkgs@),
            stems@.len() == n,
            names@.len() == n,
            versions@.len() == n,
            forall|k: int| 0 <= k < n ==> (#[trigger] stems@[k])@ == views[k].name.push('-'),
            forall|k: int| 0 <= k < n ==> (#[trigger] names@[k])@ == views[k].name,
            forall|k: int|
                0 <= k < n ==> (#[trigger] versions@[k])@ == base_version_of(views[k].version),
            pkg_views(out@) == whole_among(views, i as nat),
    {
        let mut found: bool = false;
        for j in 0..n
            invariant
                i < n,
                n == pkgs@.len(),
                views == pkg_views(pkgs@),
                stems@.len() == n,
                names@.len() == n,
                versions@.len() == n,
                forall|k: int| 0 <= k < n ==> (#[trigger] stems@[k])@ == views[k].name.push('-'),
                forall|k: int| 0 <= k < n ==> (#[trigger] names@[k])@ == views[k].name,
                forall|k: int|
                    0 <= k < n ==> (#[trigger] versions@[k])@ == base_version_of(views[k].version),
                found <==> exists|k: int|
                    0 <= k < j && part_of(views[i as int], #[trigger] views[k]),
        {
            if !found && text::starts_with(names[i].as_slice(), stems[j].as_slice())
                && text::same(versions[i].as_slice(), versions[j].as_slice()) {
                assert(part_of(views[i as int], views[j as int]));
                found = true;
            }
        }
        let ghost before = pkg_views(out@);
        if !found {
            assert(!is_part(views, i as int));
            let pkg = pkgs[i].clone();
            out.push(pkg);
            assert(pkg_views(out@) =~= before.push(views[i as int]));
        } else {
            assert(is_part(views, i as int));
        }
    }
    out
}

/// Sorts results by relevance.
///
/// yay prints every AUR result first, so the exact match sinks to the bottom:
/// searching "ripgrep" left ripgrep in 17th place.
///
/// On a tie, repo before AUR, then shortest name, then alphabetical. The
/// shortest name in a tier is almost always the base package — a locale or
/// extension variant is, definitionally, the base name plus more.
pub fn sort_results(pkgs: &Vec<Pkg>, query: &str) -> (r: Vec<Pkg>)
    ensures
        pkg_views(r@) == by_relevance(pkg_views(pkgs@), query@),
{
    let lower = query.to_lowercase();
    let q = text::chars_of(lower.as_str());
    let ghost views = pkg_views(pkgs@);
    let mut keys: Vec<order::Key> = Vec::new();
    for i in 0..pkgs.len()
        invariant
            q@ == text::lowercase(query@),
            views == pkg_views(pkgs@),
            keys@.len() == i,
            forall|k: int| 0 <= k < i ==> (#[trigger] keys@[k])@ == relevance(views[k], query@),
    {
        let name = pkgs[i].name.as_str();
        let lower_name = name.to_lowercase();
        let n = text::chars_of(lower_name.as_str());
        let rank: u8 = if text::same(n.as_slice(), q.as_slice()) {
            0
        } else if text::starts_with(n.as_slice(), q.as_slice()) {
            1
        } else if text::contains(n.as_slice(), q.as_slice()) {
            2
        } else {
            3
        };
        let size = name.as_bytes().len();
        keys.push(
            order::Key { rank, aur: pkgs[i].is_aur(), size, name: pkgs[i].name.clone() },
        );
    }
    assert(order::key_views(keys@) =~= relevance_keys(views, query@));
    arrange(pkgs, &keys)
}

/// Repo and AUR results together, from what `yay -Ss` printed for the query.
///
/// Format:
///   extra/ripgrep 15.2.0-1 (1.4 MiB 4.3 MiB) (Installed)
///       A search tool that ...
///   aur/fuzzy 0.0.2-2 (+0 0.00) [308d5h]
///       Dynamic live fuzzy finder ...
pub fn search(query: &str, listing: &str, installed_names: &NameSet) -> (r: Vec<Pkg>)
    requires
        installed_names.wf(),
    ensures
        pkg_views(r@) == search_results(query@, listing@, installed_names@),
{
    let found = parse_results(listing, installed_names);
    let whole = drop_parts(&found);
    sort_results(&whole, query)
}

/// Results come by fit: the same name first, then names that begin with the
/// query, then names that hold it. On a tie repo packages come before the
/// AUR's, and then shorter names first.
pub proof fn law_results_are_ranked(
    query: Seq<char>,
    listing: Seq<char>,
    names: Set<Seq<char>>,
    i: int,
    j: int,
)
    requires
        0 <= i < j < search_results(query, listing, names).len(),
    ensures
        ({
            let a = relevance(search_results(query, listing, names)[i], query);
            let b = relevance(search_results(query, listing, names)[j], query);
            &&& a.rank <= b.rank
            &&& a.rank == b.rank && a.aur ==> b.aur
            &&& a.rank == b.rank && a.aur == b.aur ==> a.size <= b.size
            &&& !b.less(a)
        }),
{
    let found = results_in(text::lines_of(listing), names);
    let whole = whole_among(found, found.len());
    let keys = relevance_keys(whole, query);
    order::law_order_is_stable(keys);
    let places = order::order_of(keys);
    let a = keys[places[i]];
    let b = keys[places[j]];
    order::lemma_before_asymmetric(a.name, b.name);
}

/// Each name of `whole_among` stands for a result that is no part.
proof fn lemma_whole_among(results: Seq<PkgView>, n: nat)
    requires
        n <= results.len(),
    ensures
        forall|k: int|
            0 <= k < whole_among(results, n).len() ==> exists|i: int|
                0 <= i < n && !is_part(results, i) && #[trigger] results[i]
                    == #[trigger] whole_among(results, n)[k],
        forall|i: int|
            0 <= i < n && !is_part(results, i) ==> whole_among(results, n).contains(
                #[trigger] results[i],
            ),
    decreases n,
{
    if n > 0 {
        let m = (n - 1) as nat;
        lemma_whole_among(results, m);
        let rest = whole_among(results, m);
        let all = whole_among(results, n);
        assert forall|k: int| 0 <= k < all.len() implies exists|i: int|
            0 <= i < n && !is_part(results, i) && #[trigger] results[i] == #[trigger] all[k] by {
            if k < rest.len() {
                assert(all[k] == rest[k]);
                let i = choose|i: int|
                    0 <= i < m && !is_part(results, i) && #[trigger] results[i] == rest[k];
                assert(results[i] == all[k]);
            } else {
                assert(results[n - 1] == all[k]);
            }
        }
        assert forall|i: int| 0 <= i < n && !is_part(results, i) implies all.contains(
            #[trigger] results[i],
        ) by {
            if i < m {
                let k = choose|k: int| 0 <= k < rest.len() && rest[k] == results[i];
                assert(all[k] == results[i]);
            } else {
                assert(all[rest.len() as int] == results[i]);
            }
        }
    }
}

/// Every result is one of those that the listing names, and none is a part of
/// another that the listing names.
pub proof fn law_results_are_whole(
    query: Seq<char>,
    listing: Seq<char>,
    names: Set<Seq<char>>,
    k: int,
)
    requires
        0 <= k < search_results(query, listing, names).len(),
    ensures
        ({
            let found = results_in(text::lines_of(listing), names);
            let pkg = search_results(query, listing, names)[k];
            &&& found.contains(pkg)
            &&& forall|j: int| 0 <= j < found.len() ==> !part_of(pkg, #[trigger] found[j])
        }),
{
    let found = results_in(text::lines_of(listing), names);
    let whole = whole_among(found, found.len());
    let keys = relevance_keys(whole, query);
    order::law_order_is_stable(keys);
    let place = order::order_of(keys)[k];
    lemma_whole_among(found, found.len());
    let i = choose|i: int|
        0 <= i < found.len() && !is_part(found, i) && #[trigger] found[i] == whole[place];
    assert(found[i] == search_results(query, listing, names)[k]);
}

/// A part of a part is a part.
proof fn lemma_part_of_transitive(a: PkgView, b: PkgView, c: PkgView)
    requires
        part_of(a, b),
        part_of(b, c),
    ensures
        part_of(a, c),
{
    let stem = c.name.push('-');
    assert(stem =~= a.name.subrange(0, stem.len() as int)) by {
        assert forall|i: int| 0 <= i < stem.len() implies stem[i] == a.name[i] by {
            assert(stem[i] == b.name.subrange(0, stem.len() as int)[i]);
            let longer = b.name.push('-');
            assert(longer[i] == a.name.subrange(0, longer.len() as int)[i]);
        }
    }
}

/// A result that is a part of another is a part of one that is not.
proof fn lemma_part_has_whole(found: Seq<PkgView>, i: int) -> (j: int)
    requires
        0 <= i < found.len(),
        is_part(found, i),
    ensures
        0 <= j < found.len(),
        !is_part(found, j),
        part_of(found[i], found[j]),
    decreases found[i].name.len(),
{
    let p = choose|p: int| 0 <= p < found.len() && part_of(found[i], #[trigger] found[p]);
    if is_part(found, p) {
        let j = lemma_part_has_whole(found, p);
        lemma_part_of_transitive(found[i], found[p], found[j]);
        j
    } else {
        p
    }
}

/// No package of the listing is lost: it is among the results, or it is a
/// part of one that is.
pub proof fn law_no_result_is_lost(
    query: Seq<char>,
    listing: Seq<char>,
    names: Set<Seq<char>>,
    i: int,
)
    requires
        0 <= i < results_in(text::lines_of(listing), names).len(),
    ensures
        exists|k: int|
            0 <= k < search_results(query, listing, names).len() && ({
                let pkg = results_in(text::lines_of(listing), names)[i];
                let shown = #[trigger] search_results(query, listing, names)[k];
                shown == pkg || part_of(pkg, shown)
            }),
{
    let found = results_in(text::lines_of(listing), names);
    let j = if is_part(found, i) {
        lemma_part_has_whole(found, i)
    } else {
        i
    };
    lemma_whole_among(found, found.len());
    let whole = whole_among(found, found.len());
    assert(whole.contains(found[j]));
    let p = choose|p: int| 0 <= p < whole.len() && whole[p] == found[j];
    let keys = relevance_keys(whole, query);
    order::law_order_is_stable(keys);
    order::lemma_order_is_onto(order::order_of(keys), keys, whole.len(), p);
    let k = choose|k: int| 0 <= k < order::order_of(keys).len() && order::order_of(keys)[k] == p;
    assert(search_results(query, listing, names)[k] == found[j]);
}

// ---------------------------------------------------------------------------
// Queries
// ---------------------------------------------------------------------------

/// A command of two words.
fn command(a: &str, b: &str) -> (r: Vec<String>)
    ensures
        text::texts(r@) == seq![a@, b@],
{
    let mut cmd: Vec<String> = Vec::new();
    cmd.push(a.to_string());
    cmd.push(b.to_string());
    assert(text::texts(cmd@) =~= seq![a@, b@]);
    cmd
}

/// A command of two words and an argument.
fn command_on(a: &str, b: &str, arg: &str) -> (r: Vec<String>)
    ensures
        text::texts(r@) == seq![a@, b@, arg@],
{
    let mut cmd = command(a, b);
    let ghost before = text::texts(cmd@);
    cmd.push(arg.to_string());
    assert(text::texts(cmd@) =~= before.push(arg@));
    assert(text::texts(cmd@) =~= seq![a@, b@, arg@]);
    cmd
}

/// Prints the names of the packages that no repo holds.
pub fn foreign_command() -> (r: Vec<String>)
    ensures
        text::texts(r@) == seq!["pacman"@, "-Qmq"@],
{
    command("pacman", "-Qmq")
}

/// Prints every installed package, in one call.
pub fn installed_command() -> (r: Vec<String>)
    ensures
        text::texts(r@) == seq!["pacman"@, "-Qi"@],
{
    command("pacman", "-Qi")
}

/// Prints the dependencies that nothing uses any more.
pub fn orphans_command() -> (r: Vec<String>)
    ensures
        text::texts(r@) == seq!["pacman"@, "-Qtdq"@],
{
    command("pacman", "-Qtdq")
}

/// Prints one installed package.
pub fn info_command(name: &str) -> (r: Vec<String>)
    ensures
        text::texts(r@) == seq!["pacman"@, "-Qi"@, name@],
{
    command_on("pacman", "-Qi", name)
}

/// Prints the files of an installed package.
pub fn files_command(name: &str) -> (r: Vec<String>)
    ensures
        text::texts(r@) == seq!["pacman"@, "-Ql"@, name@],
{
    command_on("pacman", "-Ql", name)
}

/// Searches the repos and the AUR.
pub fn search_command(query: &str) -> (r: Vec<String>)
    ensures
        text::texts(r@) == seq!["yay"@, "-Ss"@, query@],
{
    command_on("yay", "-Ss", query)
}

// ---------------------------------------------------------------------------
// Details of a package that is not installed
// ---------------------------------------------------------------------------

/// The command that asks for the details of a package.
pub open spec fn details_args(pkg: PkgView) -> Seq<Seq<char>> {
    if pkg.is_aur() {
        seq![
            "curl"@,
            "-sf"@,
            "--max-time"@,
            "10"@,
            "https://aur.archlinux.org/rpc/v5/info?arg[]="@ + pkg.name,
        ]
    } else {
        seq!["pacman"@, "-Si"@, pkg.name]
    }
}

/// The command that asks for the details of a package: `pacman -Si` for
/// repos, the RPC for the AUR. yay will not hand over the details of a single
/// package, so the AUR is asked directly.
pub fn details_command(pkg: &Pkg) -> (r: Vec<String>)
    ensures
        text::texts(r@) == details_args(pkg@),
{
    let mut cmd: Vec<String> = Vec::new();
    if pkg.is_aur() {
        cmd.push("curl".to_string());
        cmd.push("-sf".to_string());
        cmd.push("--max-time".to_string());
        cmd.push("10".to_string());
        cmd.push(
            text::concat("https://aur.archlinux.org/rpc/v5/info?arg[]=", pkg.name.as_str()),
        );
    } else {
        cmd.push("pacman".to_string());
        cmd.push("-Si".to_string());
        cmd.push(pkg.name.clone());
    }
    assert(text::texts(cmd@) =~= details_args(pkg@));
    cmd
}

/// A text, or the empty one.
pub open spec fn or_empty(s: Option<Seq<char>>) -> Seq<char> {
    match s {
        Some(t) => t,
        None => seq![],
    }
}

/// What a reply of the AUR says of a package.
pub open spec fn aur_details(name: Seq<char>, body: Seq<char>) -> Option<PkgView> {
    match json::first_object(body) {
        Some(obj) => Some(
            PkgView {
                name,
                version: or_empty(json::string_under(obj, "Version"@)),
                description: or_empty(json::string_under(obj, "Description"@)),
                url: or_empty(json::string_under(obj, "URL"@)),
                repo: "aur"@,
                depends: json::array_under(obj, "Depends"@),
                optdepends: json::array_under(obj, "OptDepends"@),
                ..PkgView::empty()
            },
        ),
        None => None,
    }
}

/// A string, or the empty one.
fn unwrap_text(s: Option<String>) -> (r: String)
    ensures
        r@ == or_empty(text_of(s)),
{
    match s {
        Some(t) => t,
        None => String::new(),
    }
}

/// Reads a reply of the AUR RPC v5; dependencies come from here.
pub fn aur_info(name: &str, body: &str) -> (r: Option<Pkg>)
    requires
        json::well_braced(body@),
    ensures
        match r {
            Some(pkg) => aur_details(name@, body@) == Some(pkg@),
            None => aur_details(name@, body@) is None,
        },
{
    match json::json_first_result(body) {
        Some(obj) => {
            let base = Pkg::default();
            let pkg = Pkg {
                name: name.to_string(),
                version: unwrap_text(json::json_str(obj.as_str(), "Version")),
                description: unwrap_text(json::json_str(obj.as_str(), "Description")),
                url: unwrap_text(json::json_str(obj.as_str(), "URL")),
                repo: "aur".to_string(),
                depends: json::json_array(obj.as_str(), "Depends"),
                optdepends: json::json_array(obj.as_str(), "OptDepends"),
                ..base
            };
            assert(pkg@ =~= aur_details(name@, body@)->0);
            Some(pkg)
        },
        None => None,
    }
}

/// What a reply says of a package that is not installed.
pub open spec fn details_of(pkg: PkgView, reply: Seq<char>) -> Option<PkgView> {
    if pkg.is_aur() {
        aur_details(pkg.name, reply)
    } else {
        let pkgs = listing_of(reply, Set::empty());
        if pkgs.len() > 0 {
            Some(PkgView { installed: pkg.installed, repo: pkg.repo, ..pkgs[0] })
        } else {
            None
        }
    }
}

/// Details for a package that is not installed, from the reply to
/// `details_command`. The search list only carries name and version; this is
/// what fills the right pane.
pub fn remote_details(pkg: &Pkg, reply: &str) -> (r: Option<Pkg>)
    requires
        pkg@.is_aur() ==> json::well_braced(reply@),
    ensures
        match r {
            Some(full) => details_of(pkg@, reply@) == Some(full@),
            None => details_of(pkg@, reply@) is None,
        },
{
    if pkg.is_aur() {
        return aur_info(pkg.name.as_str(), reply);
    }
    let none = NameSet::new();
    let pkgs = parse_qi(reply, &none);
    let ghost views = pkg_views(pkgs@);
    if pkgs.len() > 0 {
        let mut full = pkgs[0].clone();
        assert(views[0] == pkgs@[0]@);
        full.installed = pkg.installed;
        full.repo = pkg.repo.clone();
        Some(full)
    } else {
        None
    }
}

} // verus!
