//! What CHANGES the system: the plan of a deletion, and the commands that
//! carry an operation out.
//!
//! Two rules:
//!   1. Nothing is removed without passing through a confirmation screen.
//!   2. A mega delete first lists exactly what it will do (the plan), then
//!      carries it out only if the user confirms.

use vstd::prelude::*;

use crate::order;
use crate::pacman;
use crate::text;
use crate::text::Class;

verus! {

// ---------------------------------------------------------------------------
// The plan
// ---------------------------------------------------------------------------

/// What a mega delete would do. Worked out and shown first, applied only
/// after confirmation.
#[derive(Debug)]
pub struct MegaPlan {
    /// Target package(s) — several can be marked at once
    pub packages: Vec<String>,
    /// The pacman -Rs cascade: the package plus deps it leaves unneeded
    pub cascade: Vec<String>,
    /// How many files the packages own (pacman -Ql)
    pub owned_files: usize,
    /// Orphans left behind that these packages depended on
    pub orphans: Vec<String>,
    /// Leftovers under ~/.config, ~/.cache, ~/.local/share, ~/.local/state
    pub home_paths: Vec<String>,
    /// .pacsave/.pacnew candidates that removal may leave under /etc
    pub system_leftovers: Vec<String>,
    /// Downloaded archives in /var/cache/pacman/pkg
    pub cache_files: Vec<String>,
    /// Why the dry run failed, if it did. Set means confirmation is refused.
    pub error: Option<String>,
}

/// The contents of a `MegaPlan`.
#[verifier::ext_equal]
pub struct MegaPlanView {
    pub packages: Seq<Seq<char>>,
    pub cascade: Seq<Seq<char>>,
    pub owned_files: nat,
    pub orphans: Seq<Seq<char>>,
    pub home_paths: Seq<Seq<char>>,
    pub system_leftovers: Seq<Seq<char>>,
    pub cache_files: Seq<Seq<char>>,
    pub error: Option<Seq<char>>,
}

impl View for MegaPlan {
    type V = MegaPlanView;

    open spec fn view(&self) -> MegaPlanView {
        MegaPlanView {
            packages: text::texts(self.packages@),
            cascade: text::texts(self.cascade@),
            owned_files: self.owned_files as nat,
            orphans: text::texts(self.orphans@),
            home_paths: text::texts(self.home_paths@),
            system_leftovers: text::texts(self.system_leftovers@),
            cache_files: text::texts(self.cache_files@),
            error: pacman::text_of(self.error),
        }
    }
}

impl MegaPlanView {
    /// A plan that does nothing.
    pub open spec fn empty() -> MegaPlanView {
        MegaPlanView {
            packages: seq![],
            cascade: seq![],
            owned_files: 0,
            orphans: seq![],
            home_paths: seq![],
            system_leftovers: seq![],
            cache_files: seq![],
            error: None,
        }
    }

    /// How many things go besides the packages.
    pub open spec fn extra(self) -> nat {
        self.orphans.len() + self.home_paths.len() + self.system_leftovers.len()
            + self.cache_files.len()
    }
}

impl Default for MegaPlan {
    fn default() -> (r: MegaPlan)
        ensures
            r@ == MegaPlanView::empty(),
    {
        let r = MegaPlan {
            packages: Vec::new(),
            cascade: Vec::new(),
            owned_files: 0,
            orphans: Vec::new(),
            home_paths: Vec::new(),
            system_leftovers: Vec::new(),
            cache_files: Vec::new(),
            error: None,
        };
        assert(r@ =~= MegaPlanView::empty());
        r
    }
}

impl MegaPlan {
    /// How many things go besides the packages.
    pub fn total_extra(&self) -> (r: usize)
        requires
            self@.extra() <= usize::MAX,
        ensures
            r == self@.extra(),
    {
        self.orphans.len() + self.home_paths.len() + self.system_leftovers.len()
            + self.cache_files.len()
    }

    /// Whether the number of things that go besides the packages can be told.
    pub fn is_countable(&self) -> (r: bool)
        ensures
            r == (self@.extra() <= usize::MAX),
    {
        let total: u128 = self.orphans.len() as u128 + self.home_paths.len() as u128
            + self.system_leftovers.len() as u128 + self.cache_files.len() as u128;
        total <= usize::MAX as u128
    }
}

// ---------------------------------------------------------------------------
// Names in $HOME
// ---------------------------------------------------------------------------

/// What AUR packages append to the name of what they package.
pub open spec fn suffixes() -> Seq<Seq<char>> {
    seq!["-bin"@, "-git"@, "-appimage"@, "-debug"@, "-electron"@, "-desktop"@, "-app"@]
}

/// A list of names with one more, unless that is empty or there already.
pub open spec fn with_name(names: Seq<Seq<char>>, name: Seq<char>) -> Seq<Seq<char>> {
    if name.len() > 0 && !names.contains(name) {
        names.push(name)
    } else {
        names
    }
}

/// The name itself, then what each suffix leaves of it.
pub open spec fn variants_by(name: Seq<char>, suffixes: Seq<Seq<char>>) -> Seq<Seq<char>>
    decreases suffixes.len(),
{
    if suffixes.len() == 0 {
        seq![name]
    } else {
        let rest = variants_by(name, suffixes.drop_last());
        let suffix = suffixes.last();
        if suffix.is_suffix_of(name) {
            with_name(rest, name.take(name.len() - suffix.len()))
        } else {
            rest
        }
    }
}

/// The names a package might use for its directories in $HOME.
pub open spec fn variants_of(name: Seq<char>) -> Seq<Seq<char>> {
    variants_by(name, suffixes())
}

/// What packages append to the name of what they package.
fn suffix_list() -> (r: Vec<String>)
    ensures
        text::texts(r@) == suffixes(),
{
    let mut v: Vec<String> = Vec::new();
    v.push("-bin".to_string());
    v.push("-git".to_string());
    v.push("-appimage".to_string());
    v.push("-debug".to_string());
    v.push("-electron".to_string());
    v.push("-desktop".to_string());
    v.push("-app".to_string());
    assert(text::texts(v@) =~= suffixes());
    v
}

/// The names a package might use for its directories in $HOME. AUR packages
/// carry suffixes like "-bin" or "-git" while the config folder is usually
/// created under the bare name.
pub fn name_variants(name: &str) -> (r: Vec<String>)
    ensures
        text::texts(r@) == variants_of(name@),
{
    let chars = text::chars_of(name);
    let list = suffix_list();
    let ghost all = text::texts(list@);
    let mut v: Vec<String> = Vec::new();
    v.push(name.to_string());
    assert(text::texts(v@) =~= seq![name@]);
    for i in 0..list.len()
        invariant
            chars@ == name@,
            all == text::texts(list@),
            text::texts(v@) == variants_by(name@, all.take(i as int)),
    {
        proof {
            assert(all.take(i + 1).drop_last() =~= all.take(i as int));
            assert(all.take(i + 1).last() == list@[i as int]@);
        }
        let suffix = text::chars_of(list[i].as_str());
        if text::ends_with(chars.as_slice(), suffix.as_slice()) {
            let n = chars.len() - suffix.len();
            let base = text::string_of(text::head(chars.as_slice(), n));
            if !base.as_str().is_empty() && !text::holds(&v, base.as_str()) {
                let ghost before = text::texts(v@);
                let ghost view = base@;
                v.push(base);
                assert(text::texts(v@) =~= before.push(view));
            }
        }
    }
    assert(all.take(list@.len() as int) =~= all);
    v
}

/// A package's own name is the first of its variants.
pub proof fn law_variants_begin_with_name(name: Seq<char>)
    ensures
        variants_of(name).len() > 0,
        variants_of(name)[0] == name,
{
    lemma_variants_begin_with_name(name, suffixes());
}

proof fn lemma_variants_begin_with_name(name: Seq<char>, list: Seq<Seq<char>>)
    ensures
        variants_by(name, list).len() > 0,
        variants_by(name, list)[0] == name,
    decreases list.len(),
{
    if list.len() > 0 {
        lemma_variants_begin_with_name(name, list.drop_last());
    }
}

/// A text in lower case without what is not alphanumeric.
pub open spec fn normalized(s: Seq<char>) -> Seq<char>
    decreases s.len(),
{
    if s.len() == 0 {
        seq![]
    } else {
        let rest = normalized(s.drop_last());
        if text::alphanumeric(s.last()) {
            rest + text::char_lowercase(s.last())
        } else {
            rest
        }
    }
}

/// Normalise for comparison: lowercase, drop anything not alphanumeric.
/// "GitHub Desktop" and "github-desktop" collapse to the same thing.
pub fn normalize(s: &[char]) -> (r: Vec<char>)
    ensures
        r@ == normalized(s@),
{
    let mut out: Vec<char> = Vec::new();
    for i in 0..s.len()
        invariant
            out@ == normalized(s@.take(i as int)),
    {
        let c = s[i];
        proof {
            assert(s@.take(i + 1).drop_last() =~= s@.take(i as int));
            assert(s@.take(i + 1).last() == c);
        }
        if c.is_alphanumeric() {
            let lower = text::lower_char(c);
            let ghost before = out@;
            for k in 0..lower.len()
                invariant
                    out@ == before + lower@.take(k as int),
            {
                out.push(lower[k]);
                assert(lower@.take(k + 1) =~= lower@.take(k as int).push(lower@[k as int]));
            }
            assert(lower@.take(lower@.len() as int) =~= lower@);
        }
    }
    assert(s@.take(s@.len() as int) =~= s@);
    out
}

/// Whether a text is one of the variants, once both are normalised.
pub open spec fn names_one(s: Seq<char>, variants: Seq<Seq<char>>) -> bool {
    exists|i: int|
        0 <= i < variants.len() && normalized(#[trigger] variants[i]) == normalized(s)
}

/// The parts of a dotted name.
pub open spec fn segments(entry: Seq<char>) -> Seq<Seq<char>> {
    text::parts_of(entry, seq!['.'])
}

/// Whether a directory entry belongs to a package with the given variants:
/// the entry names one, or it is a reverse-DNS name with a segment that does.
pub open spec fn belongs(entry: Seq<char>, variants: Seq<Seq<char>>) -> bool {
    ||| names_one(entry, variants)
    ||| segments(entry).len() >= 3 && exists|i: int|
        0 <= i < segments(entry).len() && names_one(#[trigger] segments(entry)[i], variants)
}

/// Whether a text is one of the variants, once both are normalised.
fn is_one_of(s: &[char], variants: &Vec<String>) -> (r: bool)
    ensures
        r == names_one(s@, text::texts(variants@)),
{
    let n = normalize(s);
    let ghost all = text::texts(variants@);
    for i in 0..variants.len()
        invariant
            n@ == normalized(s@),
            all == text::texts(variants@),
            forall|k: int| 0 <= k < i ==> normalized(#[trigger] all[k]) != n@,
    {
        let v = text::chars_of(variants[i].as_str());
        let m = normalize(v.as_slice());
        assert(all[i as int] == v@);
        if text::same(m.as_slice(), n.as_slice()) {
            return true;
        }
    }
    false
}

/// Does a directory name belong to this package?
///
/// NOTE: exact matching found nothing — the package is "bitwarden" but the
/// folder is "Bitwarden", the package is "github-desktop" but the folder is
/// "GitHub Desktop". Both sides are normalised before comparing. Reverse-DNS
/// names like "com.bitwarden.desktop" count too when the package name appears
/// as a whole segment.
pub fn entry_matches(entry: &str, variants: &Vec<String>) -> (r: bool)
    ensures
        r == belongs(entry@, text::texts(variants@)),
{
    let chars = text::chars_of(entry);
    if is_one_of(chars.as_slice(), variants) {
        return true;
    }
    let mut dot: Vec<char> = Vec::new();
    dot.push('.');
    assert(dot@ =~= seq!['.']);
    let parts = text::split(chars.as_slice(), dot.as_slice());
    let ghost all = text::slices(parts@);
    if parts.len() < 3 {
        return false;
    }
    for i in 0..parts.len()
        invariant
            all == text::slices(parts@),
            all == segments(entry@),
            all.len() >= 3,
            forall|k: int| 0 <= k < i ==> !names_one(#[trigger] all[k], text::texts(variants@)),
    {
        assert(all[i as int] == parts@[i as int]@);
        if is_one_of(parts[i], variants) {
            return true;
        }
    }
    false
}

/// What is normalised one after the other is normalised together.
proof fn lemma_normalized(a: Seq<char>, b: Seq<char>)
    ensures
        normalized(a + b) == normalized(a) + normalized(b),
    decreases b.len(),
{
    if b.len() == 0 {
        assert(a + b =~= a);
    } else {
        lemma_normalized(a, b.drop_last());
        assert((a + b).drop_last() =~= a + b.drop_last());
        assert(normalized(a + b) =~= normalized(a) + normalized(b));
    }
}

/// Case and punctuation do not count: a character that is not alphanumeric
/// can be left out, and one with the same lower case can take another's
/// place.
pub proof fn law_case_and_punctuation_do_not_count(
    front: Seq<char>,
    c: char,
    d: char,
    back: Seq<char>,
)
    ensures
        !text::alphanumeric(c) ==> normalized(front + seq![c] + back) == normalized(front + back),
        text::alphanumeric(c) && text::alphanumeric(d) && text::char_lowercase(c)
            == text::char_lowercase(d) ==> normalized(front + seq![c] + back) == normalized(
            front + seq![d] + back,
        ),
{
    lemma_normalized(front + seq![c], back);
    lemma_normalized(front + seq![d], back);
    lemma_normalized(front, back);
    assert((front + seq![c]).drop_last() =~= front);
    assert((front + seq![d]).drop_last() =~= front);
}

/// A directory that differs from a name of the package in case and
/// punctuation alone belongs to the package.
pub proof fn law_matching_ignores_case_and_punctuation(
    entry: Seq<char>,
    name: Seq<char>,
    variants: Seq<Seq<char>>,
)
    requires
        normalized(entry) == normalized(name),
        variants.contains(name),
    ensures
        belongs(entry, variants),
{
    let i = choose|i: int| 0 <= i < variants.len() && variants[i] == name;
    assert(normalized(variants[i]) == normalized(entry));
}

/// A directory with a reverse-DNS name of three segments or more belongs to
/// the package when a whole segment of it names the package.
pub proof fn law_reverse_dns_names_belong(
    parts: Seq<Seq<char>>,
    i: int,
    name: Seq<char>,
    variants: Seq<Seq<char>>,
)
    requires
        parts.len() >= 3,
        forall|k: int| 0 <= k < parts.len() ==> !(#[trigger] parts[k]).contains('.'),
        0 <= i < parts.len(),
        normalized(parts[i]) == normalized(name),
        variants.contains(name),
    ensures
        belongs(text::joined(parts, seq!['.']), variants),
{
    text::law_splitting_undoes_joining(parts, '.');
    let entry = text::joined(parts, seq!['.']);
    let k = choose|k: int| 0 <= k < variants.len() && variants[k] == name;
    assert(normalized(variants[k]) == normalized(parts[i]));
    assert(names_one(segments(entry)[i], variants));
}

// ---------------------------------------------------------------------------
// Working the plan out
// ---------------------------------------------------------------------------

/// How the dry run of a removal ended, and what it printed.
pub struct DryRun {
    pub ok: bool,
    pub stdout: String,
    pub stderr: String,
}

/// An entry of a directory.
pub struct DirEntry {
    pub name: String,
    pub path: String,
}

/// The contents of a `DirEntry`.
pub struct DirEntryView {
    pub name: Seq<char>,
    pub path: Seq<char>,
}

impl View for DirEntry {
    type V = DirEntryView;

    open spec fn view(&self) -> DirEntryView {
        DirEntryView { name: self.name@, path: self.path@ }
    }
}

/// The contents of a directory listing.
pub open spec fn entry_views(entries: Seq<DirEntry>) -> Seq<DirEntryView> {
    Seq::new(entries.len(), |i: int| entries[i]@)
}

/// What was found on the system, for a removal that pacman allows.
pub struct Survey {
    /// What `pacman -Ql` printed of each target
    pub listings: Vec<String>,
    /// What `pacman -Qtdq` printed
    pub orphans: String,
    /// What `pacman -Qi` printed of each package of the cascade
    pub infos: Vec<String>,
    /// The entries of the directories in $HOME where leftovers are looked for
    pub home: Vec<DirEntry>,
    /// The entries of the package cache
    pub cache: Vec<DirEntry>,
}

/// The contents of a `Survey`.
pub struct SurveyView {
    pub listings: Seq<Seq<char>>,
    pub orphans: Seq<char>,
    pub infos: Seq<Seq<char>>,
    pub home: Seq<DirEntryView>,
    pub cache: Seq<DirEntryView>,
}

impl View for Survey {
    type V = SurveyView;

    open spec fn view(&self) -> SurveyView {
        SurveyView {
            listings: text::texts(self.listings@),
            orphans: self.orphans@,
            infos: text::texts(self.infos@),
            home: entry_views(self.home@),
            cache: entry_views(self.cache@),
        }
    }
}

/// The command of the dry run.
pub open spec fn dry_run_args(names: Seq<Seq<char>>) -> Seq<Seq<char>> {
    seq!["pacman"@, "-Rs"@, "--print"@, "--print-format"@, "%n"@] + names
}

/// A command with arguments appended.
fn extend(cmd: &mut Vec<String>, args: &Vec<String>)
    ensures
        text::texts(final(cmd)@) == text::texts(old(cmd)@) + text::texts(args@),
{
    let ghost before = text::texts(cmd@);
    for i in 0..args.len()
        invariant
            text::texts(cmd@) == before + text::texts(args@).take(i as int),
    {
        let ghost now = text::texts(cmd@);
        cmd.push(args[i].clone());
        assert(text::texts(cmd@) =~= now.push(args@[i as int]@));
        assert(text::texts(args@).take(i + 1) =~= text::texts(args@).take(i as int).push(
            args@[i as int]@,
        ));
        assert(text::texts(cmd@) =~= before + text::texts(args@).take(i + 1));
    }
    assert(text::texts(args@).take(args@.len() as int) =~= text::texts(args@));
}

/// The command of the dry run.
///
/// NOTE: --nosave and --print cannot be combined ("may not be used together").
/// -n only decides whether config files are kept, not which packages go, so
/// the preview uses -Rs and the real run uses -Rns.
pub fn dry_run_command(names: &Vec<String>) -> (r: Vec<String>)
    ensures
        text::texts(r@) == dry_run_args(text::texts(names@)),
{
    let mut cmd: Vec<String> = Vec::new();
    cmd.push("pacman".to_string());
    cmd.push("-Rs".to_string());
    cmd.push("--print".to_string());
    cmd.push("--print-format".to_string());
    cmd.push("%n".to_string());
    assert(text::texts(cmd@) =~= seq!["pacman"@, "-Rs"@, "--print"@, "--print-format"@, "%n"@]);
    extend(&mut cmd, names);
    cmd
}

/// A list without the members that repeat the one before them.
pub open spec fn deduped(list: Seq<Seq<char>>) -> Seq<Seq<char>>
    decreases list.len(),
{
    if list.len() <= 1 {
        list
    } else if list[list.len() - 2] == list.last() {
        deduped(list.drop_last())
    } else {
        deduped(list.drop_last()).push(list.last())
    }
}

/// Why a dry run failed: the lines of its errors, then those of its output.
pub open spec fn refusal(stdout: Seq<char>, stderr: Seq<char>) -> Seq<char> {
    text::joined(
        deduped(
            pacman::names_in(text::lines_of(stderr)) + pacman::names_in(text::lines_of(stdout)),
        ),
        "\n"@,
    )
}

/// Drops the members of a list that repeat the one before them.
fn dedup(list: &Vec<String>) -> (r: Vec<String>)
    ensures
        text::texts(r@) == deduped(text::texts(list@)),
{
    let ghost all = text::texts(list@);
    let mut out: Vec<String> = Vec::new();
    assert(text::texts(out@) =~= deduped(all.take(0)));
    for i in 0..list.len()
        invariant
            all == text::texts(list@),
            text::texts(out@) == deduped(all.take(i as int)),
    {
        let ghost before = text::texts(out@);
        let ghost now = all.take(i + 1);
        proof {
            assert(now.drop_last() =~= all.take(i as int));
            assert(now.last() == list@[i as int]@);
        }
        let repeats = i > 0 && text::equal(list[i - 1].as_str(), list[i].as_str());
        if !repeats {
            out.push(list[i].clone());
            assert(text::texts(out@) =~= before.push(list@[i as int]@));
            if i == 0 {
                assert(text::texts(out@) =~= deduped(now));
            }
        } else {
            assert(now[now.len() - 2] == now.last());
        }
    }
    assert(all.take(list@.len() as int) =~= all);
    out
}

/// Says why a dry run failed. pacman puts the detail on stdout and the
/// "error:" line on stderr; both are shown.
fn explain(dry_run: &DryRun) -> (r: String)
    ensures
        r@ == refusal(dry_run.stdout@, dry_run.stderr@),
{
    let mut lines = pacman::name_list(dry_run.stderr.as_str());
    let more = pacman::name_list(dry_run.stdout.as_str());
    extend(&mut lines, &more);
    let msg = dedup(&lines);
    text::join(&msg, "\n")
}

/// The members of a list that hold no white space.
pub open spec fn single_words(list: Seq<Seq<char>>) -> Seq<Seq<char>>
    decreases list.len(),
{
    if list.len() == 0 {
        seq![]
    } else {
        let rest = single_words(list.drop_last());
        if text::first_of(list.last(), Class::Space) == list.last().len() {
            rest.push(list.last())
        } else {
            rest
        }
    }
}

/// The packages that a dry run lists.
pub open spec fn cascade_in(stdout: Seq<char>) -> Seq<Seq<char>> {
    single_words(pacman::names_in(text::lines_of(stdout)))
}

/// The packages that a dry run lists. Package names have no spaces — an error
/// line slipping through dies here.
pub fn cascade_of(stdout: &str) -> (r: Vec<String>)
    ensures
        text::texts(r@) == cascade_in(stdout@),
{
    let list = pacman::name_list(stdout);
    let ghost all = text::texts(list@);
    let mut out: Vec<String> = Vec::new();
    assert(text::texts(out@) =~= seq![]);
    for i in 0..list.len()
        invariant
            all == text::texts(list@),
            text::texts(out@) == single_words(all.take(i as int)),
    {
        let ghost before = text::texts(out@);
        proof {
            assert(all.take(i + 1).drop_last() =~= all.take(i as int));
            assert(all.take(i + 1).last() == list@[i as int]@);
        }
        let chars = text::chars_of(list[i].as_str());
        if text::find(chars.as_slice(), Class::Space) == chars.len() {
            out.push(list[i].clone());
            assert(text::texts(out@) =~= before.push(list@[i as int]@));
        }
    }
    assert(all.take(list@.len() as int) =~= all);
    out
}

/// The files that the listings name, one listing after the other.
pub open spec fn owned_in(listings: Seq<Seq<char>>) -> Seq<Seq<char>>
    decreases listings.len(),
{
    if listings.len() == 0 {
        seq![]
    } else {
        owned_in(listings.drop_last()) + pacman::paths_in(text::lines_of(listings.last()))
    }
}

/// The files that the targets own.
fn owned_files(listings: &Vec<String>) -> (r: Vec<String>)
    ensures
        text::texts(r@) == owned_in(text::texts(listings@)),
{
    let ghost all = text::texts(listings@);
    let mut out: Vec<String> = Vec::new();
    assert(text::texts(out@) =~= seq![]);
    for i in 0..listings.len()
        invariant
            all == text::texts(listings@),
            text::texts(out@) == owned_in(all.take(i as int)),
    {
        proof {
            assert(all.take(i + 1).drop_last() =~= all.take(i as int));
            assert(all.take(i + 1).last() == listings@[i as int]@);
        }
        let more = pacman::files(listings[i].as_str());
        extend(&mut out, &more);
    }
    assert(all.take(listings@.len() as int) =~= all);
    out
}

/// Whether a path is that of a file under /etc.
pub open spec fn is_config_file(path: Seq<char>) -> bool {
    "/etc/"@.is_prefix_of(path) && path.last() != '/'
}

/// The remnants that the removal of files may leave under /etc.
pub open spec fn leftovers_of(owned: Seq<Seq<char>>) -> Seq<Seq<char>>
    decreases owned.len(),
{
    if owned.len() == 0 {
        seq![]
    } else {
        let rest = leftovers_of(owned.drop_last());
        if is_config_file(owned.last()) {
            rest.push(owned.last() + ".pacsave"@)
        } else {
            rest
        }
    }
}

/// After removal, config files under /etc are left behind as .pacsave. They
/// do not exist yet (the package is still installed), so these are listed as
/// candidates.
fn system_leftovers(owned: &Vec<String>) -> (r: Vec<String>)
    ensures
        text::texts(r@) == leftovers_of(text::texts(owned@)),
{
    let etc = text::chars_of("/etc/");
    let ghost all = text::texts(owned@);
    let mut out: Vec<String> = Vec::new();
    assert(text::texts(out@) =~= seq![]);
    for i in 0..owned.len()
        invariant
            etc@ == "/etc/"@,
            all == text::texts(owned@),
            text::texts(out@) == leftovers_of(all.take(i as int)),
    {
        let ghost before = text::texts(out@);
        proof {
            reveal_strlit("/etc/");
            assert(all.take(i + 1).drop_last() =~= all.take(i as int));
            assert(all.take(i + 1).last() == owned@[i as int]@);
        }
        let path = text::chars_of(owned[i].as_str());
        if text::starts_with(path.as_slice(), etc.as_slice()) && path[path.len() - 1] != '/' {
            let remnant = text::concat(owned[i].as_str(), ".pacsave");
            let ghost view = remnant@;
            out.push(remnant);
            assert(text::texts(out@) =~= before.push(view));
        }
    }
    assert(all.take(owned@.len() as int) =~= all);
    out
}

/// The bare names of dependencies.
pub open spec fn bare_names(deps: Seq<Seq<char>>) -> Seq<Seq<char>> {
    Seq::new(deps.len(), |i: int| pacman::dep_name_of(deps[i]))
}

/// What the packages described depend on, one package after the other.
pub open spec fn needed_by(infos: Seq<Seq<char>>) -> Seq<Seq<char>>
    decreases infos.len(),
{
    if infos.len() == 0 {
        seq![]
    } else {
        needed_by(infos.drop_last()) + bare_names(pacman::deps_in(infos.last()))
    }
}

/// The dependencies that are orphaned already and do not go with the cascade,
/// each once.
pub open spec fn orphans_among(
    deps: Seq<Seq<char>>,
    orphans: Seq<Seq<char>>,
    cascade: Seq<Seq<char>>,
) -> Seq<Seq<char>>
    decreases deps.len(),
{
    if deps.len() == 0 {
        seq![]
    } else {
        let rest = orphans_among(deps.drop_last(), orphans, cascade);
        let dep = deps.last();
        if orphans.contains(dep) && !cascade.contains(dep) && !rest.contains(dep) {
            rest.push(dep)
        } else {
            rest
        }
    }
}

/// What the packages described depend on.
fn needed(infos: &Vec<String>) -> (r: Vec<String>)
    ensures
        text::texts(r@) == needed_by(text::texts(infos@)),
{
    let ghost all = text::texts(infos@);
    let mut out: Vec<String> = Vec::new();
    assert(text::texts(out@) =~= seq![]);
    for i in 0..infos.len()
        invariant
            all == text::texts(infos@),
            text::texts(out@) == needed_by(all.take(i as int)),
    {
        proof {
            assert(all.take(i + 1).drop_last() =~= all.take(i as int));
            assert(all.take(i + 1).last() == infos@[i as int]@);
        }
        let deps = pacman::deps_of(infos[i].as_str());
        let mut bare: Vec<String> = Vec::new();
        for k in 0..deps.len()
            invariant
                bare@.len() == k,
                forall|j: int|
                    0 <= j < k ==> (#[trigger] bare@[j])@ == pacman::dep_name_of(
                        text::texts(deps@)[j],
                    ),
        {
            bare.push(pacman::dep_name(deps[k].as_str()).to_string());
        }
        assert(text::texts(bare@) =~= bare_names(text::texts(deps@)));
        extend(&mut out, &bare);
    }
    assert(all.take(infos@.len() as int) =~= all);
    out
}

/// Orphans: ONLY the ones related to these packages.
///
/// NOTE: the whole of `pacman -Qtdq` would list completely unrelated packages
/// as about to be removed. -Rs already cascades the deps this removal leaves
/// unneeded; what belongs here is only packages that are already orphaned AND
/// are a dependency of what is going.
fn related_orphans(deps: &Vec<String>, orphans: &Vec<String>, cascade: &Vec<String>) -> (r: Vec<
    String,
>)
    ensures
        text::texts(r@) == orphans_among(
            text::texts(deps@),
            text::texts(orphans@),
            text::texts(cascade@),
        ),
{
    let ghost all = text::texts(deps@);
    let mut out: Vec<String> = Vec::new();
    assert(text::texts(out@) =~= seq![]);
    for i in 0..deps.len()
        invariant
            all == text::texts(deps@),
            text::texts(out@) == orphans_among(
                all.take(i as int),
                text::texts(orphans@),
                text::texts(cascade@),
            ),
    {
        let ghost before = text::texts(out@);
        proof {
            assert(all.take(i + 1).drop_last() =~= all.take(i as int));
            assert(all.take(i + 1).last() == deps@[i as int]@);
        }
        let dep = deps[i].as_str();
        if text::holds(orphans, dep) && !text::holds(cascade, dep) && !text::holds(&out, dep) {
            out.push(deps[i].clone());
            assert(text::texts(out@) =~= before.push(deps@[i as int]@));
        }
    }
    assert(all.take(deps@.len() as int) =~= all);
    out
}

/// The variants of all the names, one name after the other.
pub open spec fn all_variants(names: Seq<Seq<char>>) -> Seq<Seq<char>>
    decreases names.len(),
{
    if names.len() == 0 {
        seq![]
    } else {
        all_variants(names.drop_last()) + variants_of(names.last())
    }
}

/// The variants of all the names.
fn variants(names: &Vec<String>) -> (r: Vec<String>)
    ensures
        text::texts(r@) == all_variants(text::texts(names@)),
{
    let ghost all = text::texts(names@);
    let mut out: Vec<String> = Vec::new();
    assert(text::texts(out@) =~= seq![]);
    for i in 0..names.len()
        invariant
            all == text::texts(names@),
            text::texts(out@) == all_variants(all.take(i as int)),
    {
        proof {
            assert(all.take(i + 1).drop_last() =~= all.take(i as int));
            assert(all.take(i + 1).last() == names@[i as int]@);
        }
        let more = name_variants(names[i].as_str());
        extend(&mut out, &more);
    }
    assert(all.take(names@.len() as int) =~= all);
    out
}

/// The paths of the entries that belong to the packages, each once.
pub open spec fn belongings(entries: Seq<DirEntryView>, variants: Seq<Seq<char>>) -> Seq<Seq<char>>
    decreases entries.len(),
{
    if entries.len() == 0 {
        seq![]
    } else {
        let rest = belongings(entries.drop_last(), variants);
        let entry = entries.last();
        if belongs(entry.name, variants) && !rest.contains(entry.path) {
            rest.push(entry.path)
        } else {
            rest
        }
    }
}

/// The keys that sort texts.
pub open spec fn text_keys(list: Seq<Seq<char>>) -> Seq<order::KeyView> {
    Seq::new(list.len(), |i: int| order::KeyView::by_name(list[i]))
}

/// The texts in ascending order.
pub open spec fn sorted(list: Seq<Seq<char>>) -> Seq<Seq<char>> {
    pacman::picked(list, order::order_of(text_keys(list)))
}

/// Sorts texts in ascending order.
fn sort(list: &Vec<String>) -> (r: Vec<String>)
    ensures
        text::texts(r@) == sorted(text::texts(list@)),
{
    let ghost all = text::texts(list@);
    let mut keys: Vec<order::Key> = Vec::new();
    for i in 0..list.len()
        invariant
            all == text::texts(list@),
            keys@.len() == i,
            forall|k: int| 0 <= k < i ==> (#[trigger] keys@[k])@ == text_keys(all)[k],
    {
        keys.push(order::Key::by_name(&list[i]));
    }
    assert(order::key_views(keys@) =~= text_keys(all));
    let places = order::sort(&keys);
    let mut out: Vec<String> = Vec::new();
    for i in 0..places.len()
        invariant
            all == text::texts(list@),
            forall|k: int| 0 <= k < places@.len() ==> (#[trigger] places@[k]) < list@.len(),
            out@.len() == i,
            forall|k: int|
                0 <= k < i ==> (#[trigger] out@[k])@ == all[order::places(places@)[k]],
    {
        out.push(list[places[i]].clone());
    }
    assert(text::texts(out@) =~= sorted(all));
    out
}

/// The leftovers in $HOME, by path.
fn home_leftovers(entries: &Vec<DirEntry>, variants: &Vec<String>) -> (r: Vec<String>)
    ensures
        text::texts(r@) == sorted(belongings(entry_views(entries@), text::texts(variants@))),
{
    let ghost all = entry_views(entries@);
    let mut out: Vec<String> = Vec::new();
    assert(text::texts(out@) =~= seq![]);
    for i in 0..entries.len()
        invariant
            all == entry_views(entries@),
            text::texts(out@) == belongings(all.take(i as int), text::texts(variants@)),
    {
        let ghost before = text::texts(out@);
        proof {
            assert(all.take(i + 1).drop_last() =~= all.take(i as int));
            assert(all.take(i + 1).last() == entries@[i as int]@);
        }
        let entry = &entries[i];
        if entry_matches(entry.name.as_str(), variants) && !text::holds(&out, entry.path.as_str()) {
            out.push(entry.path.clone());
            assert(text::texts(out@) =~= before.push(entries@[i as int].path@));
        }
    }
    assert(all.take(entries@.len() as int) =~= all);
    sort(&out)
}

/// Whether a file is an archive of a package: its name, a dash, and a version
/// that begins with a digit.
pub open spec fn is_archive(file: Seq<char>, name: Seq<char>) -> bool {
    let n = name.len() + 1;
    &&& name.push('-').is_prefix_of(file)
    &&& file.len() > n
    &&& '0' <= file[n as int] && file[n as int] <= '9'
}

/// A list with the archives of one more package, each path once.
pub open spec fn with_archives(
    list: Seq<Seq<char>>,
    name: Seq<char>,
    entries: Seq<DirEntryView>,
) -> Seq<Seq<char>>
    decreases entries.len(),
{
    if entries.len() == 0 {
        list
    } else {
        let rest = with_archives(list, name, entries.drop_last());
        let entry = entries.last();
        if is_archive(entry.name, name) && !rest.contains(entry.path) {
            rest.push(entry.path)
        } else {
            rest
        }
    }
}

/// The archives of the packages, one package after the other.
pub open spec fn archives_of(names: Seq<Seq<char>>, entries: Seq<DirEntryView>) -> Seq<Seq<char>>
    decreases names.len(),
{
    if names.len() == 0 {
        seq![]
    } else {
        with_archives(archives_of(names.drop_last(), entries), names.last(), entries)
    }
}

/// "ripgrep-15.2.0-1-x86_64.pkg.tar.zst" — name + '-' + version. Requiring a
/// digit after the dash rules out neighbours like "ripgrep-all".
pub fn is_archive_of(file: &str, name: &str) -> (r: bool)
    ensures
        r == is_archive(file@, name@),
{
    let f = text::chars_of(file);
    let mut prefix = text::chars_of(name);
    prefix.push('-');
    let n = prefix.len();
    text::starts_with(f.as_slice(), prefix.as_slice()) && f.len() > n && '0' <= f[n] && f[n] <= '9'
}

/// Cached archives for the WHOLE cascade, not just the named targets.
fn cached_archives(names: &Vec<String>, entries: &Vec<DirEntry>) -> (r: Vec<String>)
    ensures
        text::texts(r@) == archives_of(text::texts(names@), entry_views(entries@)),
{
    let ghost all = text::texts(names@);
    let ghost views = entry_views(entries@);
    let mut out: Vec<String> = Vec::new();
    assert(text::texts(out@) =~= seq![]);
    for i in 0..names.len()
        invariant
            all == text::texts(names@),
            views == entry_views(entries@),
            text::texts(out@) == archives_of(all.take(i as int), views),
    {
        proof {
            assert(all.take(i + 1).drop_last() =~= all.take(i as int));
            assert(all.take(i + 1).last() == names@[i as int]@);
        }
        let ghost list = text::texts(out@);
        assert(views.take(0) =~= seq![]);
        for k in 0..entries.len()
            invariant
                i < names@.len(),
                views == entry_views(entries@),
                text::texts(out@) == with_archives(list, names@[i as int]@, views.take(k as int)),
        {
            let ghost before = text::texts(out@);
            proof {
                assert(views.take(k + 1).drop_last() =~= views.take(k as int));
                assert(views.take(k + 1).last() == entries@[k as int]@);
            }
            let entry = &entries[k];
            if is_archive_of(entry.name.as_str(), names[i].as_str()) && !text::holds(
                &out,
                entry.path.as_str(),
            ) {
                out.push(entry.path.clone());
                assert(text::texts(out@) =~= before.push(entries@[k as int].path@));
            }
        }
        assert(views.take(entries@.len() as int) =~= views);
    }
    assert(all.take(names@.len() as int) =~= all);
    out
}

/// The plan of a mega delete.
pub open spec fn plan_of(
    names: Seq<Seq<char>>,
    ok: bool,
    stdout: Seq<char>,
    stderr: Seq<char>,
    survey: SurveyView,
) -> MegaPlanView {
    if !ok {
        MegaPlanView {
            packages: names,
            error: Some(refusal(stdout, stderr)),
            ..MegaPlanView::empty()
        }
    } else {
        let cascade = cascade_in(stdout);
        let owned = owned_in(survey.listings);
        MegaPlanView {
            packages: names,
            cascade,
            owned_files: owned.len(),
            orphans: orphans_among(
                needed_by(survey.infos),
                pacman::names_in(text::lines_of(survey.orphans)),
                cascade,
            ),
            home_paths: sorted(belongings(survey.home, all_variants(names))),
            system_leftovers: leftovers_of(owned),
            cache_files: archives_of(cascade, survey.cache),
            error: None,
        }
    }
}

/// Work out the mega delete plan. Changes nothing.
pub fn plan_mega(names: &Vec<String>, dry_run: &DryRun, survey: &Survey) -> (r: MegaPlan)
    ensures
        r@ == plan_of(
            text::texts(names@),
            dry_run.ok,
            dry_run.stdout@,
            dry_run.stderr@,
            survey@,
        ),
{
    let base = MegaPlan::default();
    if !dry_run.ok {
        return MegaPlan {
            packages: text::copy_texts(names),
            error: Some(explain(dry_run)),
            ..base
        };
    }
    let cascade = cascade_of(dry_run.stdout.as_str());
    let owned = owned_files(&survey.listings);
    let deps = needed(&survey.infos);
    let system_orphans = pacman::orphans(survey.orphans.as_str());
    let orphans = related_orphans(&deps, &system_orphans, &cascade);
    let all = variants(names);
    let home_paths = home_leftovers(&survey.home, &all);
    let cache_files = cached_archives(&cascade, &survey.cache);
    MegaPlan {
        packages: text::copy_texts(names),
        cascade,
        owned_files: owned.len(),
        orphans,
        home_paths,
        system_leftovers: system_leftovers(&owned),
        cache_files,
        error: None,
    }
}

// ---------------------------------------------------------------------------
// What a plan promises
// ---------------------------------------------------------------------------

/// When pacman refuses the removal, the plan says why and would remove
/// nothing at all.
pub proof fn law_refused_plan_is_empty(
    names: Seq<Seq<char>>,
    stdout: Seq<char>,
    stderr: Seq<char>,
    survey: SurveyView,
)
    ensures
        plan_of(names, false, stdout, stderr, survey).error == Some(refusal(stdout, stderr)),
        plan_of(names, false, stdout, stderr, survey).cascade.len() == 0,
        plan_of(names, false, stdout, stderr, survey).extra() == 0,
{
}

/// The orphans of a plan are all those packages that were orphans before, are
/// dependencies of what goes and do not go with the cascade anyway, listed
/// once each.
pub proof fn law_orphans_are_related(
    names: Seq<Seq<char>>,
    stdout: Seq<char>,
    stderr: Seq<char>,
    survey: SurveyView,
)
    ensures
        ({
            let plan = plan_of(names, true, stdout, stderr, survey);
            &&& plan.orphans.no_duplicates()
            &&& forall|dep: Seq<char>| #[trigger]
                plan.orphans.contains(dep) <==> {
                    &&& pacman::names_in(text::lines_of(survey.orphans)).contains(dep)
                    &&& needed_by(survey.infos).contains(dep)
                    &&& !plan.cascade.contains(dep)
                }
        }),
{
    lemma_orphans_among(
        needed_by(survey.infos),
        pacman::names_in(text::lines_of(survey.orphans)),
        cascade_in(stdout),
    );
}

proof fn lemma_orphans_among(
    deps: Seq<Seq<char>>,
    orphans: Seq<Seq<char>>,
    cascade: Seq<Seq<char>>,
)
    ensures
        orphans_among(deps, orphans, cascade).no_duplicates(),
        forall|dep: Seq<char>| #[trigger]
            orphans_among(deps, orphans, cascade).contains(dep) <==> orphans.contains(dep)
                && deps.contains(dep) && !cascade.contains(dep),
    decreases deps.len(),
{
    if deps.len() > 0 {
        let before = deps.drop_last();
        lemma_orphans_among(before, orphans, cascade);
        let rest = orphans_among(before, orphans, cascade);
        let all = orphans_among(deps, orphans, cascade);
        assert forall|dep: Seq<char>| #[trigger] all.contains(dep) <==> orphans.contains(dep)
            && deps.contains(dep) && !cascade.contains(dep) by {
            if all.contains(dep) {
                if rest.contains(dep) {
                    let k = choose|k: int| 0 <= k < before.len() && before[k] == dep;
                    assert(deps[k] == dep);
                } else {
                    assert(dep == deps.last());
                    assert(deps[deps.len() - 1] == dep);
                }
            }
            if orphans.contains(dep) && deps.contains(dep) && !cascade.contains(dep) {
                if before.contains(dep) {
                    assert(rest.contains(dep));
                    let k = choose|k: int| 0 <= k < rest.len() && rest[k] == dep;
                    assert(all[k] == dep);
                } else {
                    let k = choose|k: int| 0 <= k < deps.len() && deps[k] == dep;
                    if k < before.len() {
                        assert(before[k] == dep);
                    }
                    if !rest.contains(dep) {
                        assert(all[all.len() - 1] == dep);
                    }
                }
            }
        }
    }
}

/// Every archive of a plan is one of a package that goes: its file name is
/// the package's, a dash, and a version that begins with a digit.
pub proof fn law_archives_are_of_the_cascade(
    cascade: Seq<Seq<char>>,
    entries: Seq<DirEntryView>,
    path: Seq<char>,
)
    requires
        archives_of(cascade, entries).contains(path),
    ensures
        exists|i: int, k: int|
            0 <= i < cascade.len() && 0 <= k < entries.len() && entries[k].path == path
                && is_archive(#[trigger] entries[k].name, #[trigger] cascade[i]),
    decreases cascade.len(),
{
    if cascade.len() > 0 {
        let before = cascade.drop_last();
        let list = archives_of(before, entries);
        let name = cascade.last();
        lemma_with_archives(list, name, entries, path);
        if list.contains(path) {
            law_archives_are_of_the_cascade(before, entries, path);
            let (i, k) = choose|i: int, k: int|
                0 <= i < before.len() && 0 <= k < entries.len() && entries[k].path == path
                    && is_archive(#[trigger] entries[k].name, #[trigger] before[i]);
            assert(cascade[i] == before[i]);
            assert(is_archive(entries[k].name, cascade[i]));
        } else {
            let k = choose|k: int|
                0 <= k < entries.len() && #[trigger] entries[k].path == path && is_archive(
                    entries[k].name,
                    name,
                );
            assert(is_archive(entries[k].name, cascade[cascade.len() - 1]));
        }
    }
}

proof fn lemma_with_archives(
    list: Seq<Seq<char>>,
    name: Seq<char>,
    entries: Seq<DirEntryView>,
    path: Seq<char>,
)
    requires
        with_archives(list, name, entries).contains(path),
    ensures
        list.contains(path) || exists|k: int|
            0 <= k < entries.len() && #[trigger] entries[k].path == path && is_archive(
                entries[k].name,
                name,
            ),
    decreases entries.len(),
{
    if entries.len() > 0 {
        let before = entries.drop_last();
        let rest = with_archives(list, name, before);
        if rest.contains(path) {
            lemma_with_archives(list, name, before, path);
            if !list.contains(path) {
                let k = choose|k: int|
                    0 <= k < before.len() && #[trigger] before[k].path == path && is_archive(
                        before[k].name,
                        name,
                    );
                assert(entries[k] == before[k]);
            }
        } else {
            assert(entries[entries.len() - 1].path == path);
        }
    }
}

/// Every cached archive of a package that goes is in the plan, once.
pub proof fn law_archives_are_complete(
    cascade: Seq<Seq<char>>,
    entries: Seq<DirEntryView>,
    i: int,
    k: int,
)
    requires
        0 <= i < cascade.len(),
        0 <= k < entries.len(),
        is_archive(entries[k].name, cascade[i]),
    ensures
        archives_of(cascade, entries).contains(entries[k].path),
        archives_of(cascade, entries).no_duplicates(),
    decreases cascade.len(),
{
    let before = cascade.drop_last();
    let list = archives_of(before, entries);
    lemma_archives_unique(cascade, entries);
    if i < before.len() {
        assert(before[i] == cascade[i]);
        law_archives_are_complete(before, entries, i, k);
        lemma_archives_kept(list, cascade.last(), entries, entries[k].path);
    } else {
        lemma_archives_added(list, cascade.last(), entries, k);
    }
}

/// What is in a list stays in it.
proof fn lemma_archives_kept(
    list: Seq<Seq<char>>,
    name: Seq<char>,
    entries: Seq<DirEntryView>,
    path: Seq<char>,
)
    requires
        list.contains(path),
    ensures
        with_archives(list, name, entries).contains(path),
    decreases entries.len(),
{
    if entries.len() > 0 {
        let rest = with_archives(list, name, entries.drop_last());
        lemma_archives_kept(list, name, entries.drop_last(), path);
        let k = choose|k: int| 0 <= k < rest.len() && rest[k] == path;
        assert(with_archives(list, name, entries)[k] == path);
    }
}

/// Every archive of a package comes into the list.
proof fn lemma_archives_added(
    list: Seq<Seq<char>>,
    name: Seq<char>,
    entries: Seq<DirEntryView>,
    k: int,
)
    requires
        0 <= k < entries.len(),
        is_archive(entries[k].name, name),
    ensures
        with_archives(list, name, entries).contains(entries[k].path),
    decreases entries.len(),
{
    let before = entries.drop_last();
    let rest = with_archives(list, name, before);
    let all = with_archives(list, name, entries);
    let path = entries[k].path;
    if k < before.len() {
        assert(before[k] == entries[k]);
        lemma_archives_added(list, name, before, k);
    }
    if rest.contains(path) {
        let j = choose|j: int| 0 <= j < rest.len() && rest[j] == path;
        assert(all[j] == path);
    } else {
        assert(all[rest.len() as int] == path);
    }
}

/// No archive comes into the list twice.
proof fn lemma_with_archives_unique(
    list: Seq<Seq<char>>,
    name: Seq<char>,
    entries: Seq<DirEntryView>,
)
    requires
        list.no_duplicates(),
    ensures
        with_archives(list, name, entries).no_duplicates(),
    decreases entries.len(),
{
    if entries.len() > 0 {
        lemma_with_archives_unique(list, name, entries.drop_last());
    }
}

/// No archive is in a plan twice.
proof fn lemma_archives_unique(cascade: Seq<Seq<char>>, entries: Seq<DirEntryView>)
    ensures
        archives_of(cascade, entries).no_duplicates(),
    decreases cascade.len(),
{
    if cascade.len() > 0 {
        lemma_archives_unique(cascade.drop_last(), entries);
        lemma_with_archives_unique(
            archives_of(cascade.drop_last(), entries),
            cascade.last(),
            entries,
        );
    }
}

/// Every leftover in $HOME is the path of an entry that belongs to one of the
/// packages.
pub proof fn law_home_leftovers_belong(
    entries: Seq<DirEntryView>,
    variants: Seq<Seq<char>>,
    path: Seq<char>,
)
    requires
        sorted(belongings(entries, variants)).contains(path),
    ensures
        exists|k: int|
            0 <= k < entries.len() && #[trigger] entries[k].path == path && belongs(
                entries[k].name,
                variants,
            ),
{
    let list = belongings(entries, variants);
    order::law_order_is_stable(text_keys(list));
    let places = order::order_of(text_keys(list));
    let i = choose|i: int| 0 <= i < sorted(list).len() && sorted(list)[i] == path;
    assert(list[places[i]] == path);
    lemma_belongings(entries, variants, path);
}

proof fn lemma_belongings(
    entries: Seq<DirEntryView>,
    variants: Seq<Seq<char>>,
    path: Seq<char>,
)
    requires
        belongings(entries, variants).contains(path),
    ensures
        exists|k: int|
            0 <= k < entries.len() && #[trigger] entries[k].path == path && belongs(
                entries[k].name,
                variants,
            ),
    decreases entries.len(),
{
    if entries.len() > 0 {
        let before = entries.drop_last();
        let rest = belongings(before, variants);
        if rest.contains(path) {
            lemma_belongings(before, variants, path);
            let k = choose|k: int|
                0 <= k < before.len() && #[trigger] before[k].path == path && belongs(
                    before[k].name,
                    variants,
                );
            assert(entries[k] == before[k]);
        } else {
            assert(entries[entries.len() - 1].path == path);
        }
    }
}

/// Every entry of a directory that belongs to one of the packages is among
/// the leftovers in $HOME.
pub proof fn law_home_leftovers_are_complete(
    entries: Seq<DirEntryView>,
    variants: Seq<Seq<char>>,
    k: int,
)
    requires
        0 <= k < entries.len(),
        belongs(entries[k].name, variants),
    ensures
        sorted(belongings(entries, variants)).contains(entries[k].path),
{
    let list = belongings(entries, variants);
    lemma_belongings_complete(entries, variants, k);
    let keys = text_keys(list);
    order::law_order_is_stable(keys);
    let p = choose|p: int| 0 <= p < list.len() && list[p] == entries[k].path;
    order::lemma_order_is_onto(order::order_of(keys), keys, list.len(), p);
    let i = choose|i: int| 0 <= i < order::order_of(keys).len() && order::order_of(keys)[i] == p;
    assert(sorted(list)[i] == entries[k].path);
}

proof fn lemma_belongings_complete(
    entries: Seq<DirEntryView>,
    variants: Seq<Seq<char>>,
    k: int,
)
    requires
        0 <= k < entries.len(),
        belongs(entries[k].name, variants),
    ensures
        belongings(entries, variants).contains(entries[k].path),
    decreases entries.len(),
{
    let before = entries.drop_last();
    let rest = belongings(before, variants);
    let all = belongings(entries, variants);
    if k < entries.len() - 1 {
        assert(before[k] == entries[k]);
        lemma_belongings_complete(before, variants, k);
        let p = choose|p: int| 0 <= p < rest.len() && rest[p] == entries[k].path;
        assert(all[p] == rest[p]);
    } else if !rest.contains(entries[k].path) {
        assert(all[rest.len() as int] == entries[k].path);
    }
}

// ---------------------------------------------------------------------------
// Commands
// ---------------------------------------------------------------------------

/// Commands to run one after the other in the plain terminal, under a title.
#[derive(Debug)]
pub struct Job {
    pub title: String,
    pub commands: Vec<Vec<String>>,
}

/// The contents of a `Job`.
#[verifier::ext_equal]
pub struct JobView {
    pub title: Seq<char>,
    pub commands: Seq<Seq<Seq<char>>>,
}

/// The words of a list of commands.
pub open spec fn command_words(commands: Seq<Vec<String>>) -> Seq<Seq<Seq<char>>> {
    Seq::new(commands.len(), |i: int| text::texts(commands[i]@))
}

impl View for Job {
    type V = JobView;

    open spec fn view(&self) -> JobView {
        JobView { title: self.title@, commands: command_words(self.commands@) }
    }
}

/// A title over a list of names.
pub open spec fn titled(what: Seq<char>, names: Seq<Seq<char>>) -> Seq<char> {
    what + text::joined(names, ", "@)
}

/// A title over a list of names.
fn make_title(what: &str, names: &Vec<String>) -> (r: String)
    ensures
        r@ == titled(what@, text::texts(names@)),
{
    let list = text::join(names, ", ");
    text::concat(what, list.as_str())
}

/// A job of one command.
fn single(title: String, command: Vec<String>) -> (r: Job)
    ensures
        r@ == (JobView { title: title@, commands: seq![text::texts(command@)] }),
{
    let mut commands: Vec<Vec<String>> = Vec::new();
    let ghost words = text::texts(command@);
    commands.push(command);
    assert(command_words(commands@) =~= seq![words]);
    Job { title, commands }
}

/// Install the chosen packages. yay covers both the repos and the AUR.
/// Without packages there is nothing to do.
pub fn install(names: &Vec<String>) -> (r: Option<Job>)
    ensures
        match r {
            Some(job) => names@.len() > 0 && job@ == (JobView {
                title: titled("Installing: "@, text::texts(names@)),
                commands: seq![seq!["yay"@, "-S"@, "--needed"@] + text::texts(names@)],
            }),
            None => names@.len() == 0,
        },
{
    if names.len() == 0 {
        return None;
    }
    let mut cmd: Vec<String> = Vec::new();
    cmd.push("yay".to_string());
    cmd.push("-S".to_string());
    cmd.push("--needed".to_string());
    assert(text::texts(cmd@) =~= seq!["yay"@, "-S"@, "--needed"@]);
    extend(&mut cmd, names);
    Some(single(make_title("Installing: ", names), cmd))
}

/// Normal removal: the package itself and nothing else. Without packages
/// there is nothing to do.
///
/// No -s, so dependencies are left alone, and config files are kept as
/// .pacsave. That is precisely what separates it from a mega delete.
pub fn remove_normal(names: &Vec<String>) -> (r: Option<Job>)
    ensures
        match r {
            Some(job) => names@.len() > 0 && job@ == (JobView {
                title: titled("Removing: "@, text::texts(names@)),
                commands: seq![seq!["yay"@, "-R"@] + text::texts(names@)],
            }),
            None => names@.len() == 0,
        },
{
    if names.len() == 0 {
        return None;
    }
    let mut cmd: Vec<String> = Vec::new();
    cmd.push("yay".to_string());
    cmd.push("-R".to_string());
    assert(text::texts(cmd@) =~= seq!["yay"@, "-R"@]);
    extend(&mut cmd, names);
    Some(single(make_title("Removing: ", names), cmd))
}

/// A path with its extension replaced.
pub uninterp spec fn path_with_extension(path: Seq<char>, ext: Seq<char>) -> Seq<char>;

/// Whether a path ends with the name of the directory itself, a single dot.
pub open spec fn ends_in_dot(path: Seq<char>) -> bool {
    path.len() >= 2 && path[path.len() - 2] == '/' && path.last() == '.'
}

/// Whether a path is absolute and ends with a file name, so that a dot and an
/// extension can follow.
pub open spec fn is_file_stem(stem: Seq<char>) -> bool {
    &&& stem.len() > 0
    &&& stem[0] == '/'
    &&& stem.last() != '/'
    &&& !ends_in_dot(stem)
}

/// Whether a text can be the extension of a file.
pub open spec fn is_extension(ext: Seq<char>) -> bool {
    &&& ext.len() > 0
    &&& !ext.contains('.')
    &&& !ext.contains('/')
}

/// `Path::with_extension` replaces the extension of a path, what follows the
/// last dot of its file name, or adds one where there is none. The result is
/// given a name; that an extension behind a file name is replaced, on Unix
/// where the slash alone separates, is stated, what becomes of other paths is
/// not.
#[verifier::external_body]
fn with_extension(path: &str, ext: &str) -> (r: String)
    requires
        is_extension(ext@),
    ensures
        r@ == path_with_extension(path@, ext@),
        forall|stem: Seq<char>, last: Seq<char>|
            path@ == #[trigger] (stem + seq!['.'] + last) && is_file_stem(stem) && is_extension(last)
                ==> r@ == stem + seq!['.'] + ext@,
{
    std::path::Path::new(path).with_extension(ext).display().to_string()
}

/// The .pacnew remnant next to a .pacsave remnant.
pub open spec fn pacnew_of(path: Seq<char>) -> Seq<char> {
    let stem = path.take(path.len() - ".pacsave"@.len());
    if ".pacsave"@.is_suffix_of(path) && is_file_stem(stem) {
        stem + ".pacnew"@
    } else {
        path_with_extension(path, "pacnew"@)
    }
}

/// The .pacnew remnant next to a .pacsave remnant.
pub fn pacnew(path: &str) -> (r: String)
    ensures
        r@ == pacnew_of(path@),
{
    proof {
        reveal_strlit("pacnew");
        reveal_strlit(".pacnew");
        reveal_strlit("pacsave");
        reveal_strlit(".pacsave");
        let stem = path@.take(path@.len() - ".pacsave"@.len());
        if ".pacsave"@.is_suffix_of(path@) && is_file_stem(stem) {
            assert(".pacsave"@ =~= seq!['.'] + "pacsave"@);
            assert(".pacnew"@ =~= seq!['.'] + "pacnew"@);
            assert(path@.skip(stem.len() as int) =~= ".pacsave"@);
            assert(path@ =~= stem + path@.skip(stem.len() as int));
            assert(path@ =~= stem + seq!['.'] + "pacsave"@);
            assert(stem + seq!['.'] + "pacnew"@ =~= stem + ".pacnew"@);
        }
    }
    with_extension(path, "pacnew")
}

/// The remnants of config files: each candidate, and the .pacnew next to it.
pub open spec fn remnants(leftovers: Seq<Seq<char>>) -> Seq<Seq<char>>
    decreases leftovers.len(),
{
    if leftovers.len() == 0 {
        seq![]
    } else {
        remnants(leftovers.drop_last()).push(leftovers.last()).push(pacnew_of(leftovers.last()))
    }
}

/// Every candidate is a remnant, and so is the .pacnew next to it.
pub proof fn lemma_remnants(leftovers: Seq<Seq<char>>, i: int)
    requires
        0 <= i < leftovers.len(),
    ensures
        remnants(leftovers).contains(leftovers[i]),
        remnants(leftovers).contains(pacnew_of(leftovers[i])),
    decreases leftovers.len(),
{
    let before = leftovers.drop_last();
    let rest = remnants(before);
    let all = remnants(leftovers);
    if i < before.len() {
        lemma_remnants(before, i);
        assert(before[i] == leftovers[i]);
        let j = choose|j: int| 0 <= j < rest.len() && rest[j] == leftovers[i];
        let k = choose|k: int| 0 <= k < rest.len() && rest[k] == pacnew_of(leftovers[i]);
        assert(all[j] == leftovers[i]);
        assert(all[k] == pacnew_of(leftovers[i]));
    } else {
        assert(all[rest.len() as int] == leftovers[i]);
        assert(all[rest.len() as int + 1] == pacnew_of(leftovers[i]));
    }
}

/// The remnants of config files: each candidate, and the .pacnew next to it.
pub fn config_remnants(leftovers: &Vec<String>) -> (r: Vec<String>)
    ensures
        text::texts(r@) == remnants(text::texts(leftovers@)),
{
    let mut out: Vec<String> = Vec::new();
    let ghost all = text::texts(leftovers@);
    assert(text::texts(out@) =~= seq![]);
    for i in 0..leftovers.len()
        invariant
            all == text::texts(leftovers@),
            text::texts(out@) == remnants(all.take(i as int)),
    {
        let ghost before = text::texts(out@);
        proof {
            assert(all.take(i + 1).drop_last() =~= all.take(i as int));
            assert(all.take(i + 1).last() == leftovers@[i as int]@);
        }
        let other = pacnew(leftovers[i].as_str());
        let ghost view = other@;
        out.push(leftovers[i].clone());
        out.push(other);
        assert(text::texts(out@) =~= before.push(all[i as int]).push(view));
    }
    assert(all.take(leftovers@.len() as int) =~= all);
    out
}

/// A command over a list, unless the list is empty.
pub open spec fn unless_empty(words: Seq<Seq<char>>, list: Seq<Seq<char>>) -> Seq<Seq<Seq<char>>> {
    if list.len() > 0 {
        seq![words + list]
    } else {
        seq![]
    }
}

/// One command for each leftover in $HOME.
pub open spec fn home_removals(paths: Seq<Seq<char>>) -> Seq<Seq<Seq<char>>> {
    Seq::new(paths.len(), |i: int| seq!["rm"@, "-rf"@, "--"@, paths[i]])
}

/// The commands of a mega removal.
pub open spec fn mega_commands(plan: MegaPlanView) -> Seq<Seq<Seq<char>>> {
    seq![seq!["yay"@, "-Rns"@, "--noconfirm"@] + plan.packages] + unless_empty(
        seq!["sudo"@, "pacman"@, "-Rns"@, "--noconfirm"@],
        plan.orphans,
    ) + home_removals(plan.home_paths) + unless_empty(
        seq!["sudo"@, "rm"@, "-f"@, "--"@],
        remnants(plan.system_leftovers),
    ) + unless_empty(seq!["sudo"@, "rm"@, "-f"@, "--"@], plan.cache_files)
}

/// Adds a command over a list, unless the list is empty.
fn push_unless_empty(commands: &mut Vec<Vec<String>>, words: Vec<String>, list: &Vec<String>)
    ensures
        command_words(final(commands)@) == command_words(old(commands)@) + unless_empty(
            text::texts(words@),
            text::texts(list@),
        ),
{
    let ghost before = command_words(commands@);
    if list.len() > 0 {
        let mut c = words;
        extend(&mut c, list);
        let ghost view = text::texts(c@);
        commands.push(c);
        assert(command_words(commands@) =~= before.push(view));
    }
    assert(command_words(commands@) =~= before + unless_empty(
        text::texts(words@),
        text::texts(list@),
    ));
}

/// Mega removal: the packages, the deps they leave unneeded, home leftovers,
/// .pacsave remnants and the cached archives.
pub fn remove_mega(plan: &MegaPlan) -> (r: Job)
    ensures
        r@ == (JobView {
            title: titled("MEGA DELETE: "@, plan@.packages),
            commands: mega_commands(plan@),
        }),
{
    let mut cmds: Vec<Vec<String>> = Vec::new();

    // 1) Packages and cascade, without keeping config files
    let mut first: Vec<String> = Vec::new();
    first.push("yay".to_string());
    first.push("-Rns".to_string());
    first.push("--noconfirm".to_string());
    assert(text::texts(first@) =~= seq!["yay"@, "-Rns"@, "--noconfirm"@]);
    extend(&mut first, &plan.packages);
    let ghost step1 = seq![text::texts(first@)];
    cmds.push(first);
    assert(command_words(cmds@) =~= step1);

    // 2) Orphans left behind
    let mut c: Vec<String> = Vec::new();
    c.push("sudo".to_string());
    c.push("pacman".to_string());
    c.push("-Rns".to_string());
    c.push("--noconfirm".to_string());
    assert(text::texts(c@) =~= seq!["sudo"@, "pacman"@, "-Rns"@, "--noconfirm"@]);
    push_unless_empty(&mut cmds, c, &plan.orphans);

    // 3) Leftovers in $HOME (no root needed)
    let ghost step2 = command_words(cmds@);
    let ghost homes = home_removals(text::texts(plan.home_paths@));
    for i in 0..plan.home_paths.len()
        invariant
            homes == home_removals(text::texts(plan.home_paths@)),
            command_words(cmds@) == step2 + homes.take(i as int),
    {
        let ghost before = command_words(cmds@);
        let mut c: Vec<String> = Vec::new();
        c.push("rm".to_string());
        c.push("-rf".to_string());
        c.push("--".to_string());
        c.push(plan.home_paths[i].clone());
        assert(text::texts(c@) =~= homes[i as int]);
        cmds.push(c);
        assert(command_words(cmds@) =~= before.push(homes[i as int]));
        assert(homes.take(i + 1) =~= homes.take(i as int).push(homes[i as int]));
    }
    assert(homes.take(plan.home_paths@.len() as int) =~= homes);

    // 4) .pacsave/.pacnew under /etc. They only appear AFTER the removal, so
    //    -f keeps this from failing with "no such file".
    let rests = config_remnants(&plan.system_leftovers);
    let mut c: Vec<String> = Vec::new();
    c.push("sudo".to_string());
    c.push("rm".to_string());
    c.push("-f".to_string());
    c.push("--".to_string());
    assert(text::texts(c@) =~= seq!["sudo"@, "rm"@, "-f"@, "--"@]);
    push_unless_empty(&mut cmds, c, &rests);

    // 5) Downloaded archives
    let mut c: Vec<String> = Vec::new();
    c.push("sudo".to_string());
    c.push("rm".to_string());
    c.push("-f".to_string());
    c.push("--".to_string());
    assert(text::texts(c@) =~= seq!["sudo"@, "rm"@, "-f"@, "--"@]);
    push_unless_empty(&mut cmds, c, &plan.cache_files);
    Job { title: make_title("MEGA DELETE: ", &plan.packages), commands: cmds }
}

/// The words that a mega removal uses besides what the plan lists.
pub open spec fn is_command_word(word: Seq<char>) -> bool {
    ||| word == "yay"@
    ||| word == "sudo"@
    ||| word == "pacman"@
    ||| word == "rm"@
    ||| word == "-Rns"@
    ||| word == "--noconfirm"@
    ||| word == "-rf"@
    ||| word == "-f"@
    ||| word == "--"@
}

/// Whether a plan lists something, or a remnant of what it lists.
pub open spec fn is_listed(plan: MegaPlanView, word: Seq<char>) -> bool {
    ||| plan.packages.contains(word)
    ||| plan.orphans.contains(word)
    ||| plan.home_paths.contains(word)
    ||| remnants(plan.system_leftovers).contains(word)
    ||| plan.cache_files.contains(word)
}

/// A mega removal names nothing that its plan does not list.
pub proof fn law_mega_removes_only_what_is_listed(plan: MegaPlanView, i: int, k: int)
    requires
        0 <= i < mega_commands(plan).len(),
        0 <= k < mega_commands(plan)[i].len(),
    ensures
        is_command_word(mega_commands(plan)[i][k]) || is_listed(plan, mega_commands(plan)[i][k]),
{
    let a = seq![seq!["yay"@, "-Rns"@, "--noconfirm"@] + plan.packages];
    let b = unless_empty(seq!["sudo"@, "pacman"@, "-Rns"@, "--noconfirm"@], plan.orphans);
    let c = home_removals(plan.home_paths);
    let d = unless_empty(seq!["sudo"@, "rm"@, "-f"@, "--"@], remnants(plan.system_leftovers));
    let e = unless_empty(seq!["sudo"@, "rm"@, "-f"@, "--"@], plan.cache_files);
    let all = mega_commands(plan);
    let word = all[i][k];
    let n1 = a.len();
    let n2 = n1 + b.len();
    let n3 = n2 + c.len();
    let n4 = n3 + d.len();
    if i < n1 {
        assert(all[i] == a[i]);
        if k >= 3 {
            assert(plan.packages[k - 3] == word);
        }
    } else if i < n2 {
        assert(all[i] == b[i - n1]);
        if k >= 4 {
            assert(plan.orphans[k - 4] == word);
        }
    } else if i < n3 {
        assert(all[i] == c[i - n2]);
        if k == 3 {
            assert(plan.home_paths[i - n2] == word);
        }
    } else if i < n4 {
        assert(all[i] == d[i - n3]);
        if k >= 4 {
            assert(remnants(plan.system_leftovers)[k - 4] == word);
        }
    } else {
        assert(all[i] == e[i - n4]);
        if k >= 4 {
            assert(plan.cache_files[k - 4] == word);
        }
    }
}

/// What a removal may leave of a config file is removed under both names: the
/// file's with .pacsave and with .pacnew appended. A file cannot be named by a
/// single dot.
pub proof fn law_config_remnants(owned: Seq<Seq<char>>, i: int)
    requires
        0 <= i < leftovers_of(owned).len(),
    ensures
        exists|k: int|
            #![trigger owned[k]]
            {
                &&& 0 <= k < owned.len()
                &&& is_config_file(owned[k])
                &&& leftovers_of(owned)[i] == owned[k] + ".pacsave"@
                &&& !ends_in_dot(owned[k]) ==> pacnew_of(leftovers_of(owned)[i]) == owned[k]
                    + ".pacnew"@
            },
    decreases owned.len(),
{
    if owned.len() > 0 {
        let before = owned.drop_last();
        let n = leftovers_of(before).len();
        if i < n {
            law_config_remnants(before, i);
            let k = choose|k: int|
                #![trigger before[k]]
                {
                    &&& 0 <= k < before.len()
                    &&& is_config_file(before[k])
                    &&& leftovers_of(before)[i] == before[k] + ".pacsave"@
                    &&& !ends_in_dot(before[k]) ==> pacnew_of(leftovers_of(before)[i]) == before[k]
                        + ".pacnew"@
                };
            assert(owned[k] == before[k]);
            assert(leftovers_of(owned)[i] == leftovers_of(before)[i]);
        } else {
            let path = owned[owned.len() - 1];
            reveal_strlit("/etc/");
            assert(path[0] == "/etc/"@[0]);
            let full = path + ".pacsave"@;
            assert(full.take(full.len() - ".pacsave"@.len()) =~= path);
            assert(".pacsave"@.is_suffix_of(full)) by {
                assert(full.subrange(full.len() - ".pacsave"@.len(), full.len() as int)
                    =~= ".pacsave"@);
            }
        }
    }
}

// ---------------------------------------------------------------------------
// The preview
// ---------------------------------------------------------------------------

/// The members of a list, indented.
pub open spec fn indented(list: Seq<Seq<char>>) -> Seq<Seq<char>> {
    Seq::new(list.len(), |i: int| "  "@ + list[i])
}

/// At most the first ten members of a list.
pub open spec fn first_ten(list: Seq<Seq<char>>) -> Seq<Seq<char>> {
    if list.len() > 10 {
        list.take(10)
    } else {
        list
    }
}

/// What the preview prints of a plan that pacman allows.
pub open spec fn preview_of(plan: MegaPlanView) -> Seq<Seq<char>> {
    seq![
        text::counted("packages ("@, plan.cascade.len(), ") — "@) + text::counted(
            seq![],
            plan.owned_files,
            " files:"@,
        ),
    ] + indented(plan.cascade) + seq![
        text::counted("\norphaned deps of these ("@, plan.orphans.len(), "):"@),
    ] + indented(plan.orphans) + seq![
        text::counted("\nhome leftovers ("@, plan.home_paths.len(), "):"@),
    ] + indented(plan.home_paths) + seq![
        text::counted("\nconfig leftover candidates ("@, plan.system_leftovers.len(), "):"@),
    ] + indented(first_ten(plan.system_leftovers)) + seq![
        text::counted("\ncached archives ("@, plan.cache_files.len(), "):"@),
    ] + indented(plan.cache_files)
}

/// Adds a heading and the first members of a list, indented.
fn push_section(out: &mut Vec<String>, heading: String, list: &Vec<String>, limit: usize)
    requires
        limit <= list@.len(),
    ensures
        text::texts(final(out)@) == text::texts(old(out)@) + seq![heading@] + indented(
            text::texts(list@).take(limit as int),
        ),
{
    let ghost before = text::texts(out@);
    let ghost title = heading@;
    out.push(heading);
    assert(text::texts(out@) =~= before + seq![title]);
    let ghost lines = indented(text::texts(list@).take(limit as int));
    for i in 0..limit
        invariant
            limit <= list@.len(),
            lines == indented(text::texts(list@).take(limit as int)),
            text::texts(out@) == before + seq![title] + lines.take(i as int),
    {
        let ghost now = text::texts(out@);
        let line = text::concat("  ", list[i].as_str());
        let ghost view = line@;
        out.push(line);
        assert(text::texts(out@) =~= now.push(view));
        assert(lines.take(i + 1) =~= lines.take(i as int).push(view));
    }
    assert(lines.take(limit as int) =~= lines);
}

/// What `--plan` prints of a plan: the lines, or why the packages cannot be
/// removed.
pub fn preview(plan: &MegaPlan) -> (r: Result<Vec<String>, String>)
    ensures
        match r {
            Ok(lines) => plan@.error is None && text::texts(lines@) == preview_of(plan@),
            Err(why) => plan@.error is Some && why@ == "cannot remove:\n"@ + plan@.error->0,
        },
{
    if let Some(err) = &plan.error {
        return Err(text::concat("cannot remove:\n", err.as_str()));
    }
    let mut out: Vec<String> = Vec::new();
    let ghost p = plan@;
    assert(text::texts(out@) =~= seq![]);
    let files = text::count("", plan.owned_files, " files:");
    assert(""@ =~= seq![]) by {
        reveal_strlit("");
    }
    let mut title = text::count("packages (", plan.cascade.len(), ") — ");
    title.append(files.as_str());
    push_section(&mut out, title, &plan.cascade, plan.cascade.len());
    push_section(
        &mut out,
        text::count("\norphaned deps of these (", plan.orphans.len(), "):"),
        &plan.orphans,
        plan.orphans.len(),
    );
    push_section(
        &mut out,
        text::count("\nhome leftovers (", plan.home_paths.len(), "):"),
        &plan.home_paths,
        plan.home_paths.len(),
    );
    let limit: usize = if plan.system_leftovers.len() > 10 {
        10
    } else {
        plan.system_leftovers.len()
    };
    push_section(
        &mut out,
        text::count("\nconfig leftover candidates (", plan.system_leftovers.len(), "):"),
        &plan.system_leftovers,
        limit,
    );
    push_section(
        &mut out,
        text::count("\ncached archives (", plan.cache_files.len(), "):"),
        &plan.cache_files,
        plan.cache_files.len(),
    );
    proof {
        assert(p.cascade.take(p.cascade.len() as int) =~= p.cascade);
        assert(p.orphans.take(p.orphans.len() as int) =~= p.orphans);
        assert(p.home_paths.take(p.home_paths.len() as int) =~= p.home_paths);
        assert(p.system_leftovers.take(limit as int) =~= first_ten(p.system_leftovers));
        assert(p.cache_files.take(p.cache_files.len() as int) =~= p.cache_files);
        assert(text::texts(out@) =~= preview_of(p));
    }
    Ok(out)
}

// ---------------------------------------------------------------------------
// The plain terminal
// ---------------------------------------------------------------------------

/// What is printed above the commands of a job.
pub fn banner(title: &str) -> (r: String)
    ensures
        r@ == "\n\x1b[1;35m▌ "@ + title@ + "\x1b[0m\n"@,
{
    text::concat3("\n\x1b[1;35m▌ ", title, "\x1b[0m\n")
}

/// What is printed before a command runs. An empty command does not run.
pub fn echo(command: &Vec<String>) -> (r: Option<String>)
    ensures
        pacman::text_of(r) == if command@.len() == 0 {
            None
        } else {
            Some("\x1b[2m$ "@ + text::joined(text::texts(command@), " "@) + "\x1b[0m"@)
        },
{
    if command.is_empty() {
        return None;
    }
    let line = text::join(command, " ");
    Some(text::concat3("\x1b[2m$ ", line.as_str(), "\x1b[0m"))
}

/// How a command ended.
pub enum Ended {
    Success,
    /// It ran and failed, with its exit status
    Failure(String),
    /// It did not run, with the reason
    Error(String),
}

/// What is printed after a command, unless it succeeded.
pub open spec fn complaint(ended: Ended) -> Option<Seq<char>> {
    match ended {
        Ended::Success => None,
        Ended::Failure(status) => Some("\x1b[1;31m  exited with "@ + status@ + "\x1b[0m"@),
        Ended::Error(why) => Some("\x1b[1;31m  could not run: "@ + why@ + "\x1b[0m"@),
    }
}

/// What is printed after a command, unless it succeeded.
pub fn outcome(ended: &Ended) -> (r: Option<String>)
    ensures
        pacman::text_of(r) == complaint(*ended),
        r is None <==> *ended is Success,
{
    match ended {
        Ended::Success => None,
        Ended::Failure(status) => Some(
            text::concat3("\x1b[1;31m  exited with ", status.as_str(), "\x1b[0m"),
        ),
        Ended::Error(why) => Some(
            text::concat3("\x1b[1;31m  could not run: ", why.as_str(), "\x1b[0m"),
        ),
    }
}

/// Whether a command failed or did not run.
pub open spec fn some_failed(ends: Seq<Ended>) -> bool {
    exists|i: int| 0 <= i < ends.len() && !((#[trigger] ends[i]) is Success)
}

/// What is printed when all commands have ended: a warning if one of them did
/// not succeed, and a prompt.
pub fn closing(ends: &Vec<Ended>) -> (r: String)
    ensures
        r@ == (if some_failed(ends@) {
            "\n\x1b[1;33mSome steps did not finish — see above.\x1b[0m\n"@
        } else {
            seq![]
        }) + "\n\x1b[1mPress Enter to continue\x1b[0m"@,
{
    let mut out: String = String::new();
    let mut failed = false;
    for i in 0..ends.len()
        invariant
            failed == some_failed(ends@.take(i as int)),
    {
        let ghost before = ends@.take(i as int);
        let ghost now = ends@.take(i + 1);
        let bad = match &ends[i] {
            Ended::Success => false,
            _ => true,
        };
        proof {
            if bad {
                assert(!(now[i as int] is Success));
            }
            if some_failed(before) {
                let k = choose|k: int| 0 <= k < before.len() && !((#[trigger] before[k]) is Success);
                assert(now[k] == before[k]);
            }
            if some_failed(now) && !bad {
                let k = choose|k: int| 0 <= k < now.len() && !((#[trigger] now[k]) is Success);
                assert(before[k] == now[k]);
            }
        }
        failed = failed || bad;
    }
    assert(ends@.take(ends@.len() as int) =~= ends@);
    if failed {
        out.append("\n\x1b[1;33mSome steps did not finish — see above.\x1b[0m\n");
    }
    out.append("\n\x1b[1mPress Enter to continue\x1b[0m");
    out
}

} // verus!
