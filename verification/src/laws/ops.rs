//! What plans, and the commands that carry them out, promise.

use vstd::prelude::*;

use crate::laws::pacman as pacman_laws;
use crate::laws::text as text_laws;
use crate::ops;
use crate::ops::DirEntryView;
use crate::ops::Ended;
use crate::ops::MegaPlanView;
use crate::ops::SurveyView;
use crate::order;
use crate::pacman;
use crate::text;
use crate::text::Class;

verus! {

// ---------------------------------------------------------------------------
// Names in $HOME
// ---------------------------------------------------------------------------

/// Whether a text is one of the endings that packages give to a name.
pub open spec fn is_ending(s: Seq<char>) -> bool {
    ||| s == "-bin"@
    ||| s == "-git"@
    ||| s == "-appimage"@
    ||| s == "-debug"@
    ||| s == "-electron"@
    ||| s == "-desktop"@
    ||| s == "-app"@
}

/// Whether a directory may be named so after a package: by its name, or by
/// what one of the endings leaves of it.
pub open spec fn may_be_called(name: Seq<char>, variant: Seq<char>) -> bool {
    ||| variant == name
    ||| variant.len() > 0 && exists|ending: Seq<char>| #[trigger]
        is_ending(ending) && name == variant + ending
}

/// The variants of a name are the name and what each ending leaves of it.
pub proof fn law_variants(name: Seq<char>, variant: Seq<char>)
    ensures
        ops::variants_of(name).contains(variant) <==> may_be_called(name, variant),
{
    let list = ops::suffixes();
    lemma_variants(name, list, variant);
    if variant.len() > 0 && exists|i: int|
        0 <= i < list.len() && name == variant + #[trigger] list[i] {
        let i = choose|i: int| 0 <= i < list.len() && name == variant + #[trigger] list[i];
        assert(is_ending(list[i]));
    }
    if variant.len() > 0 && exists|ending: Seq<char>| #[trigger]
        is_ending(ending) && name == variant + ending {
        let ending = choose|ending: Seq<char>| #[trigger]
            is_ending(ending) && name == variant + ending;
        assert(list[0] == "-bin"@);
        assert(list[1] == "-git"@);
        assert(list[2] == "-appimage"@);
        assert(list[3] == "-debug"@);
        assert(list[4] == "-electron"@);
        assert(list[5] == "-desktop"@);
        assert(list[6] == "-app"@);
    }
}

proof fn lemma_variants(name: Seq<char>, list: Seq<Seq<char>>, variant: Seq<char>)
    ensures
        ops::variants_by(name, list).contains(variant) <==> variant == name || (variant.len() > 0
            && exists|i: int| 0 <= i < list.len() && name == variant + #[trigger] list[i]),
    decreases list.len(),
{
    let all = ops::variants_by(name, list);
    if list.len() == 0 {
        assert(all[0] == name);
    } else {
        let head = list.drop_last();
        let rest = ops::variants_by(name, head);
        lemma_variants(name, head, variant);
        let suffix = list.last();
        let base = name.take(name.len() - suffix.len());
        if suffix.is_suffix_of(name) {
            assert(name =~= base + suffix) by {
                assert(name.subrange(name.len() - suffix.len(), name.len() as int) =~= suffix);
            }
        }
        if all.contains(variant) {
            let k = choose|k: int| 0 <= k < all.len() && all[k] == variant;
            if k < rest.len() {
                assert(rest[k] == variant);
                assert(rest.contains(variant));
                if variant != name {
                    let i = choose|i: int|
                        0 <= i < head.len() && name == variant + #[trigger] head[i];
                    assert(list[i] == head[i]);
                }
            } else {
                assert(variant == base);
                assert(name == variant + list[list.len() - 1]);
            }
        }
        if rest.contains(variant) {
            let k = choose|k: int| 0 <= k < rest.len() && rest[k] == variant;
            assert(all[k] == variant);
        }
        if variant.len() > 0 && exists|i: int|
            0 <= i < list.len() && name == variant + #[trigger] list[i] {
            let i = choose|i: int| 0 <= i < list.len() && name == variant + #[trigger] list[i];
            if i < head.len() {
                assert(head[i] == list[i]);
            } else {
                assert(name.subrange(name.len() - suffix.len(), name.len() as int) =~= suffix);
                assert(suffix.is_suffix_of(name));
                assert(base =~= variant);
                if !rest.contains(variant) {
                    assert(all[all.len() - 1] == variant);
                }
            }
        }
    }
}

/// A name is normalised character by character: what is not alphanumeric goes,
/// the rest is in lower case.
pub proof fn law_normalizing(s: Seq<char>, c: char)
    ensures
        ops::normalized(seq![]) == Seq::<char>::empty(),
        ops::normalized(s.push(c)) == ops::normalized(s) + (if text::alphanumeric(c) {
            text::char_lowercase(c)
        } else {
            seq![]
        }),
{
    assert(s.push(c).drop_last() =~= s);
    assert(ops::normalized(s) + Seq::<char>::empty() =~= ops::normalized(s));
}

/// Whether a directory is called so, but for case and punctuation, or has a
/// reverse-DNS name of three segments or more of which one is.
pub open spec fn is_called(entry: Seq<char>, variant: Seq<char>) -> bool {
    let parts = text::parts_of(entry, seq!['.']);
    ||| ops::normalized(entry) == ops::normalized(variant)
    ||| parts.len() >= 3 && exists|i: int|
        0 <= i < parts.len() && ops::normalized(#[trigger] parts[i]) == ops::normalized(variant)
}

/// A directory belongs to packages when it is called like one of their names.
pub proof fn law_belonging(entry: Seq<char>, variants: Seq<Seq<char>>)
    ensures
        ops::belongs(entry, variants) <==> exists|k: int|
            0 <= k < variants.len() && is_called(entry, #[trigger] variants[k]),
{
    let parts = text::parts_of(entry, seq!['.']);
    if ops::names_one(entry, variants) {
        let k = choose|k: int|
            0 <= k < variants.len() && ops::normalized(#[trigger] variants[k]) == ops::normalized(
                entry,
            );
        assert(is_called(entry, variants[k]));
    } else if ops::belongs(entry, variants) {
        let i = choose|i: int|
            0 <= i < parts.len() && ops::names_one(#[trigger] parts[i], variants);
        let k = choose|k: int|
            0 <= k < variants.len() && ops::normalized(#[trigger] variants[k]) == ops::normalized(
                parts[i],
            );
        assert(is_called(entry, variants[k]));
    }
    if exists|k: int| 0 <= k < variants.len() && is_called(entry, #[trigger] variants[k]) {
        let k = choose|k: int| 0 <= k < variants.len() && is_called(entry, #[trigger] variants[k]);
        if ops::normalized(entry) == ops::normalized(variants[k]) {
            assert(ops::names_one(entry, variants));
        } else {
            let i = choose|i: int|
                0 <= i < parts.len() && ops::normalized(#[trigger] parts[i]) == ops::normalized(
                    variants[k],
                );
            assert(ops::names_one(parts[i], variants));
            assert(ops::names_one(ops::segments(entry)[i], variants));
        }
    }
}

proof fn lemma_all_variants(names: Seq<Seq<char>>, variant: Seq<char>)
    ensures
        ops::all_variants(names).contains(variant) <==> exists|i: int|
            0 <= i < names.len() && may_be_called(#[trigger] names[i], variant),
    decreases names.len(),
{
    let all = ops::all_variants(names);
    if names.len() > 0 {
        let head = names.drop_last();
        let rest = ops::all_variants(head);
        let own = ops::variants_of(names.last());
        lemma_all_variants(head, variant);
        law_variants(names.last(), variant);
        if all.contains(variant) {
            let k = choose|k: int| 0 <= k < all.len() && all[k] == variant;
            if k < rest.len() {
                assert(rest[k] == variant);
                assert(rest.contains(variant));
                let i = choose|i: int|
                    0 <= i < head.len() && may_be_called(#[trigger] head[i], variant);
                assert(names[i] == head[i]);
            } else {
                assert(own[k - rest.len()] == variant);
                assert(own.contains(variant));
                assert(may_be_called(names[names.len() - 1], variant));
            }
        }
        if exists|i: int| 0 <= i < names.len() && may_be_called(#[trigger] names[i], variant) {
            let i = choose|i: int|
                0 <= i < names.len() && may_be_called(#[trigger] names[i], variant);
            if i < head.len() {
                assert(head[i] == names[i]);
                let k = choose|k: int| 0 <= k < rest.len() && rest[k] == variant;
                assert(all[k] == variant);
            } else {
                let k = choose|k: int| 0 <= k < own.len() && own[k] == variant;
                assert(all[rest.len() + k] == variant);
            }
        }
    }
}

/// The leftovers in $HOME of a plan are the paths of all those entries that
/// are called like one of the targets, whatever ending its name has.
pub proof fn law_home_leftovers(
    names: Seq<Seq<char>>,
    stdout: Seq<char>,
    stderr: Seq<char>,
    survey: SurveyView,
    path: Seq<char>,
)
    ensures
        ops::plan_of(names, true, stdout, stderr, survey).home_paths.contains(path) <==> exists|
            k: int,
            i: int,
            variant: Seq<char>,
        |
            0 <= k < survey.home.len() && 0 <= i < names.len() && survey.home[k].path == path
                && #[trigger] may_be_called(names[i], variant) && #[trigger] is_called(
                survey.home[k].name,
                variant,
            ),
{
    let all = ops::all_variants(names);
    let shown = ops::plan_of(names, true, stdout, stderr, survey).home_paths;
    if shown.contains(path) {
        ops::law_home_leftovers_belong(survey.home, all, path);
        let k = choose|k: int|
            0 <= k < survey.home.len() && #[trigger] survey.home[k].path == path && ops::belongs(
                survey.home[k].name,
                all,
            );
        law_belonging(survey.home[k].name, all);
        let v = choose|v: int|
            0 <= v < all.len() && is_called(survey.home[k].name, #[trigger] all[v]);
        lemma_all_variants(names, all[v]);
        assert(all.contains(all[v]));
        let i = choose|i: int| 0 <= i < names.len() && may_be_called(#[trigger] names[i], all[v]);
        assert(may_be_called(names[i], all[v]) && is_called(survey.home[k].name, all[v]));
    }
    if exists|k: int, i: int, variant: Seq<char>|
        0 <= k < survey.home.len() && 0 <= i < names.len() && survey.home[k].path == path
            && #[trigger] may_be_called(names[i], variant) && #[trigger] is_called(
            survey.home[k].name,
            variant,
        ) {
        let (k, i, variant) = choose|k: int, i: int, variant: Seq<char>|
            0 <= k < survey.home.len() && 0 <= i < names.len() && survey.home[k].path == path
                && #[trigger] may_be_called(names[i], variant) && #[trigger] is_called(
                survey.home[k].name,
                variant,
            );
        lemma_all_variants(names, variant);
        assert(may_be_called(names[i], variant));
        let v = choose|v: int| 0 <= v < all.len() && all[v] == variant;
        assert(is_called(survey.home[k].name, all[v]));
        law_belonging(survey.home[k].name, all);
        ops::law_home_leftovers_are_complete(survey.home, all, k);
    }
}

proof fn lemma_belongings_unique(entries: Seq<DirEntryView>, variants: Seq<Seq<char>>)
    ensures
        ops::belongings(entries, variants).no_duplicates(),
    decreases entries.len(),
{
    if entries.len() > 0 {
        lemma_belongings_unique(entries.drop_last(), variants);
    }
}

/// The leftovers in $HOME of a plan come in ascending order, each once.
pub proof fn law_home_leftovers_are_sorted(
    names: Seq<Seq<char>>,
    stdout: Seq<char>,
    stderr: Seq<char>,
    survey: SurveyView,
    i: int,
    j: int,
)
    requires
        0 <= i < j < ops::plan_of(names, true, stdout, stderr, survey).home_paths.len(),
    ensures
        order::before(
            ops::plan_of(names, true, stdout, stderr, survey).home_paths[i],
            ops::plan_of(names, true, stdout, stderr, survey).home_paths[j],
        ),
{
    let list = ops::belongings(survey.home, ops::all_variants(names));
    lemma_belongings_unique(survey.home, ops::all_variants(names));
    let keys = ops::text_keys(list);
    order::law_order_is_stable(keys);
    let places = order::order_of(keys);
    assert(keys[places[i]].less(keys[places[j]]) || (keys[places[i]] == keys[places[j]]
        && places[i] < places[j]));
    assert(keys[places[i]].name == list[places[i]]);
    assert(keys[places[j]].name == list[places[j]]);
}

// ---------------------------------------------------------------------------
// What a plan lists
// ---------------------------------------------------------------------------

/// Whether a text is printed on a line of its own, with white space around it
/// at most.
pub open spec fn is_printed(name: Seq<char>, out: Seq<char>) -> bool {
    exists|i: int|
        0 <= i < text::lines_of(out).len() && text::trimmed(#[trigger] text::lines_of(out)[i])
            == name
}

/// The packages that go are those that the dry run prints, one to the line;
/// a line of several words is none.
pub proof fn law_cascade(
    names: Seq<Seq<char>>,
    stdout: Seq<char>,
    stderr: Seq<char>,
    survey: SurveyView,
    name: Seq<char>,
)
    ensures
        ops::plan_of(names, true, stdout, stderr, survey).packages == names,
        ops::plan_of(names, true, stdout, stderr, survey).error is None,
        ops::plan_of(names, true, stdout, stderr, survey).cascade.contains(name) <==> (
        text_laws::is_word(name) && is_printed(name, stdout)),
{
    let list = pacman::names_in(text::lines_of(stdout));
    pacman_laws::law_listed_names(text::lines_of(stdout), name);
    lemma_single_words(list, name);
}

proof fn lemma_single_words(list: Seq<Seq<char>>, name: Seq<char>)
    requires
        name.len() > 0 || !list.contains(name),
    ensures
        ops::single_words(list).contains(name) <==> list.contains(name) && text_laws::is_word(name),
    decreases list.len(),
{
    if list.len() > 0 {
        let head = list.drop_last();
        let last = list.last();
        let rest = ops::single_words(head);
        let all = ops::single_words(list);
        assert(name.len() > 0 || !head.contains(name)) by {
            if head.contains(name) {
                let k = choose|k: int| 0 <= k < head.len() && head[k] == name;
                assert(list[k] == name);
            }
        }
        lemma_single_words(head, name);
        text::lemma_first_of(last, Class::Space);
        if text::first_of(last, Class::Space) == last.len() {
            assert forall|i: int| 0 <= i < last.len() implies !text::white_space(
                #[trigger] last[i],
            ) by {
                assert(!Class::Space.has(last[i]));
            }
        }
        if all.contains(name) {
            let k = choose|k: int| 0 <= k < all.len() && all[k] == name;
            if k < rest.len() {
                assert(rest[k] == name);
                assert(rest.contains(name));
                let i = choose|i: int| 0 <= i < head.len() && head[i] == name;
                assert(list[i] == name);
            } else {
                assert(list[list.len() - 1] == name);
            }
        }
        if list.contains(name) && text_laws::is_word(name) {
            let i = choose|i: int| 0 <= i < list.len() && list[i] == name;
            if i < head.len() {
                assert(head[i] == name);
                let k = choose|k: int| 0 <= k < rest.len() && rest[k] == name;
                assert(all[k] == name);
            } else {
                text::lemma_first_of_is(last, Class::Space, last.len() as int);
                assert(all[all.len() - 1] == name);
            }
        }
    }
}

/// The packages that go keep the order in which the dry run prints them, each
/// as often as it is printed.
pub proof fn law_cascade_keeps_order(
    names: Seq<Seq<char>>,
    stdout: Seq<char>,
    stderr: Seq<char>,
    survey: SurveyView,
)
    requires
        forall|i: int|
            0 <= i < text::lines_of(stdout).len() ==> text_laws::is_word(
                #[trigger] text::lines_of(stdout)[i],
            ),
    ensures
        ops::plan_of(names, true, stdout, stderr, survey).cascade == text::lines_of(stdout),
{
    lemma_clean_words(text::lines_of(stdout));
}

proof fn lemma_clean_words(lines: Seq<Seq<char>>)
    requires
        forall|i: int| 0 <= i < lines.len() ==> text_laws::is_word(#[trigger] lines[i]),
    ensures
        pacman::names_in(lines) == lines,
        ops::single_words(lines) == lines,
    decreases lines.len(),
{
    if lines.len() > 0 {
        let head = lines.drop_last();
        let last = lines.last();
        assert forall|i: int| 0 <= i < head.len() implies text_laws::is_word(#[trigger] head[i]) by {
            assert(head[i] == lines[i]);
        }
        lemma_clean_words(head);
        assert(lines[lines.len() - 1] == last);
        text_laws::lemma_trim(last);
        text::lemma_first_of_is(last, Class::Space, last.len() as int);
        assert(head.push(last) =~= lines);
    } else {
        assert(lines =~= seq![]);
    }
}

/// Of the names that a dry run prints those of a single word stay, in order.
pub proof fn law_single_words(list: Seq<Seq<char>>, name: Seq<char>)
    requires
        name.len() > 0,
    ensures
        ops::single_words(seq![]).len() == 0,
        text_laws::is_word(name) ==> ops::single_words(list.push(name)) == ops::single_words(
            list,
        ).push(name),
        !text_laws::is_word(name) ==> ops::single_words(list.push(name)) == ops::single_words(list),
{
    assert(list.push(name).drop_last() =~= list);
    text::lemma_first_of(name, Class::Space);
    if text_laws::is_word(name) {
        text::lemma_first_of_is(name, Class::Space, name.len() as int);
    } else if text::first_of(name, Class::Space) == name.len() {
        assert forall|i: int| 0 <= i < name.len() implies !text::white_space(
            #[trigger] name[i],
        ) by {
            assert(!Class::Space.has(name[i]));
        }
    }
}

/// The files that the targets own are those of all their listings, one after
/// the other, and a plan counts them.
pub proof fn law_owned_files(
    names: Seq<Seq<char>>,
    stdout: Seq<char>,
    stderr: Seq<char>,
    survey: SurveyView,
    listings: Seq<Seq<char>>,
    listing: Seq<char>,
)
    ensures
        ops::owned_in(seq![]).len() == 0,
        ops::owned_in(listings.push(listing)) == ops::owned_in(listings) + pacman::paths_in(
            text::lines_of(listing),
        ),
        ops::plan_of(names, true, stdout, stderr, survey).owned_files == ops::owned_in(
            survey.listings,
        ).len(),
{
    assert(listings.push(listing).drop_last() =~= listings);
}

/// Every file under /etc that the targets own may leave a .pacsave behind, and
/// nothing else may.
pub proof fn law_config_leftovers(
    names: Seq<Seq<char>>,
    stdout: Seq<char>,
    stderr: Seq<char>,
    survey: SurveyView,
    path: Seq<char>,
)
    ensures
        ops::plan_of(names, true, stdout, stderr, survey).system_leftovers.contains(path)
            <==> exists|i: int|
            0 <= i < ops::owned_in(survey.listings).len() && "/etc/"@.is_prefix_of(
                #[trigger] ops::owned_in(survey.listings)[i],
            ) && ops::owned_in(survey.listings)[i].last() != '/' && path == ops::owned_in(
                survey.listings,
            )[i] + ".pacsave"@,
{
    lemma_leftovers(ops::owned_in(survey.listings), path);
}

/// The candidates keep the order of the files that may leave them.
pub proof fn law_config_leftovers_keep_order(owned: Seq<Seq<char>>, path: Seq<char>)
    ensures
        ops::leftovers_of(seq![]).len() == 0,
        "/etc/"@.is_prefix_of(path) && path.last() != '/' ==> ops::leftovers_of(owned.push(path))
            == ops::leftovers_of(owned).push(path + ".pacsave"@),
        !"/etc/"@.is_prefix_of(path) || path.last() == '/' ==> ops::leftovers_of(owned.push(path))
            == ops::leftovers_of(owned),
{
    assert(owned.push(path).drop_last() =~= owned);
}

proof fn lemma_leftovers(owned: Seq<Seq<char>>, path: Seq<char>)
    ensures
        ops::leftovers_of(owned).contains(path) <==> exists|i: int|
            0 <= i < owned.len() && "/etc/"@.is_prefix_of(#[trigger] owned[i]) && owned[i].last()
                != '/' && path == owned[i] + ".pacsave"@,
    decreases owned.len(),
{
    if owned.len() > 0 {
        let head = owned.drop_last();
        let rest = ops::leftovers_of(head);
        let all = ops::leftovers_of(owned);
        lemma_leftovers(head, path);
        if all.contains(path) {
            let k = choose|k: int| 0 <= k < all.len() && all[k] == path;
            if k < rest.len() {
                assert(rest[k] == path);
                assert(rest.contains(path));
                let i = choose|i: int|
                    0 <= i < head.len() && "/etc/"@.is_prefix_of(#[trigger] head[i])
                        && head[i].last() != '/' && path == head[i] + ".pacsave"@;
                assert(owned[i] == head[i]);
            } else {
                assert(owned[owned.len() - 1] + ".pacsave"@ == path);
            }
        }
        if exists|i: int|
            0 <= i < owned.len() && "/etc/"@.is_prefix_of(#[trigger] owned[i]) && owned[i].last()
                != '/' && path == owned[i] + ".pacsave"@ {
            let i = choose|i: int|
                0 <= i < owned.len() && "/etc/"@.is_prefix_of(#[trigger] owned[i])
                    && owned[i].last() != '/' && path == owned[i] + ".pacsave"@;
            if i < head.len() {
                assert(head[i] == owned[i]);
                let k = choose|k: int| 0 <= k < rest.len() && rest[k] == path;
                assert(all[k] == path);
            } else {
                assert(all[all.len() - 1] == path);
            }
        }
    }
}

/// The cached archives of a plan are the paths of all those files that are
/// named like a package that goes, a dash and a version that begins with a
/// digit.
pub proof fn law_cached_archives(
    names: Seq<Seq<char>>,
    stdout: Seq<char>,
    stderr: Seq<char>,
    survey: SurveyView,
    path: Seq<char>,
)
    ensures
        ops::plan_of(names, true, stdout, stderr, survey).cache_files.contains(path) <==> exists|
            k: int,
            name: Seq<char>,
        |
            0 <= k < survey.cache.len() && survey.cache[k].path == path && ops::plan_of(
                names,
                true,
                stdout,
                stderr,
                survey,
            ).cascade.contains(name) && #[trigger] is_versioned(survey.cache[k].name, name),
        ops::plan_of(names, true, stdout, stderr, survey).cache_files.no_duplicates(),
{
    let plan = ops::plan_of(names, true, stdout, stderr, survey);
    let cascade = plan.cascade;
    if plan.cache_files.contains(path) {
        ops::law_archives_are_of_the_cascade(cascade, survey.cache, path);
        let (i, k) = choose|i: int, k: int|
            0 <= i < cascade.len() && 0 <= k < survey.cache.len() && survey.cache[k].path == path
                && ops::is_archive(#[trigger] survey.cache[k].name, #[trigger] cascade[i]);
        lemma_versioned(survey.cache[k].name, cascade[i]);
        assert(cascade.contains(cascade[i]));
        assert(is_versioned(survey.cache[k].name, cascade[i]));
    }
    if exists|k: int, name: Seq<char>|
        0 <= k < survey.cache.len() && survey.cache[k].path == path && cascade.contains(name)
            && #[trigger] is_versioned(survey.cache[k].name, name) {
        let (k, name) = choose|k: int, name: Seq<char>|
            0 <= k < survey.cache.len() && survey.cache[k].path == path && cascade.contains(name)
                && #[trigger] is_versioned(survey.cache[k].name, name);
        lemma_versioned(survey.cache[k].name, name);
        let i = choose|i: int| 0 <= i < cascade.len() && cascade[i] == name;
        ops::law_archives_are_complete(cascade, survey.cache, i, k);
    }
    lemma_archives_once(cascade, survey.cache);
}

/// The cached archives are listed package by package, in the order of the
/// cache, each once.
pub proof fn law_archives_keep_order(
    cascade: Seq<Seq<char>>,
    name: Seq<char>,
    list: Seq<Seq<char>>,
    entries: Seq<DirEntryView>,
    entry: DirEntryView,
)
    ensures
        ops::archives_of(seq![], entries).len() == 0,
        ops::archives_of(cascade.push(name), entries) == ops::with_archives(
            ops::archives_of(cascade, entries),
            name,
            entries,
        ),
        ops::with_archives(list, name, seq![]) == list,
        ({
            let before = ops::with_archives(list, name, entries);
            ops::with_archives(list, name, entries.push(entry)) == if is_versioned(entry.name, name)
                && !before.contains(entry.path) {
                before.push(entry.path)
            } else {
                before
            }
        }),
{
    assert(cascade.push(name).drop_last() =~= cascade);
    assert(entries.push(entry).drop_last() =~= entries);
    lemma_versioned(entry.name, name);
}

proof fn lemma_with_archives_once(
    list: Seq<Seq<char>>,
    name: Seq<char>,
    entries: Seq<DirEntryView>,
)
    requires
        list.no_duplicates(),
    ensures
        ops::with_archives(list, name, entries).no_duplicates(),
    decreases entries.len(),
{
    if entries.len() > 0 {
        lemma_with_archives_once(list, name, entries.drop_last());
    }
}

proof fn lemma_archives_once(cascade: Seq<Seq<char>>, entries: Seq<DirEntryView>)
    ensures
        ops::archives_of(cascade, entries).no_duplicates(),
    decreases cascade.len(),
{
    if cascade.len() > 0 {
        lemma_archives_once(cascade.drop_last(), entries);
        lemma_with_archives_once(
            ops::archives_of(cascade.drop_last(), entries),
            cascade.last(),
            entries,
        );
    }
}

/// The name of a package, a dash and a version that begins with a digit.
pub open spec fn versioned(name: Seq<char>, digit: char, rest: Seq<char>) -> Seq<char> {
    name + seq!['-', digit] + rest
}

/// Whether a file is named like a package, a dash and a version that begins
/// with a digit.
pub open spec fn is_versioned(file: Seq<char>, name: Seq<char>) -> bool {
    exists|digit: char, rest: Seq<char>|
        '0' <= digit && digit <= '9' && file == #[trigger] versioned(name, digit, rest)
}

proof fn lemma_versioned(file: Seq<char>, name: Seq<char>)
    ensures
        ops::is_archive(file, name) <==> is_versioned(file, name),
{
    let n = name.len() as int;
    if ops::is_archive(file, name) {
        let digit = file[n + 1];
        let rest = file.skip(n + 2);
        assert(file =~= versioned(name, digit, rest)) by {
            let front = name.push('-');
            assert(file.subrange(0, n + 1) =~= front);
            assert forall|i: int| 0 <= i < n + 1 implies file[i] == front[i] by {
                assert(file.subrange(0, n + 1)[i] == file[i]);
            }
        }
    }
    if is_versioned(file, name) {
        let (digit, rest) = choose|digit: char, rest: Seq<char>|
            '0' <= digit && digit <= '9' && file == #[trigger] versioned(name, digit, rest);
        assert(file.subrange(0, n + 1) =~= name.push('-'));
        assert(file[n + 1] == digit);
    }
}

/// A dependency that is orphaned already goes with what needs it: for every
/// word of the "Depends On" field of a package that goes, whatever version it
/// asks for, the bare name is among the orphans of the plan if `pacman -Qtdq`
/// prints it and it does not go anyway.
pub proof fn law_orphaned_dependencies_go(
    names: Seq<Seq<char>>,
    stdout: Seq<char>,
    stderr: Seq<char>,
    survey: SurveyView,
    k: int,
    record: Seq<char>,
    rest: Seq<char>,
    name: Seq<char>,
    constraint: Seq<char>,
)
    requires
        0 <= k < survey.infos.len(),
        survey.infos[k] == record || survey.infos[k] == record + seq!['\n', '\n'] + rest,
        !text::includes(record + seq!['\n'], seq!['\n', '\n']),
        text::trimmed(record).len() > 0,
        pacman::value_of(pacman::fields_of(text::lines_of(record)), "Name"@).len() > 0,
        pacman::value_of(pacman::fields_of(text::lines_of(record)), "Depends On"@) != "None"@,
        text::words_of(
            pacman::value_of(pacman::fields_of(text::lines_of(record)), "Depends On"@),
        ).contains(name + constraint),
        name.len() > 0,
        pacman_laws::is_bare(name),
        constraint.len() > 0 ==> pacman_laws::is_relation(constraint[0]),
        is_printed(name, survey.orphans),
        !ops::plan_of(names, true, stdout, stderr, survey).cascade.contains(name),
    ensures
        ops::plan_of(names, true, stdout, stderr, survey).orphans.contains(name),
{
    let value = pacman::value_of(pacman::fields_of(text::lines_of(record)), "Depends On"@);
    let fields = pacman::fields_of(text::lines_of(record));
    let info = survey.infos[k];
    pacman_laws::law_dependencies_are_read(record, rest);
    lemma_value_is_trim(fields, "Depends On"@);
    text_laws::lemma_trim(value);
    let words = text::words_of(value);
    let w = choose|w: int| 0 <= w < words.len() && words[w] == name + constraint;
    text_laws::law_words_are_words(value, w);
    assert(value.len() > 0) by {
        let s = choose|s: int| text::stands_at(value, words[w], s);
        assert(words[w].len() > 0);
    }
    let deps = pacman::items_of(value);
    assert(deps == pacman::bare_words(words));
    let d = lemma_bare_words_hold(words, w, name, constraint);
    assert(pacman::deps_in(info) == deps);
    let bare = ops::bare_names(deps);
    assert(bare[d] == name);
    lemma_needed(survey.infos, k, d);
    let needed = ops::needed_by(survey.infos);
    ops::law_orphans_are_related(names, stdout, stderr, survey);
    pacman_laws::law_listed_names(text::lines_of(survey.orphans), name);
    assert(needed.contains(name));
}

proof fn lemma_value_is_trim(fields: Seq<(Seq<char>, Seq<char>)>, name: Seq<char>)
    ensures
        text_laws::is_trim(pacman::value_of(fields, name)),
    decreases fields.len(),
{
    if fields.len() > 0 {
        if fields.last().0 == name {
            text_laws::law_trimmed_is_within(fields.last().1);
        } else {
            lemma_value_is_trim(fields.drop_last(), name);
        }
    }
}

/// A word of a list with a name in front has an item with that bare name.
proof fn lemma_bare_words_hold(
    words: Seq<Seq<char>>,
    w: int,
    name: Seq<char>,
    constraint: Seq<char>,
) -> (d: int)
    requires
        0 <= w < words.len(),
        words[w] == name + constraint,
        text_laws::is_word(words[w]),
        name.len() > 0,
        pacman_laws::is_bare(name),
        constraint.len() > 0 ==> pacman_laws::is_relation(constraint[0]),
    ensures
        0 <= d < pacman::bare_words(words).len(),
        pacman::dep_name_of(pacman::bare_words(words)[d]) == name,
    decreases words.len(),
{
    let head = words.drop_last();
    let rest = pacman::bare_words(head);
    let all = pacman::bare_words(words);
    if w < head.len() {
        assert(head[w] == words[w]);
        let d = lemma_bare_words_hold(head, w, name, constraint);
        assert(all[d] == rest[d]);
        d
    } else {
        let word = words[w];
        let n = name.len() as int;
        text::lemma_after_last_of(word, Class::Not(':'));
        let end = text::after_last_of(word, Class::Not(':'));
        assert(!pacman_laws::is_relation(name[n - 1]));
        assert(word[n - 1] == name[n - 1]);
        assert(end >= n) by {
            if end < n {
                assert(!Class::Not(':').has(word[n - 1]));
            }
        }
        let kept = word.take(end);
        let more = kept.skip(n);
        assert(kept =~= Seq::<char>::empty() + name + Seq::<char>::empty() + more);
        if more.len() > 0 {
            assert(more[0] == constraint[0]);
        }
        assert(!text::white_space(word[0]) && !text::white_space(word[n - 1]));
        assert(name[0] == word[0]);
        pacman_laws::law_dep_name(seq![], name, seq![], more);
        assert(all == rest.push(kept));
        rest.len() as int
    }
}

/// What one of the packages depends on is among what they depend on together.
proof fn lemma_needed(infos: Seq<Seq<char>>, k: int, d: int)
    requires
        0 <= k < infos.len(),
        0 <= d < pacman::deps_in(infos[k]).len(),
    ensures
        ops::needed_by(infos).contains(pacman::dep_name_of(pacman::deps_in(infos[k])[d])),
    decreases infos.len(),
{
    let head = infos.drop_last();
    let rest = ops::needed_by(head);
    let all = ops::needed_by(infos);
    let name = pacman::dep_name_of(pacman::deps_in(infos[k])[d]);
    if k < head.len() {
        assert(head[k] == infos[k]);
        lemma_needed(head, k, d);
        let p = choose|p: int| 0 <= p < rest.len() && rest[p] == name;
        assert(all[p] == name);
    } else {
        assert(all[rest.len() + d] == ops::bare_names(pacman::deps_in(infos.last()))[d]);
    }
}

/// Nothing else is an orphan of a plan: each is printed by `pacman -Qtdq`, is
/// the bare name of a dependency of a package that goes, and does not go
/// anyway.
pub proof fn law_only_orphaned_dependencies_go(
    names: Seq<Seq<char>>,
    stdout: Seq<char>,
    stderr: Seq<char>,
    survey: SurveyView,
    name: Seq<char>,
)
    requires
        ops::plan_of(names, true, stdout, stderr, survey).orphans.contains(name),
    ensures
        is_printed(name, survey.orphans),
        !ops::plan_of(names, true, stdout, stderr, survey).cascade.contains(name),
        exists|k: int, d: int|
            0 <= k < survey.infos.len() && 0 <= d < pacman::deps_in(survey.infos[k]).len()
                && pacman::dep_name_of(#[trigger] pacman::deps_in(survey.infos[k])[d]) == name,
        ops::plan_of(names, true, stdout, stderr, survey).orphans.no_duplicates(),
{
    ops::law_orphans_are_related(names, stdout, stderr, survey);
    pacman_laws::law_listed_names(text::lines_of(survey.orphans), name);
    lemma_needed_by(survey.infos, name);
}

/// The orphans of a plan come in the order in which the packages that go
/// depend on them.
pub proof fn law_orphans_keep_order(
    deps: Seq<Seq<char>>,
    dep: Seq<char>,
    orphans: Seq<Seq<char>>,
    cascade: Seq<Seq<char>>,
    infos: Seq<Seq<char>>,
    info: Seq<char>,
)
    ensures
        ops::orphans_among(seq![], orphans, cascade).len() == 0,
        ({
            let before = ops::orphans_among(deps, orphans, cascade);
            ops::orphans_among(deps.push(dep), orphans, cascade) == if orphans.contains(dep)
                && !cascade.contains(dep) && !before.contains(dep) {
                before.push(dep)
            } else {
                before
            }
        }),
        ops::needed_by(seq![]).len() == 0,
        ops::needed_by(infos.push(info)).len() == ops::needed_by(infos).len() + pacman::deps_in(
            info,
        ).len(),
        forall|i: int|
            0 <= i < pacman::deps_in(info).len() ==> #[trigger] ops::needed_by(
                infos.push(info),
            )[ops::needed_by(infos).len() + i] == pacman::dep_name_of(pacman::deps_in(info)[i]),
{
    assert(deps.push(dep).drop_last() =~= deps);
    assert(infos.push(info).drop_last() =~= infos);
}

proof fn lemma_needed_by(infos: Seq<Seq<char>>, name: Seq<char>)
    requires
        ops::needed_by(infos).contains(name),
    ensures
        exists|k: int, d: int|
            0 <= k < infos.len() && 0 <= d < pacman::deps_in(infos[k]).len()
                && pacman::dep_name_of(#[trigger] pacman::deps_in(infos[k])[d]) == name,
    decreases infos.len(),
{
    if infos.len() > 0 {
        let head = infos.drop_last();
        let rest = ops::needed_by(head);
        let all = ops::needed_by(infos);
        let p = choose|p: int| 0 <= p < all.len() && all[p] == name;
        if p < rest.len() {
            assert(rest[p] == name);
            lemma_needed_by(head, name);
            let (k, d) = choose|k: int, d: int|
                0 <= k < head.len() && 0 <= d < pacman::deps_in(head[k]).len()
                    && pacman::dep_name_of(#[trigger] pacman::deps_in(head[k])[d]) == name;
            assert(infos[k] == head[k]);
            assert(pacman::dep_name_of(pacman::deps_in(infos[k])[d]) == name);
        } else {
            let k = infos.len() - 1;
            let d = p - rest.len();
            assert(all[p] == ops::bare_names(pacman::deps_in(infos.last()))[d]);
            assert(pacman::dep_name_of(pacman::deps_in(infos[k])[d]) == name);
        }
    }
}

/// What a plan lists comes from what the world says, in the order in which it
/// is said.
pub proof fn law_plan_lists(
    names: Seq<Seq<char>>,
    stdout: Seq<char>,
    stderr: Seq<char>,
    survey: SurveyView,
)
    ensures
        ({
            let plan = ops::plan_of(names, true, stdout, stderr, survey);
            &&& plan.cascade == ops::single_words(pacman::names_in(text::lines_of(stdout)))
            &&& plan.orphans == ops::orphans_among(
                ops::needed_by(survey.infos),
                pacman::names_in(text::lines_of(survey.orphans)),
                plan.cascade,
            )
            &&& plan.system_leftovers == ops::leftovers_of(ops::owned_in(survey.listings))
            &&& plan.cache_files == ops::archives_of(plan.cascade, survey.cache)
        }),
{
}

/// When pacman refuses, the plan says why, in the lines of its errors and then
/// those of its output, and lists nothing but the targets.
pub proof fn law_refused_plans(
    names: Seq<Seq<char>>,
    stdout: Seq<char>,
    stderr: Seq<char>,
    survey: SurveyView,
)
    ensures
        ({
            let plan = ops::plan_of(names, false, stdout, stderr, survey);
            &&& plan.packages == names
            &&& plan.error == Some(
                text::joined(
                    ops::deduped(
                        pacman::names_in(text::lines_of(stderr)) + pacman::names_in(
                            text::lines_of(stdout),
                        ),
                    ),
                    "\n"@,
                ),
            )
            &&& plan.cascade.len() == 0
            &&& plan.owned_files == 0
            &&& plan.orphans.len() == 0
            &&& plan.home_paths.len() == 0
            &&& plan.system_leftovers.len() == 0
            &&& plan.cache_files.len() == 0
        }),
{
}

/// A line that repeats the one before it is left out; any other stays.
pub proof fn law_repeated_lines(list: Seq<Seq<char>>, a: Seq<char>, b: Seq<char>)
    ensures
        ops::deduped(seq![]) == Seq::<Seq<char>>::empty(),
        ops::deduped(seq![a]) == seq![a],
        ops::deduped(list.push(a).push(a)) == ops::deduped(list.push(a)),
        a != b ==> ops::deduped(list.push(a).push(b)) == ops::deduped(list.push(a)).push(b),
{
    assert(list.push(a).push(a).drop_last() =~= list.push(a));
    assert(list.push(a).push(b).drop_last() =~= list.push(a));
}

/// The dry run prints what a removal with all unneeded dependencies would
/// take, and changes nothing.
pub proof fn law_dry_run(names: Seq<Seq<char>>)
    ensures
        ops::dry_run_args(names) == seq![
            "pacman"@,
            "-Rs"@,
            "--print"@,
            "--print-format"@,
            "%n"@,
        ] + names,
{
}

// ---------------------------------------------------------------------------
// Carrying a plan out
// ---------------------------------------------------------------------------

/// Whether a command begins with some words and names another behind them.
pub open spec fn acts_on(command: Seq<Seq<char>>, words: Seq<Seq<char>>, item: Seq<char>) -> bool {
    &&& words.is_prefix_of(command)
    &&& command.skip(words.len() as int).contains(item)
}

/// Whether one of the commands of a plan begins with some words and names
/// another behind them.
pub open spec fn is_acted_on(plan: MegaPlanView, words: Seq<Seq<char>>, item: Seq<char>) -> bool {
    exists|i: int|
        0 <= i < ops::mega_commands(plan).len() && acts_on(
            #[trigger] ops::mega_commands(plan)[i],
            words,
            item,
        )
}

/// Everything that a plan lists is removed by a command of its kind: packages
/// and orphans with what only they need, leftovers as files.
pub proof fn law_everything_listed_is_removed(plan: MegaPlanView, item: Seq<char>)
    ensures
        plan.packages.contains(item) ==> is_acted_on(
            plan,
            seq!["yay"@, "-Rns"@, "--noconfirm"@],
            item,
        ),
        plan.orphans.contains(item) ==> is_acted_on(
            plan,
            seq!["sudo"@, "pacman"@, "-Rns"@, "--noconfirm"@],
            item,
        ),
        plan.home_paths.contains(item) ==> is_acted_on(
            plan,
            seq!["rm"@, "-rf"@, "--"@],
            item,
        ),
        plan.system_leftovers.contains(item) ==> is_acted_on(
            plan,
            seq!["sudo"@, "rm"@, "-f"@, "--"@],
            item,
        ) && is_acted_on(
            plan,
            seq!["sudo"@, "rm"@, "-f"@, "--"@],
            ops::pacnew_of(item),
        ),
        plan.cache_files.contains(item) ==> is_acted_on(
            plan,
            seq!["sudo"@, "rm"@, "-f"@, "--"@],
            item,
        ),
{
    let w1 = seq!["yay"@, "-Rns"@, "--noconfirm"@];
    let w2 = seq!["sudo"@, "pacman"@, "-Rns"@, "--noconfirm"@];
    let w3 = seq!["rm"@, "-rf"@, "--"@];
    let w4 = seq!["sudo"@, "rm"@, "-f"@, "--"@];
    let rems = ops::remnants(plan.system_leftovers);
    let a = seq![w1 + plan.packages];
    let b = ops::unless_empty(w2, plan.orphans);
    let c = ops::home_removals(plan.home_paths);
    let d = ops::unless_empty(w4, rems);
    let e = ops::unless_empty(w4, plan.cache_files);
    let all = ops::mega_commands(plan);
    assert(all == a + b + c + d + e);
    if plan.packages.contains(item) {
        assert(all[0] == w1 + plan.packages);
        lemma_acts_on(w1, plan.packages, item);
    }
    if plan.orphans.contains(item) {
        assert(all[1] == b[0]);
        lemma_acts_on(w2, plan.orphans, item);
        assert(b[0] == w2 + plan.orphans);
    }
    if plan.home_paths.contains(item) {
        let k = choose|k: int| 0 <= k < plan.home_paths.len() && plan.home_paths[k] == item;
        assert(all[a.len() + b.len() + k] == c[k]);
        assert(seq![item].contains(item)) by {
            assert(seq![item][0] == item);
        }
        lemma_acts_on(w3, seq![item], item);
        assert(c[k] =~= w3 + seq![item]);
    }
    if plan.system_leftovers.contains(item) {
        let k = choose|k: int|
            0 <= k < plan.system_leftovers.len() && plan.system_leftovers[k] == item;
        ops::lemma_remnants(plan.system_leftovers, k);
        assert(all[a.len() + b.len() + c.len() as int] == d[0]);
        assert(d[0] == w4 + rems);
        lemma_acts_on(w4, rems, item);
        lemma_acts_on(w4, rems, ops::pacnew_of(item));
    }
    if plan.cache_files.contains(item) {
        assert(all[a.len() + b.len() + c.len() + d.len() as int] == e[0]);
        assert(e[0] == w4 + plan.cache_files);
        lemma_acts_on(w4, plan.cache_files, item);
    }
}

proof fn lemma_acts_on(words: Seq<Seq<char>>, list: Seq<Seq<char>>, item: Seq<char>)
    requires
        list.contains(item),
    ensures
        acts_on(words + list, words, item),
{
    let all = words + list;
    assert(all.subrange(0, words.len() as int) =~= words);
    assert(all.skip(words.len() as int) =~= list);
}

/// A mega removal runs no command without something to remove, and begins
/// with the packages.
pub proof fn law_mega_commands(plan: MegaPlanView)
    ensures
        ops::mega_commands(plan).len() == 1 + (if plan.orphans.len() > 0 {
            1int
        } else {
            0
        }) + plan.home_paths.len() + (if plan.system_leftovers.len() > 0 {
            1int
        } else {
            0
        }) + (if plan.cache_files.len() > 0 {
            1int
        } else {
            0
        }),
        ops::mega_commands(plan)[0] == seq!["yay"@, "-Rns"@, "--noconfirm"@] + plan.packages,
        plan.orphans.len() > 0 ==> ops::mega_commands(plan)[1] == seq![
            "sudo"@,
            "pacman"@,
            "-Rns"@,
            "--noconfirm"@,
        ] + plan.orphans,
        plan.cache_files.len() > 0 ==> ops::mega_commands(plan).last() == seq![
            "sudo"@,
            "rm"@,
            "-f"@,
            "--"@,
        ] + plan.cache_files,
        ({
            let from = if plan.orphans.len() > 0 {
                2
            } else {
                1int
            };
            &&& forall|i: int|
                0 <= i < plan.home_paths.len() ==> ops::mega_commands(plan)[from + i] == seq![
                    "rm"@,
                    "-rf"@,
                    "--"@,
                    #[trigger] plan.home_paths[i],
                ]
            &&& plan.system_leftovers.len() > 0 ==> ops::mega_commands(plan)[from
                + plan.home_paths.len()] == seq!["sudo"@, "rm"@, "-f"@, "--"@] + ops::remnants(
                plan.system_leftovers,
            )
        }),
{
    if plan.system_leftovers.len() > 0 {
        ops::lemma_remnants(plan.system_leftovers, 0);
    }
    let b = ops::unless_empty(
        seq!["sudo"@, "pacman"@, "-Rns"@, "--noconfirm"@],
        plan.orphans,
    );
    if plan.orphans.len() > 0 {
        assert(ops::mega_commands(plan)[1] == b[0]);
    }
    let e = ops::unless_empty(seq!["sudo"@, "rm"@, "-f"@, "--"@], plan.cache_files);
    if plan.cache_files.len() > 0 {
        assert(ops::mega_commands(plan).last() == e[0]);
    }
    let c = ops::home_removals(plan.home_paths);
    let from = 1 + b.len() as int;
    assert forall|i: int| 0 <= i < plan.home_paths.len() implies ops::mega_commands(plan)[from + i]
        == seq!["rm"@, "-rf"@, "--"@, #[trigger] plan.home_paths[i]] by {
        assert(ops::mega_commands(plan)[from + i] == c[i]);
    }
    let d = ops::unless_empty(
        seq!["sudo"@, "rm"@, "-f"@, "--"@],
        ops::remnants(plan.system_leftovers),
    );
    if plan.system_leftovers.len() > 0 {
        assert(ops::mega_commands(plan)[from + c.len()] == d[0]);
    }
}

/// Remnants are the candidates, each followed by the .pacnew next to it.
pub proof fn law_remnants(leftovers: Seq<Seq<char>>, last: Seq<char>)
    ensures
        ops::remnants(seq![]).len() == 0,
        ops::remnants(leftovers.push(last)) == ops::remnants(leftovers) + seq![
            last,
            ops::pacnew_of(last),
        ],
{
    assert(leftovers.push(last).drop_last() =~= leftovers);
    assert(ops::remnants(leftovers.push(last)) =~= ops::remnants(leftovers) + seq![
        last,
        ops::pacnew_of(last),
    ]);
}

/// Next to the .pacsave of a file stands its .pacnew.
pub proof fn law_pacnew(path: Seq<char>)
    requires
        path.len() > 0,
        path[0] == '/',
        path.last() != '/',
        path.len() >= 2 ==> !(path[path.len() - 2] == '/' && path.last() == '.'),
    ensures
        ops::pacnew_of(path + ".pacsave"@) == path + ".pacnew"@,
{
    let full = path + ".pacsave"@;
    assert(full.take(full.len() - ".pacsave"@.len()) =~= path);
    assert(full.subrange(full.len() - ".pacsave"@.len(), full.len() as int) =~= ".pacsave"@);
}

/// A title names the operation and the packages.
pub proof fn law_titles(what: Seq<char>, names: Seq<Seq<char>>)
    ensures
        ops::titled(what, names) == what + text::joined(names, ", "@),
{
}

/// What goes besides the packages is counted in full.
pub proof fn law_extra(plan: MegaPlanView)
    ensures
        plan.extra() == plan.orphans.len() + plan.home_paths.len() + plan.system_leftovers.len()
            + plan.cache_files.len(),
{
}

/// A command that failed, or did not run, is complained about; one that
/// succeeded is not.
pub proof fn law_complaints(ended: Ended)
    ensures
        ended is Success <==> ops::complaint(ended) is None,
        ended matches Ended::Failure(status) ==> ops::complaint(ended) == Some(
            "\x1b[1;31m  exited with "@ + status@ + "\x1b[0m"@,
        ),
        ended matches Ended::Error(why) ==> ops::complaint(ended) == Some(
            "\x1b[1;31m  could not run: "@ + why@ + "\x1b[0m"@,
        ),
{
}

/// Commands failed together when one of them did.
pub proof fn law_some_failed(ends: Seq<Ended>, ended: Ended)
    ensures
        !ops::some_failed(seq![]),
        ops::some_failed(ends.push(ended)) <==> ops::some_failed(ends) || !(ended is Success),
{
    let all = ends.push(ended);
    if ops::some_failed(ends) {
        let i = choose|i: int| 0 <= i < ends.len() && !((#[trigger] ends[i]) is Success);
        assert(all[i] == ends[i]);
    }
    if !(ended is Success) {
        assert(all[ends.len() as int] == ended);
    }
    if ops::some_failed(all) && ended is Success {
        let i = choose|i: int| 0 <= i < all.len() && !((#[trigger] all[i]) is Success);
        assert(ends[i] == all[i]);
    }
}

// ---------------------------------------------------------------------------
// The preview
// ---------------------------------------------------------------------------

/// The preview prints, behind a heading that counts them, every package, every
/// orphan, every leftover in $HOME, the first ten config leftovers and every
/// cached archive, each indented on a line of its own.
pub proof fn law_preview(plan: MegaPlanView)
    ensures
        ({
            let shown = ops::preview_of(plan);
            let a = 1 + plan.cascade.len() as int;
            let b = a + 1 + plan.orphans.len();
            let c = b + 1 + plan.home_paths.len();
            let ten = if plan.system_leftovers.len() > 10 {
                10
            } else {
                plan.system_leftovers.len() as int
            };
            let d = c + 1 + ten;
            &&& shown.len() == d + 1 + plan.cache_files.len()
            &&& shown[0] == "packages ("@ + text::decimal_of(plan.cascade.len()) + ") — "@
                + text::decimal_of(plan.owned_files) + " files:"@
            &&& shown[a] == "\norphaned deps of these ("@ + text::decimal_of(plan.orphans.len())
                + "):"@
            &&& shown[b] == "\nhome leftovers ("@ + text::decimal_of(plan.home_paths.len()) + "):"@
            &&& shown[c] == "\nconfig leftover candidates ("@ + text::decimal_of(
                plan.system_leftovers.len(),
            ) + "):"@
            &&& shown[d] == "\ncached archives ("@ + text::decimal_of(plan.cache_files.len())
                + "):"@
            &&& forall|i: int|
                0 <= i < plan.cascade.len() ==> shown[1 + i] == "  "@ + #[trigger] plan.cascade[i]
            &&& forall|i: int|
                0 <= i < plan.orphans.len() ==> shown[a + 1 + i] == "  "@
                    + #[trigger] plan.orphans[i]
            &&& forall|i: int|
                0 <= i < plan.home_paths.len() ==> shown[b + 1 + i] == "  "@
                    + #[trigger] plan.home_paths[i]
            &&& forall|i: int|
                0 <= i < ten ==> shown[c + 1 + i] == "  "@ + #[trigger] plan.system_leftovers[i]
            &&& forall|i: int|
                0 <= i < plan.cache_files.len() ==> shown[d + 1 + i] == "  "@
                    + #[trigger] plan.cache_files[i]
        }),
{
    let shown = ops::preview_of(plan);
    let front = text::counted("packages ("@, plan.cascade.len(), ") — "@);
    assert(shown[0] =~= "packages ("@ + text::decimal_of(plan.cascade.len()) + ") — "@
        + text::decimal_of(plan.owned_files) + " files:"@);
}

} // verus!
