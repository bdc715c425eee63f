//! What reading the output of pacman and yay promises.

use vstd::prelude::*;

use crate::json;
use crate::laws::text as text_laws;
use crate::order;
use crate::pacman;
use crate::pacman::PkgView;
use crate::text;
use crate::text::Class;

verus! {

// ---------------------------------------------------------------------------
// Names and versions
// ---------------------------------------------------------------------------

/// Whether a character begins a version constraint or a description.
pub open spec fn is_relation(c: char) -> bool {
    c == '>' || c == '<' || c == '=' || c == ':'
}

/// Whether a text holds no character that begins a version constraint.
pub open spec fn is_bare(s: Seq<char>) -> bool {
    forall|i: int| 0 <= i < s.len() ==> !is_relation(#[trigger] s[i])
}

/// The bare name in a dependency is what stands before its constraint,
/// without white space around it.
pub proof fn law_dep_name(front: Seq<char>, name: Seq<char>, back: Seq<char>, rest: Seq<char>)
    requires
        text_laws::is_blank(front),
        text_laws::is_blank(back),
        text_laws::is_trim(name),
        is_bare(name),
        rest.len() > 0 ==> is_relation(rest[0]),
    ensures
        pacman::dep_name_of(front + name + back + rest) == name,
{
    let s = front + name + back + rest;
    let head = front + name + back;
    assert forall|k: int| 0 <= k < head.len() implies !Class::Relation.has(#[trigger] s[k]) by {
        if k < front.len() {
            assert(s[k] == front[k]);
        } else if k < front.len() + name.len() {
            assert(s[k] == name[k - front.len()]);
        } else {
            assert(s[k] == back[k - front.len() - name.len()]);
        }
    }
    if rest.len() > 0 {
        assert(s[head.len() as int] == rest[0]);
    }
    text::lemma_first_of_is(s, Class::Relation, head.len() as int);
    assert(s.take(head.len() as int) =~= head);
    text_laws::law_trimming(front, name, back);
}

/// A version without a dash has no release to lose.
pub proof fn law_base_version_without_release(version: Seq<char>)
    requires
        !version.contains('-'),
    ensures
        pacman::base_version_of(version) == version,
{
    assert forall|k: int| 0 <= k < version.len() implies !Class::Is('-').has(
        #[trigger] version[k],
    ) by {
        assert(version.contains(version[k]));
    }
    text::lemma_after_last_of_is(version, Class::Is('-'), 0);
}

// ---------------------------------------------------------------------------
// Records
// ---------------------------------------------------------------------------

/// A line that begins with white space continues the field above it, whatever
/// it holds: no field is added, and the value grows by a space and the line.
pub proof fn law_indented_lines_continue(lines: Seq<Seq<char>>, line: Seq<char>)
    requires
        line.len() > 0,
        text::white_space(line[0]),
        pacman::fields_of(lines).len() > 0,
        pacman::fields_of(lines).last().0.len() > 0,
    ensures
        ({
            let was = pacman::fields_of(lines);
            let now = pacman::fields_of(lines.push(line));
            &&& now.len() == was.len()
            &&& forall|i: int| 0 <= i < was.len() - 1 ==> #[trigger] now[i] == was[i]
            &&& now.last().0 == was.last().0
            &&& now.last().1 == was.last().1 + seq![' '] + text::trimmed(line)
        }),
{
    assert(lines.push(line).drop_last() =~= lines);
    let was = pacman::fields_of(lines);
    assert(was.last().1.push(' ') + text::trimmed(line) =~= was.last().1 + seq![' ']
        + text::trimmed(line));
}

/// A line that does not begin with white space begins a field when it holds a
/// colon: the name stands before the first one, the value behind it. Any other
/// such line says nothing.
pub proof fn law_field_lines(lines: Seq<Seq<char>>, field: Seq<char>, value: Seq<char>)
    requires
        !field.contains(':'),
        field.len() > 0 ==> !text::white_space(field[0]),
    ensures
        pacman::fields_of(seq![]).len() == 0,
        pacman::fields_of(lines.push(field + seq![':'] + value)) == pacman::fields_of(lines).push(
            (text::trimmed(field), value),
        ),
        pacman::fields_of(lines.push(field)) == pacman::fields_of(lines),
{
    let line = field + seq![':'] + value;
    assert(lines.push(line).drop_last() =~= lines);
    assert(lines.push(field).drop_last() =~= lines);
    if field.len() > 0 {
        assert(line[0] == field[0]);
    } else {
        assert(line[0] == ':');
    }
    text_laws::law_cutting(field, ':', value);
}

/// Before the first field that has a name, an indented line is a line like any
/// other.
pub proof fn law_indented_lines_before_a_field(
    lines: Seq<Seq<char>>,
    field: Seq<char>,
    value: Seq<char>,
)
    requires
        !field.contains(':'),
        pacman::fields_of(lines).len() == 0 || pacman::fields_of(lines).last().0.len() == 0,
    ensures
        pacman::fields_of(lines.push(field + seq![':'] + value)) == pacman::fields_of(lines).push(
            (text::trimmed(field), value),
        ),
        pacman::fields_of(lines.push(field)) == pacman::fields_of(lines),
{
    assert(lines.push(field + seq![':'] + value).drop_last() =~= lines);
    assert(lines.push(field).drop_last() =~= lines);
    text_laws::law_cutting(field, ':', value);
}

/// The last field of a name gives its value, without white space around it; a
/// field that is not there is empty.
pub proof fn law_last_field_counts(
    fields: Seq<(Seq<char>, Seq<char>)>,
    name: Seq<char>,
    value: Seq<char>,
    other: Seq<char>,
)
    ensures
        pacman::value_of(seq![], name) == Seq::<char>::empty(),
        pacman::value_of(fields.push((name, value)), name) == text::trimmed(value),
        other != name ==> pacman::value_of(fields.push((other, value)), name) == pacman::value_of(
            fields,
            name,
        ),
{
    assert(fields.push((name, value)).drop_last() =~= fields);
    assert(fields.push((other, value)).drop_last() =~= fields);
}

/// A list field is split at white space; "None" is the empty list.
pub proof fn law_list_fields(value: Seq<char>)
    ensures
        text::trimmed(value).len() == 0 || text::trimmed(value) == "None"@ ==> pacman::items_of(
            value,
        ) == Seq::<Seq<char>>::empty(),
        text::trimmed(value).len() > 0 && text::trimmed(value) != "None"@ ==> pacman::items_of(
            value,
        ) == pacman::bare_words(text::words_of(text::trimmed(value))),
{
}

/// A word of a list loses the colons at its end, and is dropped when nothing
/// else is left of it. The others keep their order.
pub proof fn law_list_words(words: Seq<Seq<char>>, word: Seq<char>, colons: Seq<char>)
    requires
        word.len() > 0 ==> word.last() != ':',
        forall|i: int| 0 <= i < colons.len() ==> #[trigger] colons[i] == ':',
    ensures
        pacman::bare_words(seq![]) == Seq::<Seq<char>>::empty(),
        word.len() > 0 ==> pacman::bare_words(words.push(word + colons)) == pacman::bare_words(
            words,
        ).push(word),
        word.len() == 0 ==> pacman::bare_words(words.push(word + colons)) == pacman::bare_words(
            words,
        ),
{
    let w = word + colons;
    assert(words.push(w).drop_last() =~= words);
    assert forall|k: int| word.len() <= k < w.len() implies !Class::Not(':').has(#[trigger] w[k]) by {
        assert(w[k] == colons[k - word.len()]);
    }
    if word.len() > 0 {
        assert(w[word.len() - 1] == word.last());
    }
    text::lemma_after_last_of_is(w, Class::Not(':'), word.len() as int);
    assert(w.take(word.len() as int) =~= word);
}

/// What a record says of its package, field by field. A record without a name
/// says nothing.
pub proof fn law_records_are_read(record: Seq<char>, foreign: Set<Seq<char>>)
    requires
        !text::includes(record, seq!['\n', '\n']),
        text::trimmed(record).len() > 0,
    ensures
        ({
            let fields = pacman::fields_of(text::lines_of(record));
            let pkgs = pacman::listing_of(record, foreign);
            let name = pacman::value_of(fields, "Name"@);
            &&& name.len() == 0 ==> pkgs.len() == 0
            &&& name.len() > 0 ==> {
                &&& pkgs.len() == 1
                &&& pkgs[0].name == name
                &&& pkgs[0].version == pacman::value_of(fields, "Version"@)
                &&& pkgs[0].description == pacman::value_of(fields, "Description"@)
                &&& pkgs[0].url == pacman::value_of(fields, "URL"@)
                &&& pkgs[0].size == pacman::value_of(fields, "Installed Size"@)
                &&& pkgs[0].install_reason == pacman::value_of(fields, "Install Reason"@)
                &&& pkgs[0].depends == pacman::items_of(pacman::value_of(fields, "Depends On"@))
                &&& pkgs[0].optdepends == pacman::items_of(
                    pacman::value_of(fields, "Optional Deps"@),
                )
                &&& pkgs[0].required_by == pacman::items_of(
                    pacman::value_of(fields, "Required By"@),
                )
                &&& pkgs[0].provides == pacman::items_of(pacman::value_of(fields, "Provides"@))
                &&& pkgs[0].installed
                &&& pkgs[0].repo == (if foreign.contains(name) {
                    "aur"@
                } else {
                    "repo"@
                })
                &&& pkgs[0].votes is None
            }
        }),
{
    lemma_one_record(record, foreign);
}

proof fn lemma_one_record(record: Seq<char>, foreign: Set<Seq<char>>)
    requires
        !text::includes(record, seq!['\n', '\n']),
    ensures
        text::parts_of(record, seq!['\n', '\n']) == seq![record],
        pacman::listing_of(record, foreign) == pacman::pkgs_of(seq![record], foreign),
        pacman::pkgs_of(seq![record].drop_last(), foreign) == Seq::<PkgView>::empty(),
{
    text::lemma_first_place(record, seq!['\n', '\n']);
    assert(seq![record].drop_last() =~= seq![]);
}

/// White space alone is no record.
pub proof fn law_blank_records_say_nothing(record: Seq<char>, foreign: Set<Seq<char>>)
    requires
        !text::includes(record, seq!['\n', '\n']),
        text::trimmed(record).len() == 0,
    ensures
        pacman::listing_of(record, foreign).len() == 0,
{
    lemma_one_record(record, foreign);
}

proof fn lemma_pkgs_of_both(a: Seq<Seq<char>>, b: Seq<Seq<char>>, foreign: Set<Seq<char>>)
    ensures
        pacman::pkgs_of(a + b, foreign) == pacman::pkgs_of(a, foreign) + pacman::pkgs_of(
            b,
            foreign,
        ),
    decreases b.len(),
{
    if b.len() == 0 {
        assert(a + b =~= a);
    } else {
        lemma_pkgs_of_both(a, b.drop_last(), foreign);
        assert((a + b).drop_last() =~= a + b.drop_last());
        assert(pacman::pkgs_of(a + b, foreign) =~= pacman::pkgs_of(a, foreign) + pacman::pkgs_of(
            b,
            foreign,
        ));
    }
}

/// Records stand one after the other with an empty line between them, and
/// each is read on its own.
pub proof fn law_records_are_separate(a: Seq<char>, b: Seq<char>, foreign: Set<Seq<char>>)
    requires
        !text::includes(a + seq!['\n'], seq!['\n', '\n']),
    ensures
        pacman::listing_of(a + seq!['\n', '\n'] + b, foreign) == pacman::listing_of(a, foreign)
            + pacman::listing_of(b, foreign),
{
    let sep = seq!['\n', '\n'];
    assert(sep.drop_last() =~= seq!['\n']);
    text_laws::law_splitting(a, sep, b);
    lemma_pkgs_of_both(seq![a], text::parts_of(b, sep), foreign);
}

/// The dependencies of a package are those of the first record that it is
/// described by.
pub proof fn law_dependencies_are_read(record: Seq<char>, rest: Seq<char>)
    requires
        !text::includes(record + seq!['\n'], seq!['\n', '\n']),
        text::trimmed(record).len() > 0,
        pacman::value_of(pacman::fields_of(text::lines_of(record)), "Name"@).len() > 0,
    ensures
        pacman::deps_in(record) == pacman::items_of(
            pacman::value_of(pacman::fields_of(text::lines_of(record)), "Depends On"@),
        ),
        pacman::deps_in(record + seq!['\n', '\n'] + rest) == pacman::deps_in(record),
{
    let sep = seq!['\n', '\n'];
    assert(!text::includes(record, sep)) by {
        if text::includes(record, sep) {
            text_laws::law_included(record, sep);
            let (x, y) = choose|x: Seq<char>, y: Seq<char>| #[trigger] (x + sep + y) == record;
            text_laws::law_including(x, sep, y + seq!['\n']);
            assert(x + sep + (y + seq!['\n']) =~= record + seq!['\n']);
        }
    }
    law_records_are_read(record, Set::empty());
    law_records_are_separate(record, rest, Set::empty());
}

// ---------------------------------------------------------------------------
// Plain lists
// ---------------------------------------------------------------------------

/// A list of names has one to the line, without white space around it; blank
/// lines name nothing.
pub proof fn law_name_lines(lines: Seq<Seq<char>>, line: Seq<char>)
    ensures
        pacman::names_in(seq![]) == Seq::<Seq<char>>::empty(),
        text::trimmed(line).len() > 0 ==> pacman::names_in(lines.push(line)) == pacman::names_in(
            lines,
        ).push(text::trimmed(line)),
        text::trimmed(line).len() == 0 ==> pacman::names_in(lines.push(line)) == pacman::names_in(
            lines,
        ),
{
    assert(lines.push(line).drop_last() =~= lines);
}

/// A name is listed when a line holds it and white space alone.
pub proof fn law_listed_names(lines: Seq<Seq<char>>, name: Seq<char>)
    ensures
        pacman::names_in(lines).contains(name) <==> name.len() > 0 && exists|i: int|
            0 <= i < lines.len() && text::trimmed(#[trigger] lines[i]) == name,
    decreases lines.len(),
{
    if lines.len() > 0 {
        let head = lines.drop_last();
        law_listed_names(head, name);
        let rest = pacman::names_in(head);
        let all = pacman::names_in(lines);
        if all.contains(name) {
            let k = choose|k: int| 0 <= k < all.len() && all[k] == name;
            if k < rest.len() {
                assert(rest[k] == name);
                assert(rest.contains(name));
                let i = choose|i: int|
                    0 <= i < head.len() && text::trimmed(#[trigger] head[i]) == name;
                assert(lines[i] == head[i]);
            } else {
                assert(text::trimmed(lines[lines.len() - 1]) == name);
            }
        }
        if name.len() > 0 && exists|i: int|
            0 <= i < lines.len() && text::trimmed(#[trigger] lines[i]) == name {
            let i = choose|i: int|
                0 <= i < lines.len() && text::trimmed(#[trigger] lines[i]) == name;
            if i < head.len() {
                assert(head[i] == lines[i]);
                assert(rest.contains(name));
                let k = choose|k: int| 0 <= k < rest.len() && rest[k] == name;
                assert(all[k] == name);
            } else {
                assert(all[all.len() - 1] == name);
            }
        }
    }
}

/// A file list has a package, a space and a path to the line; the path keeps
/// its spaces. Other lines name no file.
pub proof fn law_file_lines(lines: Seq<Seq<char>>, pkg: Seq<char>, path: Seq<char>)
    requires
        !pkg.contains(' '),
    ensures
        pacman::paths_in(seq![]) == Seq::<Seq<char>>::empty(),
        pacman::paths_in(lines.push(pkg + seq![' '] + path)) == pacman::paths_in(lines).push(path),
        pacman::paths_in(lines.push(pkg)) == pacman::paths_in(lines),
{
    assert(lines.push(pkg + seq![' '] + path).drop_last() =~= lines);
    assert(lines.push(pkg).drop_last() =~= lines);
    text_laws::law_cutting(pkg, ' ', path);
}

/// The installed packages come by name in ascending order, those of the same
/// name in the order of the listing.
pub proof fn law_installed_by_name(foreign: Seq<char>, listing: Seq<char>, i: int, j: int)
    requires
        0 <= i < j < pacman::installed_of(foreign, listing).len(),
    ensures
        pacman::installed_of(foreign, listing)[i].name == pacman::installed_of(
            foreign,
            listing,
        )[j].name || order::before(
            pacman::installed_of(foreign, listing)[i].name,
            pacman::installed_of(foreign, listing)[j].name,
        ),
{
    let listed = pacman::listing_of(
        listing,
        pacman::names_in(text::lines_of(foreign)).to_set(),
    );
    let keys = pacman::name_keys(listed);
    order::law_order_is_stable(keys);
    let places = order::order_of(keys);
    let a = keys[places[i]];
    let b = keys[places[j]];
    assert(a.less(b) || a == b);
}

// ---------------------------------------------------------------------------
// Search results
// ---------------------------------------------------------------------------

/// A line that does not begin with white space names a result: the repo, a
/// slash and the name, then the version, then the rest, which may hold votes.
pub proof fn law_result_lines(
    lines: Seq<Seq<char>>,
    names: Set<Seq<char>>,
    repo: Seq<char>,
    name: Seq<char>,
    version: Seq<char>,
    tail: Seq<char>,
)
    requires
        !repo.contains('/'),
        repo.len() > 0 ==> text_laws::is_word(repo),
        name.len() > 0 ==> text_laws::is_word(name),
        text_laws::is_word(version),
        tail.len() > 0 ==> text::white_space(tail[0]),
    ensures
        ({
            let line = repo + seq!['/'] + name + seq![' '] + version + tail;
            let was = pacman::results_in(lines, names);
            let now = pacman::results_in(lines.push(line), names);
            &&& now.len() == was.len() + 1
            &&& forall|i: int| 0 <= i < was.len() ==> #[trigger] now[i] == was[i]
            &&& now.last().name == name
            &&& now.last().version == version
            &&& now.last().repo == repo
            &&& now.last().installed == names.contains(name)
            &&& now.last().votes == pacman::votes_in(text::words_of(tail))
            &&& now.last().description.len() == 0
            &&& now.last().url.len() == 0
            &&& now.last().size.len() == 0
            &&& now.last().install_reason.len() == 0
            &&& now.last().depends.len() == 0
            &&& now.last().optdepends.len() == 0
            &&& now.last().required_by.len() == 0
            &&& now.last().provides.len() == 0
        }),
{
    let first = repo + seq!['/'] + name;
    let line = first + seq![' '] + version + tail;
    assert(lines.push(line).drop_last() =~= lines);
    lemma_qualified(repo, name);
    let behind = seq![' '] + version + tail;
    text_laws::law_words(seq![], first, behind);
    assert(Seq::<char>::empty() + first + behind =~= line);
    text_laws::law_words(seq![' '], version, tail);
    let words = text::words_of(line);
    assert(words == seq![first] + (seq![version] + text::words_of(tail)));
    assert(words[0] == first);
    assert(words[1] == version);
    assert(line[0] == first[0]);
    text_laws::law_cutting(repo, '/', name);
    let rest = text::words_of(tail);
    if words.len() > 2 {
        assert(words.skip(2) =~= rest);
    } else {
        assert(rest =~= seq![]);
    }
}

proof fn lemma_qualified(repo: Seq<char>, name: Seq<char>)
    requires
        repo.len() > 0 ==> text_laws::is_word(repo),
        name.len() > 0 ==> text_laws::is_word(name),
    ensures
        text_laws::is_word(repo + seq!['/'] + name),
{
    let s = repo + seq!['/'] + name;
    assert forall|i: int| 0 <= i < s.len() implies !text::white_space(#[trigger] s[i]) by {
        if i < repo.len() {
            assert(s[i] == repo[i]);
        } else if i == repo.len() {
            assert(s[i] == '/');
        } else {
            assert(s[i] == name[i - repo.len() - 1]);
        }
    }
}

/// A result may come without a version. A line whose first word has no slash,
/// or that is empty, names none.
pub proof fn law_short_result_lines(
    lines: Seq<Seq<char>>,
    names: Set<Seq<char>>,
    repo: Seq<char>,
    name: Seq<char>,
    tail: Seq<char>,
)
    requires
        !repo.contains('/'),
        repo.len() > 0 ==> text_laws::is_word(repo),
        name.len() > 0 ==> text_laws::is_word(name),
        tail.len() > 0 ==> text::white_space(tail[0]),
    ensures
        ({
            let was = pacman::results_in(lines, names);
            let now = pacman::results_in(lines.push(repo + seq!['/'] + name), names);
            &&& now.len() == was.len() + 1
            &&& forall|i: int| 0 <= i < was.len() ==> #[trigger] now[i] == was[i]
            &&& now.last().name == name
            &&& now.last().version.len() == 0
            &&& now.last().repo == repo
            &&& now.last().installed == names.contains(name)
            &&& now.last().votes is None
            &&& now.last().description.len() == 0
        }),
        repo.len() > 0 ==> pacman::results_in(lines.push(repo + tail), names) == pacman::results_in(
            lines,
            names,
        ),
        pacman::results_in(lines.push(seq![]), names) == pacman::results_in(lines, names),
        pacman::results_in(seq![], names).len() == 0,
{
    let first = repo + seq!['/'] + name;
    assert(lines.push(first).drop_last() =~= lines);
    lemma_qualified(repo, name);
    text_laws::law_words(seq![], first, seq![]);
    assert(Seq::<char>::empty() + first + Seq::<char>::empty() =~= first);
    assert(text::words_of(first) =~= seq![first]);
    text_laws::law_cutting(repo, '/', name);
    assert(!text::white_space(first[0]));
    if repo.len() > 0 {
        let line = repo + tail;
        assert(lines.push(line).drop_last() =~= lines);
        text_laws::law_words(seq![], repo, tail);
        assert(Seq::<char>::empty() + repo + tail =~= line);
        assert(line[0] == repo[0]);
    }
    assert(lines.push(seq![]).drop_last() =~= lines);
}

/// A line that begins with white space describes the result above it, unless
/// that is described already; it adds no result and changes nothing else.
pub proof fn law_description_lines(
    lines: Seq<Seq<char>>,
    names: Set<Seq<char>>,
    line: Seq<char>,
)
    requires
        line.len() > 0,
        text::white_space(line[0]),
    ensures
        ({
            let was = pacman::results_in(lines, names);
            let now = pacman::results_in(lines.push(line), names);
            &&& now.len() == was.len()
            &&& forall|i: int| 0 <= i < was.len() - 1 ==> #[trigger] now[i] == was[i]
            &&& was.len() > 0 && was.last().description.len() == 0 ==> now.last() == (PkgView {
                description: text::trimmed(line),
                ..was.last()
            })
            &&& was.len() > 0 && was.last().description.len() > 0 ==> now.last() == was.last()
        }),
{
    assert(lines.push(line).drop_last() =~= lines);
}

/// Votes stand behind a bracket and a plus sign, in the first word that
/// begins so; without one there are none.
pub proof fn law_votes(front: Seq<Seq<char>>, votes: Seq<char>, back: Seq<Seq<char>>)
    requires
        forall|i: int| 0 <= i < front.len() ==> !"(+"@.is_prefix_of(#[trigger] front[i]),
        !"(+"@.is_prefix_of(votes),
    ensures
        pacman::votes_in(front + seq!["(+"@ + votes] + back) == Some(votes),
        pacman::votes_in(front) is None,
    decreases front.len(),
{
    reveal_strlit("(+");
    let word = "(+"@ + votes;
    let all = front + seq![word] + back;
    if front.len() == 0 {
        assert(all[0] == word);
        text_laws::law_without_leading("(+"@, votes);
        assert("(+"@.is_prefix_of(word)) by {
            assert(word.subrange(0, 2) =~= "(+"@);
        }
    } else {
        let rest = front.drop_first();
        assert forall|i: int| 0 <= i < rest.len() implies !"(+"@.is_prefix_of(
            #[trigger] rest[i],
        ) by {
            assert(rest[i] == front[i + 1]);
        }
        law_votes(rest, votes, back);
        assert(all[0] == front[0]);
        assert(all.drop_first() =~= rest + seq![word] + back);
    }
}

/// Where the query stands in a name decides first: the same name comes before
/// all others, names that begin with the query before those that do not, and
/// names that hold it before those that do not, whatever the case.
pub proof fn law_better_fits_come_first(
    query: Seq<char>,
    listing: Seq<char>,
    names: Set<Seq<char>>,
    i: int,
    j: int,
)
    requires
        0 <= i < pacman::search_results(query, listing, names).len(),
        0 <= j < pacman::search_results(query, listing, names).len(),
    ensures
        ({
            let a = text::lowercase(pacman::search_results(query, listing, names)[i].name);
            let b = text::lowercase(pacman::search_results(query, listing, names)[j].name);
            let q = text::lowercase(query);
            &&& a == q && b != q ==> i < j
            &&& q.is_prefix_of(a) && !q.is_prefix_of(b) ==> i < j
            &&& text::includes(a, q) && !text::includes(b, q) ==> i < j
        }),
{
    let results = pacman::search_results(query, listing, names);
    let a = text::lowercase(results[i].name);
    let b = text::lowercase(results[j].name);
    let q = text::lowercase(query);
    if j < i {
        pacman::law_results_are_ranked(query, listing, names, j, i);
    }
    assert(q.is_prefix_of(q)) by {
        assert(q.subrange(0, q.len() as int) =~= q);
    }
    if q.is_prefix_of(a) {
        assert(text::stands_at(a, q, 0));
    }
    if q.is_prefix_of(b) {
        assert(text::stands_at(b, q, 0));
    }
    let ra = pacman::relevance(results[i], query).rank;
    let rb = pacman::relevance(results[j], query).rank;
    if i == j {
        assert(a == b);
    }
}

/// Among names that fit equally well, repo packages come before those of the
/// AUR, then shorter names before longer ones, then the alphabet decides.
pub proof fn law_ties_are_broken(
    query: Seq<char>,
    listing: Seq<char>,
    names: Set<Seq<char>>,
    i: int,
    j: int,
)
    requires
        0 <= i < j < pacman::search_results(query, listing, names).len(),
        ({
            let a = text::lowercase(pacman::search_results(query, listing, names)[i].name);
            let b = text::lowercase(pacman::search_results(query, listing, names)[j].name);
            let q = text::lowercase(query);
            &&& (a == q) == (b == q)
            &&& q.is_prefix_of(a) == q.is_prefix_of(b)
            &&& text::includes(a, q) == text::includes(b, q)
        }),
    ensures
        ({
            let a = pacman::search_results(query, listing, names)[i];
            let b = pacman::search_results(query, listing, names)[j];
            let m = vstd::utf8::encode_utf8(a.name).len();
            let n = vstd::utf8::encode_utf8(b.name).len();
            &&& a.repo == "aur"@ ==> b.repo == "aur"@
            &&& (a.repo == "aur"@) == (b.repo == "aur"@) ==> m <= n
            &&& (a.repo == "aur"@) == (b.repo == "aur"@) && m == n ==> a.name == b.name
                || order::before(a.name, b.name)
        }),
{
    pacman::law_results_are_ranked(query, listing, names, i, j);
    let a = pacman::search_results(query, listing, names)[i];
    let b = pacman::search_results(query, listing, names)[j];
    assert(pacman::relevance(a, query).rank == pacman::relevance(b, query).rank);
    order::lemma_before_total(a.name, b.name);
}

/// Whether a result is named after another one with a dash and more, and has
/// the same version but for the release.
pub open spec fn is_hidden(found: Seq<PkgView>, i: int) -> bool {
    exists|j: int|
        0 <= j < found.len() && pacman::base_version_of(found[i].version)
            == pacman::base_version_of((#[trigger] found[j]).version) && (found[j].name + seq![
            '-',
        ]).is_prefix_of(found[i].name)
}

proof fn lemma_hidden(found: Seq<PkgView>, i: int)
    ensures
        is_hidden(found, i) == pacman::is_part(found, i),
{
    assert forall|j: int| #[trigger] found[j].name + seq!['-'] == found[j].name.push('-') by {
        assert(found[j].name + seq!['-'] =~= found[j].name.push('-'));
    }
    if is_hidden(found, i) {
        let j = choose|j: int|
            0 <= j < found.len() && pacman::base_version_of(found[i].version)
                == pacman::base_version_of((#[trigger] found[j]).version) && (found[j].name + seq![
                '-',
            ]).is_prefix_of(found[i].name);
        assert(pacman::part_of(found[i], found[j]));
    }
    if pacman::is_part(found, i) {
        let j = choose|j: int|
            0 <= j < found.len() && pacman::part_of(found[i], #[trigger] found[j]);
        assert(found[j].name + seq!['-'] == found[j].name.push('-'));
    }
}

/// The places of the first `n` results that are not hidden.
pub open spec fn shown_places(found: Seq<PkgView>, n: nat) -> Seq<int>
    decreases n,
{
    if n == 0 {
        seq![]
    } else {
        let rest = shown_places(found, (n - 1) as nat);
        if is_hidden(found, n - 1) {
            rest
        } else {
            rest.push(n - 1)
        }
    }
}

proof fn lemma_shown_places(found: Seq<PkgView>, n: nat)
    requires
        n <= found.len(),
    ensures
        ({
            let places = shown_places(found, n);
            let whole = pacman::whole_among(found, n);
            &&& places.len() == whole.len()
            &&& forall|k: int| 0 <= k < places.len() ==> 0 <= #[trigger] places[k] < n
            &&& forall|k: int|
                0 <= k < places.len() ==> !is_hidden(found, #[trigger] places[k]) && whole[k]
                    == found[places[k]]
            &&& forall|k: int, l: int|
                0 <= k < l < places.len() ==> #[trigger] places[k] < #[trigger] places[l]
            &&& forall|i: int|
                0 <= i < n && !is_hidden(found, i) ==> #[trigger] places.contains(i)
        }),
    decreases n,
{
    if n > 0 {
        let m = (n - 1) as nat;
        lemma_shown_places(found, m);
        lemma_hidden(found, n - 1);
        let rest = shown_places(found, m);
        let places = shown_places(found, n);
        assert forall|i: int| 0 <= i < n && !is_hidden(found, i) implies #[trigger]
            places.contains(i) by {
            if i < m {
                assert(rest.contains(i));
                let k = choose|k: int| 0 <= k < rest.len() && rest[k] == i;
                assert(places[k] == i);
            } else {
                assert(places[places.len() - 1] == i);
            }
        }
    }
}

/// The results are those of the listing that are not hidden, each as often as
/// it is listed: they can be numbered by the places where they were found.
pub proof fn law_results_are_found_once(
    query: Seq<char>,
    listing: Seq<char>,
    names: Set<Seq<char>>,
) -> (at: Seq<int>)
    ensures
        ({
            let found = pacman::results_in(text::lines_of(listing), names);
            let results = pacman::search_results(query, listing, names);
            &&& at.len() == results.len()
            &&& at.no_duplicates()
            &&& forall|k: int|
                0 <= k < at.len() ==> 0 <= #[trigger] at[k] < found.len() && results[k]
                    == found[at[k]] && !is_hidden(found, at[k])
            &&& forall|i: int|
                0 <= i < found.len() && !is_hidden(found, i) ==> #[trigger] at.contains(i)
        }),
{
    let found = pacman::results_in(text::lines_of(listing), names);
    let whole = pacman::whole_among(found, found.len());
    let keys = pacman::relevance_keys(whole, query);
    order::law_order_is_stable(keys);
    let ord = order::order_of(keys);
    lemma_shown_places(found, found.len());
    let places = shown_places(found, found.len());
    let at = Seq::new(ord.len(), |k: int| places[ord[k]]);
    assert forall|k: int, l: int| 0 <= k < at.len() && 0 <= l < at.len() && k != l implies at[k]
        != at[l] by {
        assert(ord[k] != ord[l]) by {
            if k < l {
                assert(keys[ord[k]].less(keys[ord[l]]) || ord[k] < ord[l]);
                order::lemma_before_asymmetric(keys[ord[k]].name, keys[ord[k]].name);
            } else {
                assert(keys[ord[l]].less(keys[ord[k]]) || ord[l] < ord[k]);
                order::lemma_before_asymmetric(keys[ord[k]].name, keys[ord[k]].name);
            }
        }
        if ord[k] < ord[l] {
            assert(places[ord[k]] < places[ord[l]]);
        } else {
            assert(places[ord[l]] < places[ord[k]]);
        }
    }
    assert forall|i: int| 0 <= i < found.len() && !is_hidden(found, i) implies #[trigger]
        at.contains(i) by {
        assert(places.contains(i));
        let p = choose|p: int| 0 <= p < places.len() && places[p] == i;
        order::lemma_order_is_onto(ord, keys, whole.len(), p);
        let k = choose|k: int| 0 <= k < ord.len() && ord[k] == p;
        assert(at[k] == i);
    }
    at
}

// ---------------------------------------------------------------------------
// Details
// ---------------------------------------------------------------------------

/// Details of a repo package are those of the first record of the reply; it
/// stays from the repo, and as installed, as it was found.
pub proof fn law_repo_details(pkg: PkgView, reply: Seq<char>)
    requires
        pkg.repo != "aur"@,
    ensures
        ({
            let pkgs = pacman::listing_of(reply, Set::empty());
            &&& pkgs.len() == 0 ==> pacman::details_of(pkg, reply) is None
            &&& pkgs.len() > 0 ==> pacman::details_of(pkg, reply) == Some(
                PkgView { installed: pkg.installed, repo: pkg.repo, ..pkgs[0] },
            )
            &&& pacman::details_args(pkg) == seq!["pacman"@, "-Si"@, pkg.name]
        }),
{
}

/// Details of an AUR package are the fields of the first result of the reply;
/// a field that is not there is empty.
pub proof fn law_aur_details(pkg: PkgView, reply: Seq<char>)
    requires
        pkg.repo == "aur"@,
    ensures
        json::first_object(reply) is None ==> pacman::details_of(pkg, reply) is None,
        json::first_object(reply) matches Some(obj) ==> {
            &&& pacman::details_of(pkg, reply) is Some
            &&& ({
                let full = pacman::details_of(pkg, reply)->0;
                &&& full.name == pkg.name
                &&& full.repo == "aur"@
                &&& json::string_under(obj, "Version"@) matches Some(v) ==> full.version == v
                &&& json::string_under(obj, "Version"@) is None ==> full.version.len() == 0
                &&& json::string_under(obj, "Description"@) matches Some(v) ==> full.description
                    == v
                &&& json::string_under(obj, "Description"@) is None ==> full.description.len() == 0
                &&& json::string_under(obj, "URL"@) matches Some(v) ==> full.url == v
                &&& json::string_under(obj, "URL"@) is None ==> full.url.len() == 0
                &&& full.depends == json::array_under(obj, "Depends"@)
                &&& full.optdepends == json::array_under(obj, "OptDepends"@)
                &&& !full.installed
                &&& full.required_by.len() == 0
                &&& full.provides.len() == 0
                &&& full.size.len() == 0
                &&& full.install_reason.len() == 0
                &&& full.votes is None
            })
        },
        pacman::details_args(pkg) == seq![
            "curl"@,
            "-sf"@,
            "--max-time"@,
            "10"@,
            "https://aur.archlinux.org/rpc/v5/info?arg[]="@ + pkg.name,
        ],
{
}

} // verus!
