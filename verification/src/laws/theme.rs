//! What themes and the places of their files promise.

use vstd::prelude::*;

use crate::laws::text as text_laws;
use crate::paths;
use crate::text;
use crate::text::Class;
use crate::theme;
use crate::theme::Color;
use crate::theme::ConfigView;
use crate::theme::ThemeView;

verus! {

// ---------------------------------------------------------------------------
// Colours
// ---------------------------------------------------------------------------

/// What two characters of a colour are worth: the hexadecimal number that they
/// spell, or 0.
pub open spec fn worth(a: char, b: char) -> int {
    match text::hex_number(seq![a, b]) {
        Some(n) => n as int,
        None => 0,
    }
}

/// A colour is six characters, two for each channel, in the order red, green,
/// blue. White space around it and number signs in front do not count. With
/// more or fewer characters it is no colour.
pub proof fn law_colors(front: Seq<char>, signs: Seq<char>, digits: Seq<char>, back: Seq<char>)
    requires
        text_laws::is_blank(front),
        text_laws::is_blank(back),
        forall|i: int| 0 <= i < signs.len() ==> #[trigger] signs[i] == '#',
        vstd::utf8::is_ascii_chars(digits),
        text_laws::is_trim(digits),
        digits.len() > 0 ==> digits[0] != '#',
    ensures
        digits.len() != 6 ==> theme::color_of(front + signs + digits + back) == Color::Reset,
        digits.len() == 6 ==> (theme::color_of(front + signs + digits + back) matches Color::Rgb(
            r,
            g,
            b,
        ) && r == worth(digits[0], digits[1]) && g == worth(digits[2], digits[3]) && b == worth(
            digits[4],
            digits[5],
        )),
{
    let s = front + signs + digits + back;
    let core = signs + digits;
    assert(s =~= front + core + back);
    assert(text_laws::is_trim(core)) by {
        if core.len() > 0 {
            if signs.len() > 0 {
                assert(core[0] == signs[0]);
            } else {
                assert(core[0] == digits[0]);
            }
            if digits.len() > 0 {
                assert(core.last() == digits.last());
            } else {
                assert(core.last() == signs[signs.len() - 1]);
            }
        }
    }
    text_laws::law_trimming(front, core, back);
    assert forall|k: int| 0 <= k < signs.len() implies !Class::Not('#').has(#[trigger] core[k]) by {
        assert(core[k] == signs[k]);
    }
    if digits.len() > 0 {
        assert(core[signs.len() as int] == digits[0]);
    }
    text::lemma_first_of_is(core, Class::Not('#'), signs.len() as int);
    assert(core.skip(signs.len() as int) =~= digits);
    vstd::utf8::is_ascii_chars_encode_utf8(digits);
    let b = theme::color_bytes(s);
    assert(b == vstd::utf8::encode_utf8(digits));
    if digits.len() == 6 {
        lemma_worth(digits, 0);
        lemma_worth(digits, 2);
        lemma_worth(digits, 4);
    }
}

proof fn lemma_worth(digits: Seq<char>, k: int)
    requires
        0 <= k < digits.len() - 1,
        vstd::utf8::is_ascii_chars(digits),
    ensures
        theme::channel(vstd::utf8::encode_utf8(digits).subrange(k, k + 2)) == worth(
            digits[k],
            digits[k + 1],
        ),
{
    let b = vstd::utf8::encode_utf8(digits);
    let pair = seq![digits[k], digits[k + 1]];
    vstd::utf8::is_ascii_chars_encode_utf8(digits);
    assert(vstd::utf8::is_ascii_chars(pair)) by {
        assert(pair[0] == digits[k]);
        assert(pair[1] == digits[k + 1]);
    }
    vstd::utf8::is_ascii_chars_encode_utf8(pair);
    vstd::utf8::encode_utf8_decode_utf8(pair);
    let e = vstd::utf8::encode_utf8(pair);
    assert(e[0] == pair[0] as u8);
    assert(e[1] == pair[1] as u8);
    assert(b[k] == digits[k] as u8);
    assert(b[k + 1] == digits[k + 1] as u8);
    assert(b.subrange(k, k + 2) =~= e);
    reveal_with_fuel(text::hex_digits, 3);
    match text::hex_number(pair) {
        Some(n) => {
            assert(n < 256);
        },
        None => {},
    }
}

// ---------------------------------------------------------------------------
// The config
// ---------------------------------------------------------------------------

/// A config without lines says nothing.
pub proof fn law_empty_config()
    ensures
        theme::config_of(seq![]).requested.len() == 0,
        theme::config_of(seq![]).current.len() == 0,
        theme::config_of(seq![]).sections.len() == 0,
        theme::config_of(seq![]).values == Map::<(Seq<char>, Seq<char>), Seq<char>>::empty(),
{
}

/// A name in brackets begins a section of that name, or goes on with it.
pub proof fn law_section_lines(
    lines: Seq<Seq<char>>,
    front: Seq<char>,
    inside: Seq<char>,
    back: Seq<char>,
)
    requires
        text_laws::is_blank(front),
        text_laws::is_blank(back),
    ensures
        ({
            let was = theme::config_of(lines);
            let name = text::trimmed(inside);
            theme::config_of(lines.push(front + seq!['['] + inside + seq![']'] + back)) == (
            ConfigView {
                current: name,
                sections: if was.sections.contains(name) {
                    was.sections
                } else {
                    was.sections.push(name)
                },
                ..was
            })
        }),
{
    let raw = front + seq!['['] + inside + seq![']'] + back;
    let core = seq!['['] + inside + seq![']'];
    assert(raw =~= front + core + back);
    assert(core[0] == '[' && core.last() == ']');
    text_laws::law_trimming(front, core, back);
    assert(core.subrange(1, core.len() - 1) =~= inside);
    assert(lines.push(raw).drop_last() =~= lines);
}

/// A key, an equals sign and a value set the key of the section that the lines
/// are in. Before any section only the theme can be asked for.
pub proof fn law_setting_lines(
    lines: Seq<Seq<char>>,
    front: Seq<char>,
    key: Seq<char>,
    value: Seq<char>,
)
    requires
        text_laws::is_blank(front),
        key.len() > 0,
        !text::white_space(key[0]),
        key[0] != '#',
        key[0] != '[',
        !key.contains('='),
    ensures
        ({
            let was = theme::config_of(lines);
            let now = theme::config_of(lines.push(front + key + seq!['='] + value));
            let k = text::trimmed(key);
            let v = text::trimmed(value);
            &&& was.current.len() > 0 ==> now == (ConfigView {
                values: was.values.insert((was.current, k), v),
                ..was
            })
            &&& was.current.len() == 0 && k == "theme"@ ==> now == (ConfigView {
                requested: v,
                ..was
            })
            &&& was.current.len() == 0 && k != "theme"@ ==> now == was
        }),
{
    let raw = front + key + seq!['='] + value;
    assert(lines.push(raw).drop_last() =~= lines);
    // What is trimmed off behind the equals sign is white space of the value.
    let (kept, back) = lemma_end(value);
    let core = key + seq!['='] + kept;
    assert(raw =~= front + core + back);
    assert(core[0] == key[0]);
    assert(core.last() == (if kept.len() > 0 {
        kept.last()
    } else {
        '='
    }));
    text_laws::law_trimming(front, core, back);
    text_laws::law_cutting(key, '=', kept);
    assert(text::trimmed(kept) == text::trimmed(value)) by {
        lemma_trimmed_end(kept, back);
        assert(kept + back =~= value);
    }
}

proof fn lemma_end(s: Seq<char>) -> (r: (Seq<char>, Seq<char>))
    ensures
        s == r.0 + r.1,
        text_laws::is_blank(r.1),
        r.0.len() > 0 ==> !text::white_space(r.0.last()),
    decreases s.len(),
{
    if s.len() == 0 {
        assert(s =~= s + Seq::<char>::empty());
        (s, seq![])
    } else if text::white_space(s.last()) {
        let (a, b) = lemma_end(s.drop_last());
        let c = b.push(s.last());
        assert(s =~= s.drop_last().push(s.last()));
        assert((a + b).push(s.last()) =~= a + c);
        (a, c)
    } else {
        assert(s =~= s + Seq::<char>::empty());
        (s, seq![])
    }
}

proof fn lemma_trimmed_end(s: Seq<char>, back: Seq<char>)
    requires
        text_laws::is_blank(back),
    ensures
        text::trimmed(s + back) == text::trimmed(s),
{
    text_laws::law_trimmed_is_within(s);
    let (front, core, rear) = lemma_parts(s);
    text_laws::law_trimming(front, core, rear);
    assert(s + back =~= front + core + (rear + back));
    text_laws::law_trimming(front, core, rear + back);
}

proof fn lemma_parts(s: Seq<char>) -> (r: (Seq<char>, Seq<char>, Seq<char>))
    ensures
        s == r.0 + r.1 + r.2,
        text_laws::is_blank(r.0),
        text_laws::is_blank(r.2),
        text_laws::is_trim(r.1),
    decreases s.len(),
{
    if s.len() > 0 && text::white_space(s[0]) {
        let (a, b, c) = lemma_parts(s.drop_first());
        let d = seq![s[0]] + a;
        assert(s =~= seq![s[0]] + s.drop_first());
        assert(seq![s[0]] + (a + b + c) =~= d + b + c);
        (d, b, c)
    } else {
        let (a, b) = lemma_end(s);
        assert(s =~= Seq::<char>::empty() + a + b);
        if a.len() > 0 {
            assert(a[0] == s[0]);
        }
        (seq![], a, b)
    }
}

/// Any other line says nothing.
pub proof fn law_other_lines(lines: Seq<Seq<char>>, raw: Seq<char>)
    requires
        ({
            let line = text::trimmed(raw);
            ||| line.len() == 0
            ||| line[0] == '#'
            ||| !line.contains('=') && !(line.len() >= 2 && line[0] == '[' && line.last() == ']')
        }),
    ensures
        theme::config_of(lines.push(raw)) == theme::config_of(lines),
{
    let line = text::trimmed(raw);
    assert(lines.push(raw).drop_last() =~= lines);
    if !line.contains('=') {
        text_laws::law_cutting(line, '=', seq![]);
    }
}

// ---------------------------------------------------------------------------
// Themes
// ---------------------------------------------------------------------------

/// The name of the palette that a config asks for: its own, or with "auto" or
/// without any that of the desktop.
pub open spec fn asked_name(config: ConfigView, desktop: Seq<char>) -> Seq<char> {
    if config.requested.len() > 0 && config.requested != "auto"@ {
        config.requested
    } else {
        desktop
    }
}

/// A theme takes each of its colours from the key of the same name in the
/// section of its name, where that has a value.
pub proof fn law_theme_colors(config: ConfigView, recorded: Option<Seq<char>>)
    ensures
        ({
            let desktop = match recorded {
                Some(t) => text::trimmed(t),
                None => seq![],
            };
            let asked = asked_name(config, desktop);
            let name = if config.sections.contains(asked) {
                asked
            } else {
                config.sections[0]
            };
            let theme = theme::theme_in(config, recorded);
            let has = |key: Seq<char>| config.values.contains_key((name, key));
            let color = |key: Seq<char>| theme::color_of(config.values[(name, key)]);
            &&& config.sections.len() == 0 ==> theme == ThemeView::mocha()
            &&& config.sections.len() > 0 ==> {
                &&& theme.name == name
                &&& has("base"@) ==> theme.base == color("base"@)
                &&& has("mantle"@) ==> theme.mantle == color("mantle"@)
                &&& has("surface0"@) ==> theme.surface0 == color("surface0"@)
                &&& has("surface1"@) ==> theme.surface1 == color("surface1"@)
                &&& has("overlay0"@) ==> theme.overlay0 == color("overlay0"@)
                &&& has("subtext0"@) ==> theme.subtext0 == color("subtext0"@)
                &&& has("text"@) ==> theme.text == color("text"@)
                &&& has("mauve"@) ==> theme.mauve == color("mauve"@)
                &&& has("blue"@) ==> theme.blue == color("blue"@)
                &&& has("red"@) ==> theme.red == color("red"@)
                &&& has("green"@) ==> theme.green == color("green"@)
                &&& has("yellow"@) ==> theme.yellow == color("yellow"@)
                &&& has("peach"@) ==> theme.peach == color("peach"@)
                &&& has("hover"@) ==> theme.hover == color("hover"@)
                &&& has("selected"@) ==> theme.selected == color("selected"@)
            }
        }),
{
    if config.sections.len() > 0 {
        assert(config.sections.contains(config.sections[0]));
    }
}

/// The theme of a text is that of its lines; without a text it is Catppuccin
/// Mocha.
pub proof fn law_themes(config: Seq<char>, recorded: Option<Seq<char>>)
    ensures
        theme::theme_of(Some(config), recorded) == theme::theme_in(
            theme::config_of(text::lines_of(config)),
            recorded,
        ),
        theme::theme_of(None, recorded) == ThemeView::mocha(),
{
}

/// Whether a colour is the one that seven characters spell.
pub open spec fn is_spelled(color: Color, hex: Seq<char>) -> bool {
    theme::color_of(hex) == color
}

/// Catppuccin Mocha has the colours that its section of the config spells.
pub proof fn law_mocha()
    ensures
        ({
            let mocha = ThemeView::mocha();
            &&& mocha.name == "catppuccin-mocha"@
            &&& is_spelled(mocha.base, "#1e1e2e"@)
            &&& is_spelled(mocha.mantle, "#181825"@)
            &&& is_spelled(mocha.surface0, "#313244"@)
            &&& is_spelled(mocha.surface1, "#45475a"@)
            &&& is_spelled(mocha.overlay0, "#6c7086"@)
            &&& is_spelled(mocha.subtext0, "#a6adc8"@)
            &&& is_spelled(mocha.text, "#cdd6f4"@)
            &&& is_spelled(mocha.mauve, "#cba6f7"@)
            &&& is_spelled(mocha.blue, "#89b4fa"@)
            &&& is_spelled(mocha.red, "#f38ba8"@)
            &&& is_spelled(mocha.green, "#a6e3a1"@)
            &&& is_spelled(mocha.yellow, "#f9e2af"@)
            &&& is_spelled(mocha.peach, "#fab387"@)
            &&& is_spelled(mocha.hover, "#232336"@)
            &&& is_spelled(mocha.selected, "#2a2b3d"@)
        }),
{
    let mocha = ThemeView::mocha();
    assert(is_spelled(mocha.base, "#1e1e2e"@)) by {
        reveal_strlit("#1e1e2e");
        lemma_spelled("#1e1e2e"@);
    }
    assert(is_spelled(mocha.mantle, "#181825"@)) by {
        reveal_strlit("#181825");
        lemma_spelled("#181825"@);
    }
    assert(is_spelled(mocha.surface0, "#313244"@)) by {
        reveal_strlit("#313244");
        lemma_spelled("#313244"@);
    }
    assert(is_spelled(mocha.surface1, "#45475a"@)) by {
        reveal_strlit("#45475a");
        lemma_spelled("#45475a"@);
    }
    assert(is_spelled(mocha.overlay0, "#6c7086"@)) by {
        reveal_strlit("#6c7086");
        lemma_spelled("#6c7086"@);
    }
    assert(is_spelled(mocha.subtext0, "#a6adc8"@)) by {
        reveal_strlit("#a6adc8");
        lemma_spelled("#a6adc8"@);
    }
    assert(is_spelled(mocha.text, "#cdd6f4"@)) by {
        reveal_strlit("#cdd6f4");
        lemma_spelled("#cdd6f4"@);
    }
    assert(is_spelled(mocha.mauve, "#cba6f7"@)) by {
        reveal_strlit("#cba6f7");
        lemma_spelled("#cba6f7"@);
    }
    assert(is_spelled(mocha.blue, "#89b4fa"@)) by {
        reveal_strlit("#89b4fa");
        lemma_spelled("#89b4fa"@);
    }
    assert(is_spelled(mocha.red, "#f38ba8"@)) by {
        reveal_strlit("#f38ba8");
        lemma_spelled("#f38ba8"@);
    }
    assert(is_spelled(mocha.green, "#a6e3a1"@)) by {
        reveal_strlit("#a6e3a1");
        lemma_spelled("#a6e3a1"@);
    }
    assert(is_spelled(mocha.yellow, "#f9e2af"@)) by {
        reveal_strlit("#f9e2af");
        lemma_spelled("#f9e2af"@);
    }
    assert(is_spelled(mocha.peach, "#fab387"@)) by {
        reveal_strlit("#fab387");
        lemma_spelled("#fab387"@);
    }
    assert(is_spelled(mocha.hover, "#232336"@)) by {
        reveal_strlit("#232336");
        lemma_spelled("#232336"@);
    }
    assert(is_spelled(mocha.selected, "#2a2b3d"@)) by {
        reveal_strlit("#2a2b3d");
        lemma_spelled("#2a2b3d"@);
    }
}

proof fn lemma_spelled(hex: Seq<char>)
    requires
        hex.len() == 7,
        hex[0] == '#',
        text::hex_digit(hex[1]) is Some,
        text::hex_digit(hex[2]) is Some,
        text::hex_digit(hex[3]) is Some,
        text::hex_digit(hex[4]) is Some,
        text::hex_digit(hex[5]) is Some,
        text::hex_digit(hex[6]) is Some,
    ensures
        theme::color_of(hex) == Color::Rgb(
            (16 * text::hex_digit(hex[1])->0 + text::hex_digit(hex[2])->0) as u8,
            (16 * text::hex_digit(hex[3])->0 + text::hex_digit(hex[4])->0) as u8,
            (16 * text::hex_digit(hex[5])->0 + text::hex_digit(hex[6])->0) as u8,
        ),
{
    let digits = hex.skip(1);
    assert(hex =~= seq!['#'] + digits);
    theme::law_hex_colors_are_read(digits);
}

// ---------------------------------------------------------------------------
// Places
// ---------------------------------------------------------------------------

/// The config stands under $XDG_CONFIG_HOME, or under .config in $HOME.
pub proof fn law_config_path(dir: Seq<char>, home: Seq<char>)
    requires
        dir.len() > 0,
        dir.last() != '/',
        home.len() > 0,
        home.last() != '/',
    ensures
        theme::config_path_of(Some(dir), home) == dir + "/noull-pm/theme.conf"@,
        theme::config_path_of(None, home) == home + "/.config/noull-pm/theme.conf"@,
        theme::system_theme_path_of(home) == home + "/.config/quickshell/theme.txt"@,
{
    reveal_strlit("noull-pm");
    reveal_strlit("theme.conf");
    reveal_strlit(".config");
    reveal_strlit("quickshell");
    reveal_strlit("theme.txt");
    reveal_strlit("/noull-pm/theme.conf");
    reveal_strlit("/.config/noull-pm/theme.conf");
    reveal_strlit("/.config/quickshell/theme.txt");
    assert(theme::config_path_of(Some(dir), home) =~= dir + "/noull-pm/theme.conf"@);
    assert(theme::config_path_of(None, home) =~= home + "/.config/noull-pm/theme.conf"@);
    assert(theme::system_theme_path_of(home) =~= home + "/.config/quickshell/theme.txt"@);
}

/// Leftovers are looked for in four places of $HOME.
pub proof fn law_leftover_dirs(home: Seq<char>)
    requires
        home.len() > 0,
        home.last() != '/',
    ensures
        paths::leftover_dirs_of(home) == seq![
            home + "/.config"@,
            home + "/.cache"@,
            home + "/.local/share"@,
            home + "/.local/state"@,
        ],
{
    reveal_strlit(".config");
    reveal_strlit(".cache");
    reveal_strlit(".local/share");
    reveal_strlit(".local/state");
    reveal_strlit("/.config");
    reveal_strlit("/.cache");
    reveal_strlit("/.local/share");
    reveal_strlit("/.local/state");
    let dirs = paths::leftover_dirs_of(home);
    assert(dirs[0] =~= home + "/.config"@);
    assert(dirs[1] =~= home + "/.cache"@);
    assert(dirs[2] =~= home + "/.local/share"@);
    assert(dirs[3] =~= home + "/.local/state"@);
}

/// A path that ends in a slash, and an empty one, gets none.
pub proof fn law_below(dir: Seq<char>, part: Seq<char>)
    ensures
        paths::below(seq![], part) == part,
        paths::below(dir.push('/'), part) == dir.push('/') + part,
        dir.len() > 0 && dir.last() != '/' ==> paths::below(dir, part) == dir.push('/') + part,
{
    assert(Seq::<char>::empty() + part =~= part);
    assert(dir + seq!['/'] =~= dir.push('/'));
}

} // verus!
