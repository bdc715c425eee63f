//! Colours and the theme config.
//!
//! `theme = auto` (the default) follows the desktop theme by the name that
//! `qs-theme` writes. Naming a palette explicitly pins it instead.

use vstd::prelude::*;

use crate::paths;
use crate::text;
use crate::text::Class;

verus! {

// ---------------------------------------------------------------------------
// Colours
// ---------------------------------------------------------------------------

/// A colour of the terminal.
#[derive(Debug, Clone, Copy, PartialEq, Eq, Structural)]
pub enum Color {
    /// The terminal's own
    Reset,
    Rgb(u8, u8, u8),
}

/// What two bytes of a colour give: the hexadecimal number that they spell,
/// or 0.
pub open spec fn channel(bytes: Seq<u8>) -> u8 {
    match text::hex_number(vstd::utf8::decode_utf8(bytes)) {
        Some(n) => n as u8,
        None => 0,
    }
}

/// The bytes of a colour, without white space on either side and without the
/// number signs in front.
pub open spec fn color_bytes(hex: Seq<char>) -> Seq<u8> {
    vstd::utf8::encode_utf8(text::from_first(text::trimmed(hex), Class::Not('#')))
}

/// The colour that a text spells: six bytes, two for each channel. A text of
/// any other length leaves the terminal's own.
pub open spec fn color_of(hex: Seq<char>) -> Color {
    let b = color_bytes(hex);
    if b.len() == 6 {
        Color::Rgb(
            channel(b.subrange(0, 2)),
            channel(b.subrange(2, 4)),
            channel(b.subrange(4, 6)),
        )
    } else {
        Color::Reset
    }
}

/// Whether a text of six bytes can be cut into pairs without cutting a
/// character apart.
pub open spec fn is_color_text(hex: Seq<char>) -> bool {
    let b = color_bytes(hex);
    b.len() == 6 ==> vstd::utf8::is_char_boundary(b, 2) && vstd::utf8::is_char_boundary(b, 4)
}

/// A text has no more characters than bytes.
proof fn lemma_chars_fit_bytes(s: Seq<char>)
    ensures
        s.len() <= vstd::utf8::encode_utf8(s).len(),
    decreases s.len(),
{
    if s.len() > 0 {
        lemma_chars_fit_bytes(s.drop_first());
    }
}

/// Whether a text can be read as a colour.
pub fn can_read_color(hex: &str) -> (r: bool)
    ensures
        r == is_color_text(hex@),
{
    let chars = text::chars_of(hex);
    let h = text::string_of(text::trim_start(text::trim(chars.as_slice()), Class::Not('#')));
    let s = h.as_str();
    s.as_bytes().len() != 6 || s.is_char_boundary(2) && s.is_char_boundary(4)
}

/// Reads two bytes of a colour.
fn read_channel(pair: &str) -> (r: u8)
    requires
        vstd::utf8::encode_utf8(pair@).len() == 2,
    ensures
        r == channel(vstd::utf8::encode_utf8(pair@)),
{
    proof {
        lemma_chars_fit_bytes(pair@);
        vstd::utf8::encode_utf8_decode_utf8(pair@);
    }
    let chars = text::chars_of(pair);
    match text::parse_hex(chars.as_slice()) {
        Some(v) => v as u8,
        None => 0,
    }
}

/// Reads a colour, "#rrggbb".
pub fn rgb(hex: &str) -> (r: Color)
    requires
        is_color_text(hex@),
    ensures
        r == color_of(hex@),
{
    let chars = text::chars_of(hex);
    let h = text::string_of(text::trim_start(text::trim(chars.as_slice()), Class::Not('#')));
    let s = h.as_str();
    if s.as_bytes().len() != 6 {
        return Color::Reset;
    }
    let ghost b = color_bytes(hex@);
    proof {
        vstd::utf8::encode_utf8_valid_utf8(h@);
    }
    let (first, rest) = s.split_at(2);
    proof {
        let c = vstd::utf8::encode_utf8(rest@);
        assert(c =~= b.subrange(2, 6));
        vstd::utf8::encode_utf8_valid_utf8(rest@);
        vstd::utf8::is_char_boundary_iff_not_is_continuation_byte(b, 4);
        vstd::utf8::is_char_boundary_iff_not_is_continuation_byte(c, 2);
        assert(c[2] == b[4]);
    }
    let (second, third) = rest.split_at(2);
    proof {
        assert(vstd::utf8::encode_utf8(first@) =~= b.subrange(0, 2));
        assert(vstd::utf8::encode_utf8(second@) =~= b.subrange(2, 4));
        assert(vstd::utf8::encode_utf8(third@) =~= b.subrange(4, 6));
    }
    Color::Rgb(read_channel(first), read_channel(second), read_channel(third))
}

/// The channel that two hexadecimal digits spell.
proof fn lemma_channel(a: char, b: char)
    requires
        text::hex_digit(a) is Some,
        text::hex_digit(b) is Some,
    ensures
        vstd::utf8::encode_utf8(seq![a, b]).len() == 2,
        channel(vstd::utf8::encode_utf8(seq![a, b])) == 16 * text::hex_digit(a)->0 + text::hex_digit(
            b,
        )->0,
{
    let s = seq![a, b];
    assert(vstd::utf8::is_ascii_chars(s));
    vstd::utf8::is_ascii_chars_encode_utf8(s);
    vstd::utf8::encode_utf8_decode_utf8(s);
    assert(s.drop_last() =~= seq![a]);
    assert(seq![a].drop_last() =~= seq![]);
    assert(text::hex_digits(seq![]) == Some(0nat));
    assert(text::hex_digits(seq![a]) == text::hex_digit(a));
    assert(text::hex_digits(s) == Some(
        (16 * text::hex_digit(a)->0 + text::hex_digit(b)->0) as nat,
    ));
    assert(text::hex_number(s) == text::hex_digits(s));
}

/// The bytes of two neighbouring digits.
proof fn lemma_pair(digits: Seq<char>, k: int)
    requires
        0 <= k < digits.len() - 1,
        vstd::utf8::is_ascii_chars(digits),
    ensures
        vstd::utf8::encode_utf8(digits).subrange(k, k + 2) == vstd::utf8::encode_utf8(
            seq![digits[k], digits[k + 1]],
        ),
{
    let b = vstd::utf8::encode_utf8(digits);
    let pair = seq![digits[k], digits[k + 1]];
    vstd::utf8::is_ascii_chars_encode_utf8(digits);
    assert(vstd::utf8::is_ascii_chars(pair)) by {
        assert(pair[0] == digits[k]);
        assert(pair[1] == digits[k + 1]);
    }
    vstd::utf8::is_ascii_chars_encode_utf8(pair);
    let e = vstd::utf8::encode_utf8(pair);
    assert(e[0] == pair[0] as u8);
    assert(e[1] == pair[1] as u8);
    assert(b[k] == digits[k] as u8);
    assert(b[k + 1] == digits[k + 1] as u8);
    assert(b.subrange(k, k + 2) =~= e);
}

/// Six hexadecimal digits behind a number sign are read as the three channels
/// that they spell.
pub proof fn law_hex_colors_are_read(digits: Seq<char>)
    requires
        digits.len() == 6,
        forall|i: int| 0 <= i < 6 ==> text::hex_digit(#[trigger] digits[i]) is Some,
    ensures
        is_color_text(seq!['#'] + digits),
        color_of(seq!['#'] + digits) == Color::Rgb(
            (16 * text::hex_digit(digits[0])->0 + text::hex_digit(digits[1])->0) as u8,
            (16 * text::hex_digit(digits[2])->0 + text::hex_digit(digits[3])->0) as u8,
            (16 * text::hex_digit(digits[4])->0 + text::hex_digit(digits[5])->0) as u8,
        ),
{
    let s = seq!['#'] + digits;
    assert(s[0] == '#');
    assert(s.last() == digits[5]);
    text::lemma_first_of_is(s, Class::Visible, 0);
    assert(s.skip(0) =~= s);
    text::lemma_after_last_of_is(s, Class::Visible, 7);
    assert(s.take(7) =~= s);
    assert(s[1] == digits[0]);
    text::lemma_first_of_is(s, Class::Not('#'), 1);
    assert(s.skip(1) =~= digits);
    assert(vstd::utf8::is_ascii_chars(digits)) by {
        assert forall|i: int| 0 <= i < digits.len() implies '\0' <= #[trigger] digits[i]
            && digits[i] <= '\u{7f}' by {
            assert(text::hex_digit(digits[i]) is Some);
        }
    }
    vstd::utf8::is_ascii_chars_encode_utf8(digits);
    vstd::utf8::encode_utf8_valid_utf8(digits);
    let b = vstd::utf8::encode_utf8(digits);
    assert(b == color_bytes(s));
    lemma_pair(digits, 0);
    lemma_pair(digits, 2);
    lemma_pair(digits, 4);
    lemma_channel(digits[0], digits[1]);
    lemma_channel(digits[2], digits[3]);
    lemma_channel(digits[4], digits[5]);
    assert(b[2] == digits[2] as u8);
    assert(b[4] == digits[4] as u8);
    vstd::utf8::is_char_boundary_iff_not_is_continuation_byte(b, 2);
    vstd::utf8::is_char_boundary_iff_not_is_continuation_byte(b, 4);
}

// ---------------------------------------------------------------------------
// Themes
// ---------------------------------------------------------------------------

/// A palette, by name.
#[derive(Debug)]
pub struct Theme {
    pub name: String,
    pub base: Color,
    pub mantle: Color,
    pub surface0: Color,
    pub surface1: Color,
    pub overlay0: Color,
    pub subtext0: Color,
    pub text: Color,
    pub mauve: Color,
    pub blue: Color,
    pub red: Color,
    pub green: Color,
    pub yellow: Color,
    pub peach: Color,
    pub hover: Color,
    pub selected: Color,
}

/// The contents of a `Theme`.
#[verifier::ext_equal]
pub struct ThemeView {
    pub name: Seq<char>,
    pub base: Color,
    pub mantle: Color,
    pub surface0: Color,
    pub surface1: Color,
    pub overlay0: Color,
    pub subtext0: Color,
    pub text: Color,
    pub mauve: Color,
    pub blue: Color,
    pub red: Color,
    pub green: Color,
    pub yellow: Color,
    pub peach: Color,
    pub hover: Color,
    pub selected: Color,
}

impl View for Theme {
    type V = ThemeView;

    open spec fn view(&self) -> ThemeView {
        ThemeView {
            name: self.name@,
            base: self.base,
            mantle: self.mantle,
            surface0: self.surface0,
            surface1: self.surface1,
            overlay0: self.overlay0,
            subtext0: self.subtext0,
            text: self.text,
            mauve: self.mauve,
            blue: self.blue,
            red: self.red,
            green: self.green,
            yellow: self.yellow,
            peach: self.peach,
            hover: self.hover,
            selected: self.selected,
        }
    }
}

impl ThemeView {
    /// Catppuccin Mocha.
    pub open spec fn mocha() -> ThemeView {
        ThemeView {
            name: "catppuccin-mocha"@,
            base: Color::Rgb(0x1e, 0x1e, 0x2e),
            mantle: Color::Rgb(0x18, 0x18, 0x25),
            surface0: Color::Rgb(0x31, 0x32, 0x44),
            surface1: Color::Rgb(0x45, 0x47, 0x5a),
            overlay0: Color::Rgb(0x6c, 0x70, 0x86),
            subtext0: Color::Rgb(0xa6, 0xad, 0xc8),
            text: Color::Rgb(0xcd, 0xd6, 0xf4),
            mauve: Color::Rgb(0xcb, 0xa6, 0xf7),
            blue: Color::Rgb(0x89, 0xb4, 0xfa),
            red: Color::Rgb(0xf3, 0x8b, 0xa8),
            green: Color::Rgb(0xa6, 0xe3, 0xa1),
            yellow: Color::Rgb(0xf9, 0xe2, 0xaf),
            peach: Color::Rgb(0xfa, 0xb3, 0x87),
            hover: Color::Rgb(0x23, 0x23, 0x36),
            selected: Color::Rgb(0x2a, 0x2b, 0x3d),
        }
    }
}

impl Default for Theme {
    /// Used when the config is missing or unreadable, so the UI is never
    /// colourless.
    fn default() -> (r: Theme)
        ensures
            r@ == ThemeView::mocha(),
    {
        Theme {
            name: "catppuccin-mocha".to_string(),
            base: Color::Rgb(0x1e, 0x1e, 0x2e),
            mantle: Color::Rgb(0x18, 0x18, 0x25),
            surface0: Color::Rgb(0x31, 0x32, 0x44),
            surface1: Color::Rgb(0x45, 0x47, 0x5a),
            overlay0: Color::Rgb(0x6c, 0x70, 0x86),
            subtext0: Color::Rgb(0xa6, 0xad, 0xc8),
            text: Color::Rgb(0xcd, 0xd6, 0xf4),
            mauve: Color::Rgb(0xcb, 0xa6, 0xf7),
            blue: Color::Rgb(0x89, 0xb4, 0xfa),
            red: Color::Rgb(0xf3, 0x8b, 0xa8),
            green: Color::Rgb(0xa6, 0xe3, 0xa1),
            yellow: Color::Rgb(0xf9, 0xe2, 0xaf),
            peach: Color::Rgb(0xfa, 0xb3, 0x87),
            hover: Color::Rgb(0x23, 0x23, 0x36),
            selected: Color::Rgb(0x2a, 0x2b, 0x3d),
        }
    }
}

// ---------------------------------------------------------------------------
// The config
// ---------------------------------------------------------------------------

/// What a line of the config says.
pub enum ConfigLine {
    /// Nothing: it is empty, a comment, or no setting
    Nothing,
    /// A section begins
    Section(Seq<char>),
    /// A key gets a value
    Setting(Seq<char>, Seq<char>),
}

/// What a line of the config says. A comment is a line that begins with a
/// number sign; further on, it is part of a colour.
pub open spec fn config_line(raw: Seq<char>) -> ConfigLine {
    let line = text::trimmed(raw);
    if line.len() == 0 || line[0] == '#' {
        ConfigLine::Nothing
    } else if line.len() >= 2 && line[0] == '[' && line.last() == ']' {
        ConfigLine::Section(text::trimmed(line.subrange(1, line.len() - 1)))
    } else {
        match text::cut_at(line, '=') {
            Some((k, v)) => ConfigLine::Setting(text::trimmed(k), text::trimmed(v)),
            None => ConfigLine::Nothing,
        }
    }
}

/// What the lines of a config add up to.
#[verifier::ext_equal]
pub struct ConfigView {
    /// The theme asked for
    pub requested: Seq<char>,
    /// The section that the lines are in
    pub current: Seq<char>,
    /// The sections, in the order in which they were first defined
    pub sections: Seq<Seq<char>>,
    /// The values of the keys of the sections
    pub values: Map<(Seq<char>, Seq<char>), Seq<char>>,
}

impl ConfigView {
    /// Nothing said yet.
    pub open spec fn empty() -> ConfigView {
        ConfigView { requested: seq![], current: seq![], sections: seq![], values: Map::empty() }
    }

    /// One more line. Before the first section, only the theme is asked for.
    pub open spec fn with_line(self, raw: Seq<char>) -> ConfigView {
        match config_line(raw) {
            ConfigLine::Nothing => self,
            ConfigLine::Section(name) => ConfigView {
                current: name,
                sections: if self.sections.contains(name) {
                    self.sections
                } else {
                    self.sections.push(name)
                },
                ..self
            },
            ConfigLine::Setting(k, v) => if self.current.len() > 0 {
                ConfigView { values: self.values.insert((self.current, k), v), ..self }
            } else if k == "theme"@ {
                ConfigView { requested: v, ..self }
            } else {
                self
            },
        }
    }
}

/// What the lines of a config add up to.
pub open spec fn config_of(lines: Seq<Seq<char>>) -> ConfigView
    decreases lines.len(),
{
    if lines.len() == 0 {
        ConfigView::empty()
    } else {
        config_of(lines.drop_last()).with_line(lines.last())
    }
}

/// The name of the desktop theme, as far as there is one.
pub open spec fn desktop_name(recorded: Option<Seq<char>>) -> Seq<char> {
    match recorded {
        Some(t) => text::trimmed(t),
        None => seq![],
    }
}

/// The palette that a config makes active. "auto" follows the desktop theme.
/// If that name has no section, the first one defined stands in rather than
/// losing all colour.
pub open spec fn active_name(config: ConfigView, recorded: Option<Seq<char>>) -> Seq<char> {
    let asked = if config.requested.len() == 0 || config.requested == "auto"@ {
        desktop_name(recorded)
    } else {
        config.requested
    };
    if !config.sections.contains(asked) && config.sections.len() > 0 {
        config.sections[0]
    } else {
        asked
    }
}

/// The colour of a key of a section; without one, the given colour.
pub open spec fn picked_color(
    config: ConfigView,
    section: Seq<char>,
    key: Seq<char>,
    otherwise: Color,
) -> Color {
    if config.values.contains_key((section, key)) {
        color_of(config.values[(section, key)])
    } else {
        otherwise
    }
}

/// The theme that a config makes active. Keys left out fall back to
/// Catppuccin Mocha, and so does a config without sections.
pub open spec fn theme_in(config: ConfigView, recorded: Option<Seq<char>>) -> ThemeView {
    let name = active_name(config, recorded);
    let mocha = ThemeView::mocha();
    if !config.sections.contains(name) {
        mocha
    } else {
        ThemeView {
            name,
            base: picked_color(config, name, "base"@, mocha.base),
            mantle: picked_color(config, name, "mantle"@, mocha.mantle),
            surface0: picked_color(config, name, "surface0"@, mocha.surface0),
            surface1: picked_color(config, name, "surface1"@, mocha.surface1),
            overlay0: picked_color(config, name, "overlay0"@, mocha.overlay0),
            subtext0: picked_color(config, name, "subtext0"@, mocha.subtext0),
            text: picked_color(config, name, "text"@, mocha.text),
            mauve: picked_color(config, name, "mauve"@, mocha.mauve),
            blue: picked_color(config, name, "blue"@, mocha.blue),
            red: picked_color(config, name, "red"@, mocha.red),
            green: picked_color(config, name, "green"@, mocha.green),
            yellow: picked_color(config, name, "yellow"@, mocha.yellow),
            peach: picked_color(config, name, "peach"@, mocha.peach),
            hover: picked_color(config, name, "hover"@, mocha.hover),
            selected: picked_color(config, name, "selected"@, mocha.selected),
        }
    }
}

/// Whether the value of a key, if it has one, can be read as a colour.
pub open spec fn is_color_key(config: ConfigView, section: Seq<char>, key: Seq<char>) -> bool {
    config.values.contains_key((section, key)) ==> is_color_text(config.values[(section, key)])
}

/// Whether the colours of the active palette can be read.
pub open spec fn has_readable_colors(config: ConfigView, recorded: Option<Seq<char>>) -> bool {
    let name = active_name(config, recorded);
    config.sections.contains(name) ==> {
        &&& is_color_key(config, name, "base"@)
        &&& is_color_key(config, name, "mantle"@)
        &&& is_color_key(config, name, "surface0"@)
        &&& is_color_key(config, name, "surface1"@)
        &&& is_color_key(config, name, "overlay0"@)
        &&& is_color_key(config, name, "subtext0"@)
        &&& is_color_key(config, name, "text"@)
        &&& is_color_key(config, name, "mauve"@)
        &&& is_color_key(config, name, "blue"@)
        &&& is_color_key(config, name, "red"@)
        &&& is_color_key(config, name, "green"@)
        &&& is_color_key(config, name, "yellow"@)
        &&& is_color_key(config, name, "peach"@)
        &&& is_color_key(config, name, "hover"@)
        &&& is_color_key(config, name, "selected"@)
    }
}

/// The theme of a config text; without a config, Catppuccin Mocha.
pub open spec fn theme_of(config: Option<Seq<char>>, recorded: Option<Seq<char>>) -> ThemeView {
    match config {
        Some(t) => theme_in(config_of(text::lines_of(t)), recorded),
        None => ThemeView::mocha(),
    }
}

/// Whether the colours that a config text makes active can be read.
pub open spec fn is_readable(config: Option<Seq<char>>, recorded: Option<Seq<char>>) -> bool {
    config matches Some(t) ==> has_readable_colors(config_of(text::lines_of(t)), recorded)
}

/// A value in the config.
struct Setting {
    section: String,
    key: String,
    value: String,
}

/// The values that a list of settings leaves, the later over the earlier.
spec fn values_of(settings: Seq<Setting>) -> Map<(Seq<char>, Seq<char>), Seq<char>>
    decreases settings.len(),
{
    if settings.len() == 0 {
        Map::empty()
    } else {
        let s = settings.last();
        values_of(settings.drop_last()).insert((s.section@, s.key@), s.value@)
    }
}

/// A config read line by line.
struct Config {
    requested: String,
    current: String,
    sections: Vec<String>,
    settings: Vec<Setting>,
}

impl View for Config {
    type V = ConfigView;

    closed spec fn view(&self) -> ConfigView {
        ConfigView {
            requested: self.requested@,
            current: self.current@,
            sections: text::texts(self.sections@),
            values: values_of(self.settings@),
        }
    }
}

impl Config {
    /// Reads a config.
    fn read(config: &str) -> (r: Config)
        ensures
            r@ == config_of(text::lines_of(config@)),
    {
        let chars = text::chars_of(config);
        let lines = text::lines(chars.as_slice());
        let ghost all = text::slices(lines@);
        let mut out = Config {
            requested: String::new(),
            current: String::new(),
            sections: Vec::new(),
            settings: Vec::new(),
        };
        assert(out@ =~= ConfigView::empty());
        for i in 0..lines.len()
            invariant
                all == text::slices(lines@),
                out@ == config_of(all.take(i as int)),
        {
            proof {
                assert(all.take(i + 1).drop_last() =~= all.take(i as int));
                assert(all.take(i + 1).last() == lines@[i as int]@);
            }
            out.add_line(lines[i]);
        }
        assert(all.take(lines@.len() as int) =~= all);
        out
    }

    /// Takes one more line in.
    fn add_line(&mut self, raw: &[char])
        ensures
            final(self)@ == old(self)@.with_line(raw@),
    {
        // NOTE: '#' starts a comment, but colours are '#rrggbb' too. Comments
        // only count at the start of a line.
        let line = text::trim(raw);
        if line.len() == 0 || line[0] == '#' {
            return;
        }
        let n = line.len();
        if n >= 2 && line[0] == '[' && line[n - 1] == ']' {
            let name = text::trim_string(vstd::slice::slice_subrange(line, 1, n - 1));
            if !text::holds(&self.sections, name.as_str()) {
                let ghost before = text::texts(self.sections@);
                self.sections.push(name.clone());
                assert(text::texts(self.sections@) =~= before.push(name@));
            }
            self.current = name;
            return;
        }
        match text::split_once(line, '=') {
            Some((k, v)) => {
                let key = text::trim_string(k);
                let value = text::trim_string(v);
                if self.current.as_str().is_empty() {
                    if text::equal(key.as_str(), "theme") {
                        self.requested = value;
                    }
                } else {
                    let ghost before = self.settings@;
                    self.settings.push(Setting { section: self.current.clone(), key, value });
                    assert(self.settings@.drop_last() =~= before);
                }
            },
            None => {},
        }
    }

    /// The value of a key of a section.
    fn value(&self, section: &str, key: &str) -> (r: Option<&String>)
        ensures
            match r {
                Some(v) => self@.values.contains_key((section@, key@)) && v@ == self@.values[(
                    section@,
                    key@,
                )],
                None => !self@.values.contains_key((section@, key@)),
            },
    {
        let ghost all = self.settings@;
        let mut i: usize = self.settings.len();
        assert(all.take(i as int) =~= all);
        while i > 0
            invariant
                i <= all.len(),
                all == self.settings@,
                values_of(all).contains_key((section@, key@)) == values_of(
                    all.take(i as int),
                ).contains_key((section@, key@)),
                values_of(all)[(section@, key@)] == values_of(all.take(i as int))[(
                    section@,
                    key@,
                )],
            decreases i,
        {
            let s = &self.settings[i - 1];
            assert(all.take(i as int).last() == all[i - 1]);
            assert(all.take(i as int).drop_last() =~= all.take(i - 1));
            if text::equal(s.section.as_str(), section) && text::equal(s.key.as_str(), key) {
                return Some(&s.value);
            }
            i -= 1;
        }
        None
    }

    /// The palette that the config makes active.
    fn active(&self, recorded: Option<&str>) -> (r: String)
        ensures
            r@ == active_name(self@, view_of(recorded)),
    {
        let asked = if self.requested.as_str().is_empty() || text::equal(
            self.requested.as_str(),
            "auto",
        ) {
            match recorded {
                Some(t) => {
                    let chars = text::chars_of(t);
                    text::trim_string(chars.as_slice())
                },
                None => String::new(),
            }
        } else {
            self.requested.clone()
        };
        if !text::holds(&self.sections, asked.as_str()) && self.sections.len() > 0 {
            self.sections[0].clone()
        } else {
            asked
        }
    }

    /// Whether the value of a key, if it has one, can be read as a colour.
    fn can_read(&self, section: &str, key: &str) -> (r: bool)
        ensures
            r == is_color_key(self@, section@, key@),
    {
        match self.value(section, key) {
            Some(v) => can_read_color(v.as_str()),
            None => true,
        }
    }

    /// The colour of a key of a section; without one, the given colour.
    fn pick(&self, section: &str, key: &str, otherwise: Color) -> (r: Color)
        requires
            is_color_key(self@, section@, key@),
        ensures
            r == picked_color(self@, section@, key@, otherwise),
    {
        match self.value(section, key) {
            Some(v) => rgb(v.as_str()),
            None => otherwise,
        }
    }
}

/// The text of an optional string.
pub open spec fn view_of(s: Option<&str>) -> Option<Seq<char>> {
    match s {
        Some(t) => Some(t@),
        None => None,
    }
}

/// Whether the colours that a config makes active can be read: none of them
/// is a text of six bytes whose pairs cut a character apart.
pub fn can_parse(config: Option<&str>, recorded: Option<&str>) -> (r: bool)
    ensures
        r == is_readable(view_of(config), view_of(recorded)),
{
    match config {
        Some(t) => {
            let c = Config::read(t);
            let active = c.active(recorded);
            let name = active.as_str();
            if !text::holds(&c.sections, name) {
                return true;
            }
            c.can_read(name, "base")
                && c.can_read(name, "mantle")
                && c.can_read(name, "surface0")
                && c.can_read(name, "surface1")
                && c.can_read(name, "overlay0")
                && c.can_read(name, "subtext0")
                && c.can_read(name, "text")
                && c.can_read(name, "mauve")
                && c.can_read(name, "blue")
                && c.can_read(name, "red")
                && c.can_read(name, "green")
                && c.can_read(name, "yellow")
                && c.can_read(name, "peach")
                && c.can_read(name, "hover")
                && c.can_read(name, "selected")
        },
        None => true,
    }
}

/// Simple sectioned config:
///
///     theme = nord
///     [nord]
///     base = #2e3440
///
/// Too small a job to pull in a TOML parser, and easier to hand-edit this way.
/// `recorded` is what the desktop records its theme with.
pub fn parse(config: &str, recorded: Option<&str>) -> (r: Theme)
    requires
        is_readable(Some(config@), view_of(recorded)),
    ensures
        r@ == theme_of(Some(config@), view_of(recorded)),
{
    let c = Config::read(config);
    let active = c.active(recorded);
    let mocha = Theme::default();
    if !text::holds(&c.sections, active.as_str()) {
        return mocha;
    }
    let name = active.as_str();
    let base = c.pick(name, "base", mocha.base);
    let mantle = c.pick(name, "mantle", mocha.mantle);
    let surface0 = c.pick(name, "surface0", mocha.surface0);
    let surface1 = c.pick(name, "surface1", mocha.surface1);
    let overlay0 = c.pick(name, "overlay0", mocha.overlay0);
    let subtext0 = c.pick(name, "subtext0", mocha.subtext0);
    let text = c.pick(name, "text", mocha.text);
    let mauve = c.pick(name, "mauve", mocha.mauve);
    let blue = c.pick(name, "blue", mocha.blue);
    let red = c.pick(name, "red", mocha.red);
    let green = c.pick(name, "green", mocha.green);
    let yellow = c.pick(name, "yellow", mocha.yellow);
    let peach = c.pick(name, "peach", mocha.peach);
    let hover = c.pick(name, "hover", mocha.hover);
    let selected = c.pick(name, "selected", mocha.selected);
    Theme {
        name: active,
        base,
        mantle,
        surface0,
        surface1,
        overlay0,
        subtext0,
        text,
        mauve,
        blue,
        red,
        green,
        yellow,
        peach,
        hover,
        selected,
    }
}

/// The theme of a config; without one, the default.
pub fn load(config: Option<&str>, recorded: Option<&str>) -> (r: Theme)
    requires
        is_readable(view_of(config), view_of(recorded)),
    ensures
        r@ == theme_of(view_of(config), view_of(recorded)),
{
    match config {
        Some(t) => parse(t, recorded),
        None => Theme::default(),
    }
}

// ---------------------------------------------------------------------------
// What a config promises
// ---------------------------------------------------------------------------

/// A palette asked for by name is pinned, whatever the desktop's theme is.
pub proof fn law_named_palette_is_pinned(config: ConfigView, recorded: Option<Seq<char>>)
    requires
        config.requested.len() > 0,
        config.requested != "auto"@,
        config.sections.contains(config.requested),
    ensures
        theme_in(config, recorded).name == config.requested,
        theme_in(config, recorded) == theme_in(config, None),
{
}

/// Asking for "auto", or for nothing, follows the desktop's theme.
pub proof fn law_auto_follows_the_desktop(config: ConfigView, recorded: Seq<char>)
    requires
        config.requested.len() == 0 || config.requested == "auto"@,
        config.sections.contains(text::trimmed(recorded)),
    ensures
        theme_in(config, Some(recorded)).name == text::trimmed(recorded),
{
}

/// A name that has no section gives way to the first section defined.
pub proof fn law_unknown_name_gives_first_section(config: ConfigView, recorded: Option<Seq<char>>)
    requires
        config.sections.len() > 0,
        config.requested.len() == 0 || config.requested == "auto"@ ==> !config.sections.contains(
            desktop_name(recorded),
        ),
        config.requested.len() > 0 && config.requested != "auto"@ ==> !config.sections.contains(
            config.requested,
        ),
    ensures
        theme_in(config, recorded).name == config.sections[0],
{
    assert(config.sections.contains(config.sections[0]));
}

/// Whatever key a palette leaves out falls back to Catppuccin Mocha.
pub proof fn law_missing_keys_fall_back(config: ConfigView, recorded: Option<Seq<char>>)
    ensures
        ({
            let name = active_name(config, recorded);
            let theme = theme_in(config, recorded);
            let mocha = ThemeView::mocha();
            &&& !config.values.contains_key((name, "base"@)) ==> theme.base == mocha.base
            &&& !config.values.contains_key((name, "mantle"@)) ==> theme.mantle == mocha.mantle
            &&& !config.values.contains_key((name, "surface0"@)) ==> theme.surface0 == mocha.surface0
            &&& !config.values.contains_key((name, "surface1"@)) ==> theme.surface1 == mocha.surface1
            &&& !config.values.contains_key((name, "overlay0"@)) ==> theme.overlay0 == mocha.overlay0
            &&& !config.values.contains_key((name, "subtext0"@)) ==> theme.subtext0 == mocha.subtext0
            &&& !config.values.contains_key((name, "text"@)) ==> theme.text == mocha.text
            &&& !config.values.contains_key((name, "mauve"@)) ==> theme.mauve == mocha.mauve
            &&& !config.values.contains_key((name, "blue"@)) ==> theme.blue == mocha.blue
            &&& !config.values.contains_key((name, "red"@)) ==> theme.red == mocha.red
            &&& !config.values.contains_key((name, "green"@)) ==> theme.green == mocha.green
            &&& !config.values.contains_key((name, "yellow"@)) ==> theme.yellow == mocha.yellow
            &&& !config.values.contains_key((name, "peach"@)) ==> theme.peach == mocha.peach
            &&& !config.values.contains_key((name, "hover"@)) ==> theme.hover == mocha.hover
            &&& !config.values.contains_key((name, "selected"@)) ==> theme.selected == mocha.selected
        }),
{
}

/// A line that begins with a number sign, or is empty, changes nothing
/// wherever it stands.
pub proof fn law_comments_say_nothing(
    before: Seq<Seq<char>>,
    comment: Seq<char>,
    after: Seq<Seq<char>>,
)
    requires
        text::trimmed(comment).len() == 0 || text::trimmed(comment)[0] == '#',
    ensures
        config_of(before + seq![comment] + after) == config_of(before + after),
    decreases after.len(),
{
    let with = before + seq![comment] + after;
    let without = before + after;
    if after.len() == 0 {
        assert(with.drop_last() =~= before);
        assert(with.last() == comment);
        assert(without =~= before);
    } else {
        law_comments_say_nothing(before, comment, after.drop_last());
        assert(with.drop_last() =~= before + seq![comment] + after.drop_last());
        assert(without.drop_last() =~= before + after.drop_last());
        assert(with.last() == after.last());
        assert(without.last() == after.last());
    }
}

// ---------------------------------------------------------------------------
// Reloading
// ---------------------------------------------------------------------------

/// When the two files of the theme last changed, in nanoseconds; `None` for a
/// file that is not there.
#[derive(Debug, Clone, Copy)]
pub struct Stamps {
    pub config: Option<i128>,
    pub desktop: Option<i128>,
}

/// Whether two times are the same.
fn same_time(a: Option<i128>, b: Option<i128>) -> (r: bool)
    ensures
        r == (a == b),
{
    match (a, b) {
        (Some(x), Some(y)) => x == y,
        (None, None) => true,
        _ => false,
    }
}

/// The active theme, and the state of the files that it was read from.
pub struct ThemeCache {
    pub theme: Option<Theme>,
    pub stamps: Option<Stamps>,
}

impl ThemeCache {
    /// The theme that was read last.
    pub open spec fn current(&self) -> Option<ThemeView> {
        match self.theme {
            Some(t) => Some(t@),
            None => None,
        }
    }

    /// Nothing read yet.
    pub fn new() -> (r: ThemeCache)
        ensures
            r.current() is None,
            r.stamps is None,
    {
        ThemeCache { theme: None, stamps: None }
    }

    /// Whether the theme was read from the files as they are.
    pub fn is_current(&self, now: Stamps) -> (r: bool)
        ensures
            r == (self.stamps == Some(now)),
    {
        match self.stamps {
            Some(s) => same_time(s.config, now.config) && same_time(s.desktop, now.desktop),
            None => false,
        }
    }

    /// Reads the theme anew.
    pub fn reload(&mut self, now: Stamps, config: Option<&str>, recorded: Option<&str>)
        requires
            is_readable(view_of(config), view_of(recorded)),
        ensures
            final(self).current() == Some(theme_of(view_of(config), view_of(recorded))),
            final(self).stamps == Some(now),
    {
        self.theme = Some(load(config, recorded));
        self.stamps = Some(now);
    }
}

/// Whether two themes have the same name and the same colours.
fn same_theme(a: &Theme, b: &Theme) -> (r: bool)
    ensures
        r == (a@ == b@),
{
    let r = text::equal(a.name.as_str(), b.name.as_str()) && a.base == b.base
        && a.mantle == b.mantle && a.surface0 == b.surface0 && a.surface1 == b.surface1
        && a.overlay0 == b.overlay0 && a.subtext0 == b.subtext0 && a.text == b.text
        && a.mauve == b.mauve && a.blue == b.blue && a.red == b.red && a.green == b.green
        && a.yellow == b.yellow && a.peach == b.peach && a.hover == b.hover
        && a.selected == b.selected;
    assert(r ==> a@ =~= b@);
    r
}

/// Re-read the config if either file changed on disk. Returns true when the
/// theme actually changed, so the caller can redraw.
pub fn reload_if_changed(
    cache: &mut ThemeCache,
    now: Stamps,
    config: Option<&str>,
    recorded: Option<&str>,
) -> (r: bool)
    requires
        is_readable(view_of(config), view_of(recorded)),
    ensures
        old(cache).stamps == Some(now) ==> !r && *final(cache) == *old(cache),
        old(cache).stamps != Some(now) ==> {
            let theme = theme_of(view_of(config), view_of(recorded));
            &&& final(cache).current() == Some(theme)
            &&& final(cache).stamps == Some(now)
            &&& r == (old(cache).current() matches Some(was) && was != theme)
        },
{
    if cache.is_current(now) {
        return false;
    }
    let theme = load(config, recorded);
    let changed = match &cache.theme {
        Some(was) => !same_theme(was, &theme),
        None => false,
    };
    cache.theme = Some(theme);
    cache.stamps = Some(now);
    changed
}

// ---------------------------------------------------------------------------
// Where the files are
// ---------------------------------------------------------------------------

/// Where the theme config is kept: under $XDG_CONFIG_HOME, or under .config in
/// $HOME where that is not set.
pub open spec fn config_path_of(xdg: Option<Seq<char>>, home: Seq<char>) -> Seq<char> {
    let dir = match xdg {
        Some(d) => d,
        None => paths::below(home, ".config"@),
    };
    paths::below(paths::below(dir, "noull-pm"@), "theme.conf"@)
}

/// Where the theme config is kept.
pub fn config_path(xdg: Option<&str>, home: &str) -> (r: String)
    ensures
        r@ == config_path_of(view_of(xdg), home@),
{
    proof {
        reveal_strlit(".config");
        reveal_strlit("noull-pm");
        reveal_strlit("theme.conf");
    }
    let dir = match xdg {
        Some(d) => d.to_string(),
        None => paths::join(home, ".config"),
    };
    let own = paths::join(dir.as_str(), "noull-pm");
    paths::join(own.as_str(), "theme.conf")
}

/// Where `qs-theme` records the active desktop theme.
pub open spec fn system_theme_path_of(home: Seq<char>) -> Seq<char> {
    paths::below(paths::below(paths::below(home, ".config"@), "quickshell"@), "theme.txt"@)
}

/// Where `qs-theme` records the active desktop theme.
pub fn system_theme_path(home: &str) -> (r: String)
    ensures
        r@ == system_theme_path_of(home@),
{
    proof {
        reveal_strlit(".config");
        reveal_strlit("quickshell");
        reveal_strlit("theme.txt");
    }
    let config = paths::join(home, ".config");
    let dir = paths::join(config.as_str(), "quickshell");
    paths::join(dir.as_str(), "theme.txt")
}

/// Written on first run. Ships the rice's palettes so the tool matches the
/// desktop out of the box.
pub const DEFAULT_CONFIG: &'static str = r#"# NoULL' PM theme config
#
# "auto" follows the desktop theme: the active name is read from
# ~/.config/quickshell/theme.txt, which is what qs-theme writes. Switching the
# desktop theme switches this too, even while the app is open. Put a palette
# name here instead to pin it.
#
# To add your own, open a new [name] section and fill in the same keys; any key
# you leave out falls back to Catppuccin Mocha. Key names match
# ~/.config/quickshell/palettes.json so colours can be copied straight across.
#
# Colours are #rrggbb. Where each is used:
#   base      background
#   mantle    list row background
#   surface0  borders
#   surface1  thin separators, secondary fills
#   overlay0  dim text (file paths, help line)
#   subtext0  secondary text
#   text      primary text
#   mauve     accent: titles, active tab, cursor
#   blue      section headings, repo badge
#   red       danger: MEGA delete, missing dependency
#   green     positive: installed, marked
#   yellow    orphaned packages
#   peach     AUR badge
#   hover     hovered row
#   selected  selected row

theme = auto

[catppuccin-mocha]
base     = #1e1e2e
mantle   = #181825
surface0 = #313244
surface1 = #45475a
overlay0 = #6c7086
subtext0 = #a6adc8
text     = #cdd6f4
mauve    = #cba6f7
blue     = #89b4fa
red      = #f38ba8
green    = #a6e3a1
yellow   = #f9e2af
peach    = #fab387
hover    = #232336
selected = #2a2b3d

[monochrome]
base     = #0f0f0f
mantle   = #0a0a0a
surface0 = #1e1e1e
surface1 = #2e2e2e
overlay0 = #6e6e6e
subtext0 = #9a9a9a
text     = #ebebeb
mauve    = #e0e0e0
blue     = #a8a8a8
red      = #f5f5f5
green    = #c2c2c2
yellow   = #d6d6d6
peach    = #e8e8e8
hover    = #171717
selected = #262626

[gruvbox]
base     = #282828
mantle   = #1d2021
surface0 = #3c3836
surface1 = #504945
overlay0 = #7c6f64
subtext0 = #a89984
text     = #ebdbb2
mauve    = #d3869b
blue     = #83a598
red      = #fb4934
green    = #b8bb26
yellow   = #fabd2f
peach    = #fe8019
hover    = #32302f
selected = #3c3836

[nord]
base     = #2e3440
mantle   = #272c36
surface0 = #3b4252
surface1 = #434c5e
overlay0 = #616e88
subtext0 = #c8ced9
text     = #eceff4
mauve    = #88c0d0
blue     = #81a1c1
red      = #bf616a
green    = #a3be8c
yellow   = #ebcb8b
peach    = #d08770
hover    = #353b47
selected = #3b4252

[everforest]
base     = #2d353b
mantle   = #272e33
surface0 = #343f44
surface1 = #3d484d
overlay0 = #7a8478
subtext0 = #9da9a0
text     = #d3c6aa
mauve    = #a7c080
blue     = #7fbbb3
red      = #e67e80
green    = #a7c080
yellow   = #dbbc7f
peach    = #e69875
hover    = #323c41
selected = #3d484d
"#;

} // verus!
