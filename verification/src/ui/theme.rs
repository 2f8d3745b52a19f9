//! The visual theme: one source of truth for colours and styles. A palette is kept as
//! seven `#rrggbb` strings; a malformed one falls back to the matching colour of the
//! default palette, so every slot of a resolved theme is an RGB colour.
use vstd::prelude::*;

use crate::text::{
    chars_of, digit_in, digit_value, hex_char, hex_char_of, owned, same, skip_space,
    skip_space_back, trim, trimmed,
};

verus! {

/// A colour. Themes only ever hold RGB ones.
#[derive(Clone, Copy, PartialEq, Eq, Structural, Debug)]
pub enum Color {
    Rgb(u8, u8, u8),
}

/// The resolved palette that drawing reads.
#[derive(Clone, Copy, PartialEq, Eq, Structural, Debug)]
pub struct Theme {
    pub bg: Color,
    pub panel: Color,
    pub fg: Color,
    pub dim: Color,
    pub accent: Color,
    pub accent2: Color,
    pub border: Color,
}

/// How a run of text is drawn.
#[derive(Clone, Copy, PartialEq, Eq, Structural, Debug)]
pub struct TextStyle {
    pub fg: Option<Color>,
    pub bg: Option<Color>,
    pub bold: bool,
    pub italic: bool,
    pub underlined: bool,
    pub crossed_out: bool,
    pub reversed: bool,
}

impl TextStyle {
    /// No colour and no modifier.
    pub open spec fn unstyled() -> TextStyle {
        TextStyle {
            fg: None,
            bg: None,
            bold: false,
            italic: false,
            underlined: false,
            crossed_out: false,
            reversed: false,
        }
    }

    /// A text colour alone.
    pub open spec fn in_color(c: Color) -> TextStyle {
        TextStyle { fg: Some(c), ..TextStyle::unstyled() }
    }

    /// A text colour on a background.
    pub open spec fn in_colors(fg: Color, bg: Color) -> TextStyle {
        TextStyle { fg: Some(fg), bg: Some(bg), ..TextStyle::unstyled() }
    }

    /// No colour and no modifier.
    pub fn new() -> (r: TextStyle)
        ensures
            r == TextStyle::unstyled(),
    {
        TextStyle {
            fg: None,
            bg: None,
            bold: false,
            italic: false,
            underlined: false,
            crossed_out: false,
            reversed: false,
        }
    }

    /// A text colour alone.
    pub fn fg(c: Color) -> (r: TextStyle)
        ensures
            r == TextStyle::in_color(c),
    {
        TextStyle { fg: Some(c), ..TextStyle::new() }
    }

    /// A text colour on a background.
    pub fn on(fg: Color, bg: Color) -> (r: TextStyle)
        ensures
            r == TextStyle::in_colors(fg, bg),
    {
        TextStyle { fg: Some(fg), bg: Some(bg), ..TextStyle::new() }
    }
}

/// The seven slots as `#rrggbb` strings: the unit that presets and the editor work with.
#[derive(PartialEq, Eq, Debug)]
pub struct ThemeColors {
    pub bg: String,
    pub panel: String,
    pub fg: String,
    pub dim: String,
    pub accent: String,
    pub accent2: String,
    pub border: String,
}

/// [`ThemeColors`] over sequences.
pub struct SpecColors {
    pub bg: Seq<char>,
    pub panel: Seq<char>,
    pub fg: Seq<char>,
    pub dim: Seq<char>,
    pub accent: Seq<char>,
    pub accent2: Seq<char>,
    pub border: Seq<char>,
}

impl View for ThemeColors {
    type V = SpecColors;

    open spec fn view(&self) -> SpecColors {
        SpecColors {
            bg: self.bg@,
            panel: self.panel@,
            fg: self.fg@,
            dim: self.dim@,
            accent: self.accent@,
            accent2: self.accent2@,
            border: self.border@,
        }
    }
}

impl Clone for ThemeColors {
    fn clone(&self) -> (r: Self)
        ensures
            r@ == self@,
    {
        ThemeColors {
            bg: self.bg.clone(),
            panel: self.panel.clone(),
            fg: self.fg.clone(),
            dim: self.dim.clone(),
            accent: self.accent.clone(),
            accent2: self.accent2.clone(),
            border: self.border.clone(),
        }
    }
}

/// The names of the seven slots, in display order.
pub const SLOTS: [&'static str; 7] = [
    "background",
    "panel",
    "foreground",
    "dim",
    "accent",
    "accent 2",
    "border",
];

/// Built-in preset names, in picker order. The first is the default.
pub const PRESETS: [&'static str; 3] = ["modern-dark", "light", "high-contrast"];

// --- Hex colours ------------------------------------------------------------------

/// Two lowercase hexadecimal digits for a byte.
pub open spec fn hex_pair(b: u8) -> Seq<char> {
    seq![hex_char((b / 16) as nat), hex_char((b % 16) as nat)]
}

/// The lowercase `#rrggbb` of a triple.
pub open spec fn hex_text(rgb: [u8; 3]) -> Seq<char> {
    seq!['#'] + hex_pair(rgb@[0]) + hex_pair(rgb@[1]) + hex_pair(rgb@[2])
}

/// What the six digits of a colour are read from: the text without the space around it
/// and the `#` before it.
pub open spec fn hex_body(s: Seq<char>) -> Seq<char> {
    let t = trimmed(s);
    if t.len() > 0 && t[0] == '#' {
        t.skip(1)
    } else {
        t
    }
}

/// `h` is six hexadecimal digits.
pub open spec fn is_hex_color(h: Seq<char>) -> bool {
    &&& h.len() == 6
    &&& forall|i: int| 0 <= i < 6 ==> digit_value(#[trigger] h[i], 16) is Some
}

/// The byte that two hexadecimal digits spell.
pub open spec fn pair_value(h: Seq<char>, i: int) -> nat {
    digit_value(h[i], 16)->0 * 16 + digit_value(h[i + 1], 16)->0
}

/// `rgb` is the colour that the text spells.
pub open spec fn spells(s: Seq<char>, rgb: [u8; 3]) -> bool {
    let h = hex_body(s);
    &&& is_hex_color(h)
    &&& rgb@[0] == pair_value(h, 0)
    &&& rgb@[1] == pair_value(h, 2)
    &&& rgb@[2] == pair_value(h, 4)
}

fn pair_at(h: &Vec<char>, i: usize) -> (r: u8)
    requires
        i + 1 < h.len(),
        digit_value(h@[i as int], 16) is Some,
        digit_value(h@[i + 1], 16) is Some,
    ensures
        r == pair_value(h@, i as int),
{
    match (digit_in(h[i], 16), digit_in(h[i + 1], 16)) {
        (Some(a), Some(b)) => (a * 16 + b) as u8,
        _ => 0,
    }
}

/// Parse a `#rrggbb` or `rrggbb` colour; nothing else is one.
pub fn parse_hex(s: &str) -> (r: Option<[u8; 3]>)
    ensures
        match r {
            Some(rgb) => spells(s@, rgb),
            None => !is_hex_color(hex_body(s@)),
        },
{
    let t = trim(s);
    let v = chars_of(t.as_str());
    let a: usize = if v.len() > 0 && v[0] == '#' {
        1
    } else {
        0
    };
    let ghost h = v@.skip(a as int);
    assert(h =~= hex_body(s@));
    if v.len() - a != 6 {
        return None;
    }
    let mut i: usize = a;
    while i < v.len()
        invariant
            a <= i <= v@.len(),
            v@.len() - a == 6,
            h == v@.skip(a as int),
            h == hex_body(s@),
            forall|k: int| 0 <= k < i - a ==> digit_value(#[trigger] h[k], 16) is Some,
        decreases v@.len() - i,
    {
        assert(h[i - a] == v@[i as int]);
        if digit_in(v[i], 16).is_none() {
            return None;
        }
        i = i + 1;
    }
    assert(is_hex_color(h));
    assert forall|k: int| 0 <= k < 6 implies digit_value(#[trigger] v@[a + k], 16) is Some by {
        assert(h[k] == v@[a + k]);
    }
    assert(h[0] == v@[a + 0] && h[1] == v@[a + 1] && h[2] == v@[a + 2]);
    assert(h[3] == v@[a + 3] && h[4] == v@[a + 4] && h[5] == v@[a + 5]);
    let r = pair_at(&v, a);
    let g = pair_at(&v, a + 2);
    let b = pair_at(&v, a + 4);
    Some([r, g, b])
}

/// Format a triple as a lowercase `#rrggbb` string.
pub fn to_hex(rgb: [u8; 3]) -> (r: String)
    ensures
        r@ == hex_text(rgb),
{
    let mut out = String::new();
    out.push('#');
    let mut i: usize = 0;
    let ghost whole = hex_text(rgb);
    while i < 3
        invariant
            i <= 3,
            whole == hex_text(rgb),
            out@ == whole.take(1 + 2 * i as int),
        decreases 3 - i,
    {
        let b = rgb[i];
        out.push(hex_char_of((b / 16) as u64));
        out.push(hex_char_of((b % 16) as u64));
        assert(out@ =~= whole.take(1 + 2 * (i + 1) as int));
        i = i + 1;
    }
    assert(whole.take(7) =~= whole);
    out
}

/// A `#` and six hexadecimal digits are read digit by digit.
proof fn lemma_plain_hex(s: Seq<char>)
    requires
        s.len() == 7,
        s[0] == '#',
        forall|i: int| 1 <= i < 7 ==> digit_value(#[trigger] s[i], 16) is Some,
    ensures
        hex_body(s) == s.skip(1),
        is_hex_color(hex_body(s)),
{
    assert(digit_value(s[6], 16) is Some);
    assert(digit_value(s[1], 16) is Some);
    assert(trimmed(s) =~= s) by {
        assert(skip_space(s, 0) == 0);
        assert(skip_space_back(s, 0, 7) == 7);
    }
}

/// A formatted colour parses to itself.
pub proof fn law_hex_round_trips(rgb: [u8; 3])
    ensures
        spells(hex_text(rgb), rgb),
{
    let s = hex_text(rgb);
    assert(s.len() == 7);
    assert forall|d: nat| d < 16 implies digit_value(#[trigger] hex_char(d), 16) == Some(d) by {}
    assert forall|i: int| 1 <= i < 7 implies digit_value(#[trigger] s[i], 16) is Some by {}
    lemma_plain_hex(s);
    let h = hex_body(s);
    assert(h =~= hex_pair(rgb@[0]) + hex_pair(rgb@[1]) + hex_pair(rgb@[2]));
}

/// A text spells at most one colour.
pub proof fn law_one_color_per_text(s: Seq<char>, a: [u8; 3], b: [u8; 3])
    requires
        spells(s, a),
        spells(s, b),
    ensures
        a == b,
{
    assert(a =~= b);
}

// --- Palettes ---------------------------------------------------------------------

/// The default palette.
pub open spec fn modern_dark_colors() -> SpecColors {
    SpecColors {
        bg: "#1a1b26"@,
        panel: "#24283b"@,
        fg: "#c0caf5"@,
        dim: "#565f89"@,
        accent: "#7dcfff"@,
        accent2: "#bb9af7"@,
        border: "#292e42"@,
    }
}

/// The light palette.
pub open spec fn light_colors() -> SpecColors {
    SpecColors {
        bg: "#fafafa"@,
        panel: "#eceff4"@,
        fg: "#2e3440"@,
        dim: "#7b8394"@,
        accent: "#1a73e8"@,
        accent2: "#8250df"@,
        border: "#d6dae0"@,
    }
}

/// The high-contrast palette.
pub open spec fn high_contrast_colors() -> SpecColors {
    SpecColors {
        bg: "#000000"@,
        panel: "#141414"@,
        fg: "#ffffff"@,
        dim: "#b0b0b0"@,
        accent: "#ffd000"@,
        accent2: "#00e5ff"@,
        border: "#ffffff"@,
    }
}

/// The preset with a name.
pub open spec fn preset_colors(name: Seq<char>) -> Option<SpecColors> {
    if name == "modern-dark"@ {
        Some(modern_dark_colors())
    } else if name == "light"@ {
        Some(light_colors())
    } else if name == "high-contrast"@ {
        Some(high_contrast_colors())
    } else {
        None
    }
}

impl SpecColors {
    /// Slot `i`, in display order.
    pub open spec fn slot(self, i: int) -> Seq<char> {
        if i == 0 {
            self.bg
        } else if i == 1 {
            self.panel
        } else if i == 2 {
            self.fg
        } else if i == 3 {
            self.dim
        } else if i == 4 {
            self.accent
        } else if i == 5 {
            self.accent2
        } else {
            self.border
        }
    }

    /// The palette with slot `i` replaced.
    pub open spec fn with_slot(self, i: int, hex: Seq<char>) -> SpecColors {
        if i == 0 {
            SpecColors { bg: hex, ..self }
        } else if i == 1 {
            SpecColors { panel: hex, ..self }
        } else if i == 2 {
            SpecColors { fg: hex, ..self }
        } else if i == 3 {
            SpecColors { dim: hex, ..self }
        } else if i == 4 {
            SpecColors { accent: hex, ..self }
        } else if i == 5 {
            SpecColors { accent2: hex, ..self }
        } else {
            SpecColors { border: hex, ..self }
        }
    }

    /// What slot `i` is read from: its own text, or the default palette's where that
    /// spells no colour.
    pub open spec fn slot_source(self, i: int) -> Seq<char> {
        if is_hex_color(hex_body(self.slot(i))) {
            self.slot(i)
        } else {
            modern_dark_colors().slot(i)
        }
    }

    /// `rgb` is the colour of slot `i`.
    pub open spec fn slot_is(self, i: int, rgb: [u8; 3]) -> bool {
        spells(self.slot_source(i), rgb)
    }
}

/// The colour of slot `i`.
pub open spec fn slot_color(p: SpecColors, i: int) -> Color {
    let h = hex_body(p.slot_source(i));
    Color::Rgb(pair_value(h, 0) as u8, pair_value(h, 2) as u8, pair_value(h, 4) as u8)
}

/// The palette resolved.
pub open spec fn theme_of(p: SpecColors) -> Theme {
    Theme {
        bg: slot_color(p, 0),
        panel: slot_color(p, 1),
        fg: slot_color(p, 2),
        dim: slot_color(p, 3),
        accent: slot_color(p, 4),
        accent2: slot_color(p, 5),
        border: slot_color(p, 6),
    }
}

proof fn lemma_default_slots_are_colors(i: int)
    ensures
        is_hex_color(hex_body(modern_dark_colors().slot(i))),
{
    reveal_strlit("#1a1b26");
    reveal_strlit("#24283b");
    reveal_strlit("#c0caf5");
    reveal_strlit("#565f89");
    reveal_strlit("#7dcfff");
    reveal_strlit("#bb9af7");
    reveal_strlit("#292e42");
    lemma_plain_hex(modern_dark_colors().slot(i));
}

/// What was written to a slot is read back from it.
pub proof fn law_slots_read_back(p: SpecColors, i: int, rgb: [u8; 3])
    ensures
        p.with_slot(i, hex_text(rgb)).slot_is(i, rgb),
{
    law_hex_round_trips(rgb);
}

/// Every slot of every palette is a colour.
pub proof fn law_every_slot_is_a_color(p: SpecColors, i: int)
    ensures
        is_hex_color(hex_body(p.slot_source(i))),
{
    lemma_default_slots_are_colors(i);
}

impl ThemeColors {
    pub fn modern_dark() -> (r: Self)
        ensures
            r@ == modern_dark_colors(),
    {
        ThemeColors {
            bg: owned("#1a1b26"),
            panel: owned("#24283b"),
            fg: owned("#c0caf5"),
            dim: owned("#565f89"),
            accent: owned("#7dcfff"),
            accent2: owned("#bb9af7"),
            border: owned("#292e42"),
        }
    }

    pub fn light() -> (r: Self)
        ensures
            r@ == light_colors(),
    {
        ThemeColors {
            bg: owned("#fafafa"),
            panel: owned("#eceff4"),
            fg: owned("#2e3440"),
            dim: owned("#7b8394"),
            accent: owned("#1a73e8"),
            accent2: owned("#8250df"),
            border: owned("#d6dae0"),
        }
    }

    pub fn high_contrast() -> (r: Self)
        ensures
            r@ == high_contrast_colors(),
    {
        ThemeColors {
            bg: owned("#000000"),
            panel: owned("#141414"),
            fg: owned("#ffffff"),
            dim: owned("#b0b0b0"),
            accent: owned("#ffd000"),
            accent2: owned("#00e5ff"),
            border: owned("#ffffff"),
        }
    }

    /// The preset palette with a name, if there is one.
    pub fn preset(name: &str) -> (r: Option<Self>)
        ensures
            match r {
                Some(c) => preset_colors(name@) == Some(c@),
                None => preset_colors(name@) is None,
            },
    {
        if same(name, "modern-dark") {
            Some(Self::modern_dark())
        } else if same(name, "light") {
            Some(Self::light())
        } else if same(name, "high-contrast") {
            Some(Self::high_contrast())
        } else {
            None
        }
    }

    /// The text of slot `i`; every index past the sixth names the last slot.
    pub fn slot(&self, i: usize) -> (r: &str)
        ensures
            r@ == self@.slot(i as int),
    {
        match i {
            0 => self.bg.as_str(),
            1 => self.panel.as_str(),
            2 => self.fg.as_str(),
            3 => self.dim.as_str(),
            4 => self.accent.as_str(),
            5 => self.accent2.as_str(),
            _ => self.border.as_str(),
        }
    }

    /// Set slot `i` to a triple, written back as `#rrggbb`.
    pub fn set_slot(&mut self, i: usize, rgb: [u8; 3])
        ensures
            final(self)@ == old(self)@.with_slot(i as int, hex_text(rgb)),
    {
        let hex = to_hex(rgb);
        match i {
            0 => self.bg = hex,
            1 => self.panel = hex,
            2 => self.fg = hex,
            3 => self.dim = hex,
            4 => self.accent = hex,
            5 => self.accent2 = hex,
            _ => self.border = hex,
        }
    }

    /// Slot `i` as a triple; where its text spells no colour, the default palette's.
    pub fn slot_rgb(&self, i: usize) -> (r: [u8; 3])
        ensures
            self@.slot_is(i as int, r),
    {
        match parse_hex(self.slot(i)) {
            Some(rgb) => rgb,
            None => {
                proof {
                    lemma_default_slots_are_colors(i as int);
                }
                let fallback = Self::modern_dark();
                match parse_hex(fallback.slot(i)) {
                    Some(rgb) => rgb,
                    None => [0, 0, 0],
                }
            },
        }
    }

    fn color(&self, i: usize) -> (r: Color)
        ensures
            r == slot_color(self@, i as int),
    {
        let rgb = self.slot_rgb(i);
        Color::Rgb(rgb[0], rgb[1], rgb[2])
    }
}

impl Default for ThemeColors {
    fn default() -> (r: Self)
        ensures
            r@ == modern_dark_colors(),
    {
        Self::modern_dark()
    }
}

// --- Styles -----------------------------------------------------------------------

impl Theme {
    /// The theme that a palette resolves to.
    pub fn from(c: &ThemeColors) -> (r: Self)
        ensures
            r == theme_of(c@),
    {
        Theme {
            bg: c.color(0),
            panel: c.color(1),
            fg: c.color(2),
            dim: c.color(3),
            accent: c.color(4),
            accent2: c.color(5),
            border: c.color(6),
        }
    }

    /// The default theme.
    pub fn modern_dark() -> (r: Self)
        ensures
            r == theme_of(modern_dark_colors()),
    {
        Theme::from(&ThemeColors::modern_dark())
    }

    /// Base fill for the whole screen.
    pub open spec fn spec_base(self) -> TextStyle {
        TextStyle::in_colors(self.fg, self.bg)
    }

    /// Body text.
    pub open spec fn spec_body(self) -> TextStyle {
        TextStyle::in_color(self.fg)
    }

    /// A heading.
    pub open spec fn spec_heading(self) -> TextStyle {
        TextStyle { bold: true, ..TextStyle::in_color(self.accent) }
    }

    /// Less important text.
    pub open spec fn spec_dim(self) -> TextStyle {
        TextStyle::in_color(self.dim)
    }

    /// Text that stands out.
    pub open spec fn spec_accent(self) -> TextStyle {
        TextStyle::in_color(self.accent)
    }

    /// Inline code.
    pub open spec fn spec_code_inline(self) -> TextStyle {
        TextStyle::in_color(self.accent2)
    }

    /// Highlighted text with no colour of its own.
    pub open spec fn spec_highlight(self) -> TextStyle {
        TextStyle::in_colors(self.bg, self.accent2)
    }

    /// The body of a fenced code block.
    pub open spec fn spec_code_block(self) -> TextStyle {
        TextStyle::in_colors(self.fg, self.panel)
    }

    /// The selected row in a list.
    pub open spec fn spec_selected(self) -> TextStyle {
        TextStyle { bold: true, ..TextStyle::in_colors(self.bg, self.accent) }
    }

    /// Base fill for the whole screen.
    pub fn base(&self) -> (r: TextStyle)
        ensures
            r == self.spec_base(),
    {
        TextStyle::on(self.fg, self.bg)
    }

    pub fn body(&self) -> (r: TextStyle)
        ensures
            r == self.spec_body(),
    {
        TextStyle::fg(self.fg)
    }

    pub fn heading(&self) -> (r: TextStyle)
        ensures
            r == self.spec_heading(),
    {
        TextStyle { bold: true, ..TextStyle::fg(self.accent) }
    }

    pub fn dim_style(&self) -> (r: TextStyle)
        ensures
            r == self.spec_dim(),
    {
        TextStyle::fg(self.dim)
    }

    pub fn accent_style(&self) -> (r: TextStyle)
        ensures
            r == self.spec_accent(),
    {
        TextStyle::fg(self.accent)
    }

    /// Inline `code`.
    pub fn code_inline(&self) -> (r: TextStyle)
        ensures
            r == self.spec_code_inline(),
    {
        TextStyle::fg(self.accent2)
    }

    /// Highlighted text with no colour of its own.
    pub fn highlight(&self) -> (r: TextStyle)
        ensures
            r == self.spec_highlight(),
    {
        TextStyle::on(self.bg, self.accent2)
    }

    /// Fenced code block body.
    pub fn code_block(&self) -> (r: TextStyle)
        ensures
            r == self.spec_code_block(),
    {
        TextStyle::on(self.fg, self.panel)
    }

    /// The selected row in a list.
    pub fn selected(&self) -> (r: TextStyle)
        ensures
            r == self.spec_selected(),
    {
        TextStyle { bold: true, ..TextStyle::on(self.bg, self.accent) }
    }
}

} // verus!
