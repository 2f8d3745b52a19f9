//! The texts around the reader: list rows, the footer, and what the dialogs say.
use vstd::prelude::*;

use super::doc::{
    bare_line, lemma_lines_push, lemma_spans_push, line_in, lines_view, span, spans_view, Line,
    Span, SpecLine, SpecSpan,
};
use super::theme::{
    slot_color, theme_of, Color, SpecColors, TextStyle, Theme, ThemeColors, SLOTS,
};
use crate::account::{opt_account, Account, SpecAccount};
use crate::app::state::{App, Mode, SpecApp, ThemeEditor};
use crate::memstore::pairs_view;
use crate::model::{publications_view, Document, Publication, SpecDocument, SpecPublication};
use crate::prefs::{BlogOverride, LayoutKind, SpecOverride};
use crate::text::{
    at_boundary, byte_count, byte_len, byte_slice, chars_of, decimal, decimal_of, join2,
    lemma_boundary_at_start, owned,
    pad_left, pad_right, padded, padded_left, same, slice_bytes,
};

verus! {

// --- Lists ------------------------------------------------------------------------

/// What the feed list says of the account.
pub open spec fn account_text(account: Option<SpecAccount>) -> Seq<char> {
    match account {
        Some(a) => " @"@ + a.handle + " "@,
        None => " not logged in · L "@,
    }
}

/// What the feed list says of the account.
pub fn account_label(account: &Option<Account>) -> (r: String)
    ensures
        r@ == account_text(opt_account(*account)),
{
    match account {
        Some(a) => {
            let head = join2(" @", a.handle.as_str());
            join2(head.as_str(), " ")
        },
        None => owned(" not logged in · L "),
    }
}

/// A title, or what stands for none.
pub open spec fn shown_title(title: Seq<char>) -> Seq<char> {
    if title.len() == 0 {
        "(untitled)"@
    } else {
        title
    }
}

/// A title, or what stands for none.
pub fn title_or_untitled(title: &str) -> (r: &str)
    ensures
        r@ == shown_title(title@),
{
    if chars_of(title).len() == 0 {
        "(untitled)"
    } else {
        title
    }
}

/// The day of a time stamp: its first ten bytes, if there are as many and a character
/// ends there.
pub open spec fn day_of(stamp: Seq<char>) -> Seq<char> {
    if byte_len(stamp) >= 10 && at_boundary(stamp, 10) {
        byte_slice(stamp, 0, 10)
    } else {
        Seq::empty()
    }
}

/// The day of a time stamp.
pub fn day(stamp: &str) -> (r: String)
    ensures
        r@ == day_of(stamp@),
{
    if byte_count(stamp) >= 10 && stamp.is_char_boundary(10) {
        proof {
            lemma_boundary_at_start(stamp@);
        }
        slice_bytes(stamp, 0, 10)
    } else {
        String::new()
    }
}

/// A row of the post list: the title, and the day it was published.
pub open spec fn doc_row(d: SpecDocument, t: Theme) -> SpecLine {
    bare_line(
        seq![
            SpecSpan { content: shown_title(d.title), style: t.spec_body() },
            SpecSpan { content: "  "@ + day_of(d.published_at), style: t.spec_dim() },
        ],
    )
}

/// A line of two spans.
fn two_spans(a: Span, b: Span) -> (r: Line)
    ensures
        r@ == bare_line(seq![a@, b@]),
{
    let mut spans: Vec<Span> = Vec::new();
    spans.push(a);
    spans.push(b);
    assert(spans_view(spans@) =~= seq![a@, b@]);
    Line::from(spans)
}

/// A row of the post list.
pub fn doc_line(d: &Document, theme: &Theme) -> (r: Line)
    ensures
        r@ == doc_row(d@, *theme),
{
    let date = day(d.published_at.as_str());
    let tail = join2("  ", date.as_str());
    two_spans(
        span(title_or_untitled(d.title.as_str()), theme.body()),
        Span { content: tail, style: theme.dim_style() },
    )
}

/// A pane's title, or what stands for none.
pub open spec fn title_or(title: Seq<char>, other: Seq<char>) -> Seq<char> {
    if title.len() == 0 {
        other
    } else {
        title
    }
}

impl App {
    /// The title of the post list.
    pub fn list_heading(&self) -> (r: String)
        ensures
            r@ == title_or(self@.list_title, "Documents"@),
    {
        if chars_of(self.list_title.as_str()).len() == 0 {
            owned("Documents")
        } else {
            self.list_title.clone()
        }
    }

    /// What the post list says when it has no posts.
    pub fn list_message(&self) -> (r: &'static str)
        ensures
            r@ == (if self@.loading {
                "loading…"@
            } else {
                "No documents."@
            }),
    {
        if self.loading {
            "loading…"
        } else {
            "No documents."
        }
    }

    /// The title of the reader.
    pub fn reader_heading(&self) -> (r: String)
        ensures
            r@ == title_or(self@.reading_title, "Reader"@),
    {
        if chars_of(self.reading_title.as_str()).len() == 0 {
            owned("Reader")
        } else {
            self.reading_title.clone()
        }
    }

    /// What the reader says when no post is open.
    pub fn reader_message(&self) -> (r: &'static str)
        ensures
            r@ == (if self@.loading {
                "loading…"@
            } else {
                "Select a feed (Enter), pick a post, and it appears here."@
            }),
    {
        if self.loading {
            "loading…"
        } else {
            "Select a feed (Enter), pick a post, and it appears here."
        }
    }
}

/// What stands for an image that cannot be drawn, or not yet.
pub open spec fn image_text(loaded: bool, alt: Seq<char>) -> Seq<char> {
    crate::text::trimmed(
        if loaded {
            "🖼 "@ + alt
        } else {
            "🖼 loading… "@ + alt
        },
    )
}

/// What stands for an image that cannot be drawn, or not yet.
pub fn image_label(loaded: bool, alt: &str) -> (r: String)
    ensures
        r@ == image_text(loaded, alt@),
{
    let head = if loaded {
        "🖼 "
    } else {
        "🖼 loading… "
    };
    let text = join2(head, alt);
    crate::text::trim(text.as_str())
}

// --- The footer -------------------------------------------------------------------

/// The hints of the footer.
pub open spec fn hint_text(mode: Mode, signed_in: bool) -> Seq<char> {
    match mode {
        Mode::Browse => "a add · ⇥ focus · enter open · \\ layout · t theme · / search · "@ + (
        if signed_in {
            "L log out"@
        } else {
            "L log in"@
        }) + " · : palette · ? help"@,
        Mode::DocList => "↑↓ select · enter read · o browser · esc back · / search"@,
        Mode::Search => "type · enter submit · esc cancel"@,
        Mode::AddFeed => "type · enter submit · esc cancel"@,
        Mode::SignIn => "type · enter submit · esc cancel"@,
        Mode::Palette => "↑↓ choose · enter run · esc cancel"@,
        Mode::SyncPrompt => "s subscribe · r remove · esc dismiss"@,
        Mode::ThemePicker => "↑↓ choose · enter select · esc cancel"@,
        Mode::LayoutPicker => "↑↓ choose · enter select · esc cancel"@,
        Mode::BlogMenu => "↑↓ choose · enter select · esc cancel"@,
        Mode::ThemeEditor =>
            "↑↓ slot · ←→ channel · -/+ adjust · [ ] ±16 · enter save · esc cancel"@,
        Mode::Help => "any key to close"@,
        Mode::StatusDetail => "any key to close"@,
        Mode::PublicationPicker =>
            "↑↓ choose · space toggle · a all · n none · enter follow · esc cancel"@,
    }
}

/// The hints of the footer.
pub fn hints(mode: Mode, signed_in: bool) -> (r: String)
    ensures
        r@ == hint_text(mode, signed_in),
{
    match mode {
        Mode::Browse => {
            let login = if signed_in {
                "L log out"
            } else {
                "L log in"
            };
            let head = join2(
                "a add · ⇥ focus · enter open · \\ layout · t theme · / search · ",
                login,
            );
            join2(head.as_str(), " · : palette · ? help")
        },
        Mode::DocList => owned("↑↓ select · enter read · o browser · esc back · / search"),
        Mode::Search => owned("type · enter submit · esc cancel"),
        Mode::AddFeed => owned("type · enter submit · esc cancel"),
        Mode::SignIn => owned("type · enter submit · esc cancel"),
        Mode::Palette => owned("↑↓ choose · enter run · esc cancel"),
        Mode::SyncPrompt => owned("s subscribe · r remove · esc dismiss"),
        Mode::ThemePicker => owned("↑↓ choose · enter select · esc cancel"),
        Mode::LayoutPicker => owned("↑↓ choose · enter select · esc cancel"),
        Mode::BlogMenu => owned("↑↓ choose · enter select · esc cancel"),
        Mode::ThemeEditor => owned(
            "↑↓ slot · ←→ channel · -/+ adjust · [ ] ±16 · enter save · esc cancel",
        ),
        Mode::Help => owned("any key to close"),
        Mode::StatusDetail => owned("any key to close"),
        Mode::PublicationPicker => owned(
            "↑↓ choose · space toggle · a all · n none · enter follow · esc cancel",
        ),
    }
}

/// The footer: the status, and the hints of the mode.
pub open spec fn footer_row(app: SpecApp, t: Theme) -> SpecLine {
    bare_line(
        seq![
            SpecSpan { content: " "@ + app.status + " "@, style: t.spec_dim() },
            SpecSpan { content: "· "@, style: TextStyle::in_color(t.border) },
            SpecSpan {
                content: hint_text(app.mode, app.account is Some),
                style: t.spec_accent(),
            },
        ],
    )
}

/// The footer: the status, and the hints of the mode.
pub fn footer_line(app: &App, theme: &Theme) -> (r: Line)
    ensures
        r@ == footer_row(app@, *theme),
{
    let head = join2(" ", app.status.as_str());
    let status = join2(head.as_str(), " ");
    let mut spans: Vec<Span> = Vec::new();
    spans.push(Span { content: status, style: theme.dim_style() });
    spans.push(span("· ", TextStyle::fg(theme.border)));
    spans.push(
        Span { content: hints(app.mode, app.account.is_some()), style: theme.accent_style() },
    );
    assert(spans_view(spans@) =~= footer_row(app@, *theme).spans);
    Line::from(spans)
}

// --- Dialogs ----------------------------------------------------------------------

/// A prompt's text with its cursor.
pub open spec fn input_row(input: Seq<char>, t: Theme) -> SpecLine {
    bare_line(
        seq![
            SpecSpan { content: input, style: t.spec_body() },
            SpecSpan { content: "▏"@, style: t.spec_accent() },
        ],
    )
}

/// A prompt's text with its cursor.
pub fn input_line(input: &str, theme: &Theme) -> (r: Line)
    ensures
        r@ == input_row(input@, *theme),
{
    two_spans(span(input, theme.body()), span("▏", theme.accent_style()))
}

/// The keys that the help lists.
pub const HELP_KEYS: [&'static str; 21] = [
    "↑↓ / j k",
    "⇥ Tab",
    "Enter",
    "Esc",
    "a",
    "/",
    ": / Ctrl-P",
    "r",
    "d",
    "o",
    "n / N",
    "Enter / click",
    "i",
    "t",
    "\\",
    "< >",
    "b",
    "m",
    "L",
    "? ",
    "q",
];

/// What the help says of them.
pub const HELP_TEXTS: [&'static str; 21] = [
    "move selection / scroll",
    "switch sidebar ↔ reader",
    "open feed, then open a post",
    "back / close",
    "add a blog (handle, DID, or URL)",
    "search across feeds",
    "command palette",
    "refresh the selected feed",
    "unfollow the selected feed",
    "open this post in your browser",
    "focus next / prev link in the post",
    "open the focused / clicked link",
    "toggle images (text-only mode)",
    "theme (presets + custom editor)",
    "cycle layout (1 / 2 / 3-pane, drill-down)",
    "narrow / widen the focused pane",
    "customize this blog (theme / layout)",
    "mark the open post read",
    "log in / out (atproto)",
    "this help",
    "quit",
];

/// A row of the help.
pub open spec fn help_row(i: int, t: Theme) -> SpecLine {
    bare_line(
        seq![
            SpecSpan { content: " "@ + padded(HELP_KEYS@[i]@, 12), style: t.spec_accent() },
            SpecSpan { content: HELP_TEXTS@[i]@, style: t.spec_body() },
        ],
    )
}

/// The rows of the help.
pub fn help_lines(theme: &Theme) -> (r: Vec<Line>)
    ensures
        lines_view(r@) == Seq::new(21, |i: int| help_row(i, *theme)),
{
    let keys = HELP_KEYS;
    let texts = HELP_TEXTS;
    let mut out: Vec<Line> = Vec::new();
    let mut i: usize = 0;
    while i < 21
        invariant
            i <= 21,
            keys@ == HELP_KEYS@,
            texts@ == HELP_TEXTS@,
            keys@.len() == 21,
            texts@.len() == 21,
            out@.len() == i,
            forall|k: int| 0 <= k < i ==> (#[trigger] out@[k])@ == help_row(k, *theme),
        decreases 21 - i,
    {
        let key = pad_right(keys[i], 12);
        let head = join2(" ", key.as_str());
        out.push(
            two_spans(
                Span { content: head, style: theme.accent_style() },
                span(texts[i], theme.body()),
            ),
        );
        i = i + 1;
    }
    assert(lines_view(out@) =~= Seq::new(21, |i: int| help_row(i, *theme)));
    out
}

/// What the reconciliation dialog offers.
pub open spec fn sync_choices(t: Theme) -> SpecLine {
    let bold = TextStyle { bold: true, ..t.spec_accent() };
    bare_line(
        seq![
            SpecSpan { content: "s"@, style: bold },
            SpecSpan { content: " subscribe   "@, style: t.spec_body() },
            SpecSpan { content: "r"@, style: bold },
            SpecSpan { content: " remove locally   "@, style: t.spec_body() },
            SpecSpan { content: "esc"@, style: bold },
            SpecSpan { content: " later"@, style: t.spec_body() },
        ],
    )
}

/// A feed in the reconciliation dialog.
pub open spec fn sync_row(name: Seq<char>, t: Theme) -> SpecLine {
    bare_line(
        seq![
            SpecSpan { content: "  • "@, style: t.spec_accent() },
            SpecSpan { content: name, style: t.spec_body() },
        ],
    )
}

/// The rows of the reconciliation dialog: the feeds that the account does not have, and
/// what can be done with them.
pub open spec fn sync_rows(feeds: Seq<(Seq<char>, Seq<char>)>, t: Theme) -> Seq<SpecLine> {
    seq![
        bare_line(
            seq![
                SpecSpan {
                    content: "Followed here but not in your atproto account:"@,
                    style: t.spec_body(),
                },
            ],
        ),
        bare_line(Seq::empty()),
    ] + feeds.map_values(|f: (Seq<char>, Seq<char>)| sync_row(f.1, t)) + seq![
        bare_line(Seq::empty()),
        sync_choices(t),
    ]
}

fn sync_choice_line(theme: &Theme) -> (r: Line)
    ensures
        r@ == sync_choices(*theme),
{
    let bold = TextStyle { bold: true, ..theme.accent_style() };
    let mut spans: Vec<Span> = Vec::new();
    spans.push(span("s", bold));
    spans.push(span(" subscribe   ", theme.body()));
    spans.push(span("r", bold));
    spans.push(span(" remove locally   ", theme.body()));
    spans.push(span("esc", bold));
    spans.push(span(" later", theme.body()));
    assert(spans_view(spans@) =~= sync_choices(*theme).spans);
    Line::from(spans)
}

fn blank_line() -> (r: Line)
    ensures
        r@ == bare_line(Seq::empty()),
{
    let spans: Vec<Span> = Vec::new();
    assert(spans_view(spans@) =~= Seq::empty());
    Line::from(spans)
}

/// The rows of the reconciliation dialog.
pub fn sync_lines(feeds: &Vec<(String, String)>, theme: &Theme) -> (r: Vec<Line>)
    ensures
        lines_view(r@) == sync_rows(pairs_view(feeds@), *theme),
{
    broadcast use lemma_lines_push;

    let ghost want = sync_rows(pairs_view(feeds@), *theme);
    let mut out: Vec<Line> = Vec::new();
    let mut first: Vec<Span> = Vec::new();
    first.push(span("Followed here but not in your atproto account:", theme.body()));
    assert(spans_view(first@) =~= want[0].spans);
    out.push(Line::from(first));
    out.push(blank_line());
    assert(pairs_view(feeds@).len() == feeds@.len());
    assert(lines_view(out@) =~= want.take(2));
    let mut i: usize = 0;
    while i < feeds.len()
        invariant
            i <= feeds@.len(),
            pairs_view(feeds@).len() == feeds@.len(),
            want == sync_rows(pairs_view(feeds@), *theme),
            lines_view(out@) == want.take(2 + i),
        decreases feeds@.len() - i,
    {
        broadcast use lemma_lines_push;

        assert(pairs_view(feeds@)[i as int].1 == feeds@[i as int].1@);
        out.push(
            two_spans(
                span("  • ", theme.accent_style()),
                span(feeds[i].1.as_str(), theme.body()),
            ),
        );
        assert(lines_view(out@) =~= want.take(3 + i));
        i = i + 1;
    }
    out.push(blank_line());
    out.push(sync_choice_line(theme));
    assert(lines_view(out@) =~= want);
    out
}

/// A row of the theme picker: a preset in its own colours.
pub open spec fn preset_row(name: Seq<char>, p: SpecColors) -> SpecLine {
    let look = theme_of(p);
    bare_line(
        seq![
            SpecSpan {
                content: " "@ + padded(name, 14),
                style: TextStyle::in_colors(look.fg, look.bg),
            },
            SpecSpan { content: " ██"@, style: TextStyle::in_color(look.accent) },
            SpecSpan { content: "██"@, style: TextStyle::in_color(look.accent2) },
        ],
    )
}

/// A row of the theme picker: a palette in its own colours.
pub fn preset_line(name: &str, colors: &ThemeColors) -> (r: Line)
    ensures
        r@ == preset_row(name@, colors@),
{
    let look = Theme::from(colors);
    let wide = pad_right(name, 14);
    let head = join2(" ", wide.as_str());
    let mut spans: Vec<Span> = Vec::new();
    spans.push(Span { content: head, style: TextStyle::on(look.fg, look.bg) });
    spans.push(span(" ██", TextStyle::fg(look.accent)));
    spans.push(span("██", TextStyle::fg(look.accent2)));
    assert(spans_view(spans@) =~= preset_row(name@, colors@).spans);
    Line::from(spans)
}

/// How a layout is described.
pub open spec fn layout_text(l: LayoutKind) -> Seq<char> {
    match l {
        LayoutKind::OnePane => "one pane, full width"@,
        LayoutKind::TwoPane => "feeds/posts + reader"@,
        LayoutKind::ThreePane => "feeds | posts | reader"@,
        LayoutKind::DrillDown => "feeds → posts → post"@,
    }
}

/// A row of the layout picker.
pub open spec fn layout_row(l: LayoutKind, t: Theme) -> SpecLine {
    bare_line(
        seq![
            SpecSpan { content: " "@ + padded(l.name(), 12), style: t.spec_body() },
            SpecSpan { content: layout_text(l), style: t.spec_dim() },
        ],
    )
}

/// A row of the layout picker.
pub fn layout_line(l: LayoutKind, theme: &Theme) -> (r: Line)
    ensures
        r@ == layout_row(l, *theme),
{
    let text = match l {
        LayoutKind::OnePane => "one pane, full width",
        LayoutKind::TwoPane => "feeds/posts + reader",
        LayoutKind::ThreePane => "feeds | posts | reader",
        LayoutKind::DrillDown => "feeds → posts → post",
    };
    let wide = pad_right(l.label(), 12);
    let head = join2(" ", wide.as_str());
    two_spans(Span { content: head, style: theme.body() }, span(text, theme.dim_style()))
}

/// The name of a channel.
pub open spec fn channel_name(c: int) -> Seq<char> {
    if c == 0 {
        "R"@
    } else if c == 1 {
        "G"@
    } else {
        "B"@
    }
}

/// How a channel of the editor is drawn.
pub open spec fn channel_style(selected: bool, here: bool, t: Theme) -> TextStyle {
    if selected && here {
        t.spec_selected()
    } else if selected {
        t.spec_body()
    } else {
        t.spec_dim()
    }
}

/// A channel of a colour.
pub open spec fn channel_value(c: Color, i: int) -> u8 {
    match c {
        Color::Rgb(r, g, b) => if i == 0 {
            r
        } else if i == 1 {
            g
        } else {
            b
        },
    }
}

/// A channel in a row of the editor.
pub open spec fn channel_span(draft: SpecColors, slot: int, c: int, selected: bool, here: bool, t: Theme)
    -> SpecSpan {
    SpecSpan {
        content: " "@ + channel_name(c) + padded_left(
            decimal(channel_value(slot_color(draft, slot), c) as nat),
            3,
        ),
        style: channel_style(selected, here, t),
    }
}

/// A row of the colour editor: a swatch, the slot's name, its text and its channels.
pub open spec fn editor_row(
    draft: SpecColors,
    slot: int,
    sel_slot: int,
    sel_channel: int,
    t: Theme,
) -> SpecLine {
    let selected = slot == sel_slot;
    bare_line(
        seq![
            SpecSpan {
                content: if selected {
                    "▸ "@
                } else {
                    "  "@
                },
                style: t.spec_accent(),
            },
            SpecSpan {
                content: "██ "@,
                style: TextStyle::in_color(slot_color(draft, slot)),
            },
            SpecSpan {
                content: padded(SLOTS@[slot]@, 11),
                style: if selected {
                    TextStyle { bold: true, ..t.spec_body() }
                } else {
                    t.spec_body()
                },
            },
            SpecSpan { content: padded(draft.slot(slot), 8) + " "@, style: t.spec_dim() },
            channel_span(draft, slot, 0, selected, sel_channel == 0, t),
            channel_span(draft, slot, 1, selected, sel_channel == 1, t),
            channel_span(draft, slot, 2, selected, sel_channel == 2, t),
        ],
    )
}

fn channel(name: &str, value: u8, selected: bool, here: bool, theme: &Theme) -> (r: Span)
    ensures
        r@.content == " "@ + name@ + padded_left(decimal(value as nat), 3),
        r@.style == channel_style(selected, here, *theme),
{
    let digits = decimal_of(value as u64);
    let wide = pad_left(digits.as_str(), 3);
    let head = join2(" ", name);
    let text = join2(head.as_str(), wide.as_str());
    let style = if selected && here {
        theme.selected()
    } else if selected {
        theme.body()
    } else {
        theme.dim_style()
    };
    Span { content: text, style }
}

/// A row of the colour editor.
pub fn editor_line(ed: &ThemeEditor, slot: usize, theme: &Theme) -> (r: Line)
    requires
        slot < 7,
    ensures
        r@ == editor_row(
            ed.draft@,
            slot as int,
            ed.slot as int,
            ed.channel as int,
            *theme,
        ),
{
    let names = SLOTS;
    let rgb = ed.draft.slot_rgb(slot);
    assert(slot_color(ed.draft@, slot as int) == Color::Rgb(rgb[0], rgb[1], rgb[2]));
    let selected = slot == ed.slot;
    let mark = if selected {
        "▸ "
    } else {
        "  "
    };
    let name_style = if selected {
        TextStyle { bold: true, ..theme.body() }
    } else {
        theme.body()
    };
    let hex = pad_right(ed.draft.slot(slot), 8);
    let hex_text = join2(hex.as_str(), " ");
    let mut spans: Vec<Span> = Vec::new();
    spans.push(span(mark, theme.accent_style()));
    spans.push(span("██ ", TextStyle::fg(Color::Rgb(rgb[0], rgb[1], rgb[2]))));
    spans.push(Span { content: pad_right(names[slot], 11), style: name_style });
    spans.push(Span { content: hex_text, style: theme.dim_style() });
    spans.push(channel("R", rgb[0], selected, ed.channel == 0, theme));
    spans.push(channel("G", rgb[1], selected, ed.channel == 1, theme));
    spans.push(channel("B", rgb[2], selected, ed.channel == 2, theme));
    assert(spans_view(spans@) =~= editor_row(
        ed.draft@,
        slot as int,
        ed.slot as int,
        ed.channel as int,
        *theme,
    ).spans);
    Line::from(spans)
}

/// The name of the first feed with a URI, from `i` on.
pub open spec fn feed_name(feeds: Seq<SpecPublication>, i: int, uri: Seq<char>) -> Seq<char>
    decreases feeds.len() - i,
{
    if i < 0 || i >= feeds.len() {
        "this blog"@
    } else if feeds[i].uri == uri {
        feeds[i].name
    } else {
        feed_name(feeds, i + 1, uri)
    }
}

/// The title of a publication's menu.
pub fn blog_menu_title(feeds: &Vec<Publication>, uri: &str) -> (r: String)
    ensures
        r@ == " Customize "@ + feed_name(publications_view(feeds@), 0, uri@) + " "@,
{
    let ghost all = publications_view(feeds@);
    let mut name: String = owned("this blog");
    let mut i: usize = 0;
    let mut found: bool = false;
    assert(all.len() == feeds@.len());
    while i < feeds.len() && !found
        invariant
            i <= feeds@.len(),
            all == publications_view(feeds@),
            all.len() == feeds@.len(),
            !found ==> feed_name(all, 0, uri@) == feed_name(all, i as int, uri@) && name@
                == "this blog"@,
            found ==> name@ == feed_name(all, 0, uri@),
        decreases feeds@.len() - i + (if found {
            0int
        } else {
            1int
        }),
    {
        assert(all[i as int] == feeds@[i as int]@);
        if same(feeds[i].uri.as_str(), uri) {
            name = feeds[i].name.clone();
            found = true;
        } else {
            i = i + 1;
        }
    }
    let head = join2(" Customize ", name.as_str());
    join2(head.as_str(), " ")
}

/// What a publication's menu says of its theme: the override's, or none.
pub open spec fn theme_entry(o: Option<SpecOverride>) -> Seq<char> {
    match o {
        Some(ov) => match ov.theme {
            Some(name) => "Theme: "@ + name,
            None => "Theme: "@ + "global"@,
        },
        None => "Theme: "@ + "global"@,
    }
}

/// What a publication's menu says of its layout: the override's, or none.
pub open spec fn layout_entry(o: Option<SpecOverride>) -> Seq<char> {
    match o {
        Some(ov) => match ov.layout {
            Some(l) => "Layout: "@ + l.name(),
            None => "Layout: "@ + "global"@,
        },
        None => "Layout: "@ + "global"@,
    }
}

/// The entries of a publication's menu.
pub fn blog_menu_entries(o: Option<&BlogOverride>) -> (r: (String, String, &'static str))
    ensures
        r.0@ == theme_entry(
            match o {
                Some(ov) => Some(ov@),
                None => None,
            },
        ),
        r.1@ == layout_entry(
            match o {
                Some(ov) => Some(ov@),
                None => None,
            },
        ),
        r.2@ == "Use global appearance"@,
{
    let theme = match o {
        Some(ov) => match &ov.theme {
            Some(name) => join2("Theme: ", name.as_str()),
            None => join2("Theme: ", "global"),
        },
        None => join2("Theme: ", "global"),
    };
    let layout = match o {
        Some(ov) => match ov.layout {
            Some(l) => join2("Layout: ", l.label()),
            None => join2("Layout: ", "global"),
        },
        None => join2("Layout: ", "global"),
    };
    (theme, layout, "Use global appearance")
}

} // verus!
