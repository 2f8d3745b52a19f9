//! Rows around the reader: they show what they stand for.
use vstd::prelude::*;

use crate::account::SpecAccount;
use crate::app::state::SpecApp;
use crate::laws::drawing::{lemma_one_span, lemma_spans_join, line_text, spans_text};
use crate::laws::printing::{lemma_around, lemma_itself, lemma_more_after, stand_in};
use crate::laws::styles::lemma_slice;
use crate::laws::words::law_padding;
use crate::model::{SpecDocument, SpecPublication};
use crate::prefs::{LayoutKind, SpecOverride};
use crate::text::{byte_len, decimal, padded, padded_left};
use crate::ui::chrome::{
    account_text, channel_span, channel_value, day_of, doc_row, editor_row, feed_name, footer_row,
    input_row, layout_entry, layout_row, preset_row, shown_title, sync_row, sync_rows, theme_entry,
};
use crate::ui::doc::SpecSpan;
use crate::ui::theme::{slot_color, Color, SpecColors, Theme};

verus! {

proof fn lemma_two(a: SpecSpan, b: SpecSpan)
    ensures
        spans_text(seq![a, b]) == a.content + b.content,
{
    assert(seq![a, b] =~= seq![a] + seq![b]);
    lemma_spans_join(seq![a], seq![b]);
    lemma_one_span(a);
    lemma_one_span(b);
}

/// A post's row shows its title and the day of its time stamp: the ten characters before the
/// time.
pub proof fn law_a_post_shows_its_title_and_day(
    d: SpecDocument,
    day: Seq<char>,
    time: Seq<char>,
    t: Theme,
)
    requires
        d.title.len() > 0,
        d.published_at == day + time,
        vstd::utf8::is_ascii_chars(day),
        day.len() == 10,
    ensures
        line_text(doc_row(d, t)) == d.title + ("  "@ + day),
{
    let none = Seq::<char>::empty();
    vstd::utf8::is_ascii_chars_encode_utf8(day);
    lemma_slice(day, time, none);
    assert(day + time + none =~= d.published_at);
    assert(byte_len(day) == 10);
    assert(day_of(d.published_at) == day);
    let spans = doc_row(d, t).spans;
    assert(spans =~= seq![spans[0], spans[1]]);
    lemma_two(spans[0], spans[1]);
}

/// A post without a title has a row all the same.
pub proof fn law_a_title_is_shown(title: Seq<char>)
    ensures
        title.len() > 0 ==> shown_title(title) == title,
        shown_title(title).len() > 0,
{
    reveal_strlit("(untitled)");
}

/// The feed list names the account that is signed in.
pub proof fn law_the_account_is_named(a: SpecAccount)
    ensures
        stand_in(seq![a.handle], account_text(Some(a))),
        account_text(None) != account_text(Some(a)),
{
    reveal_strlit(" @");
    reveal_strlit(" not logged in · L ");
    lemma_itself(a.handle);
    lemma_around(" @"@, seq![a.handle], a.handle, " "@);
    assert(account_text(Some(a))[1] == '@');
    assert(account_text(None)[1] == 'n');
}

/// The footer shows the status, whatever the mode.
pub proof fn law_the_status_is_shown(app: SpecApp, t: Theme)
    ensures
        stand_in(seq![app.status], line_text(footer_row(app, t))),
{
    let spans = footer_row(app, t).spans;
    let first = seq![spans[0]];
    let rest = spans.skip(1);
    assert(spans =~= first + rest);
    lemma_spans_join(first, rest);
    lemma_one_span(spans[0]);
    lemma_itself(app.status);
    lemma_around(" "@, seq![app.status], app.status, " "@);
    lemma_more_after(seq![app.status], spans_text(first), spans_text(rest));
}

/// A prompt shows what was typed, and its cursor behind it.
pub proof fn law_what_is_typed_is_shown(input: Seq<char>, t: Theme)
    ensures
        line_text(input_row(input, t)) == input + "▏"@,
{
    let spans = input_row(input, t).spans;
    assert(spans =~= seq![spans[0], spans[1]]);
    lemma_two(spans[0], spans[1]);
}

/// The dialog about local follows has a row for each of them, in order, by its name.
pub proof fn law_local_follows_are_listed(
    feeds: Seq<(Seq<char>, Seq<char>)>,
    i: int,
    t: Theme,
)
    requires
        0 <= i < feeds.len(),
    ensures
        sync_rows(feeds, t).len() == feeds.len() + 4,
        line_text(sync_rows(feeds, t)[i + 2]) == "  • "@ + feeds[i].1,
{
    let row = sync_row(feeds[i].1, t);
    assert(sync_rows(feeds, t)[i + 2] == row);
    assert(row.spans =~= seq![row.spans[0], row.spans[1]]);
    lemma_two(row.spans[0], row.spans[1]);
}

/// A row of a menu begins with the name that it stands for.
pub proof fn law_choices_are_named(name: Seq<char>, p: SpecColors, l: LayoutKind, t: Theme)
    ensures
        preset_row(name, p).spans[0].content.skip(" "@.len() as int).take(name.len() as int) == name,
        layout_row(l, t).spans[0].content.skip(" "@.len() as int).take(l.name().len() as int)
            == l.name(),
{
    law_padding(name, 14);
    law_padding(l.name(), 12);
    let a = preset_row(name, p).spans[0].content;
    assert(a.skip(" "@.len() as int) =~= padded(name, 14));
    let b = layout_row(l, t).spans[0].content;
    assert(b.skip(" "@.len() as int) =~= padded(l.name(), 12));
}

/// Different layouts are told apart.
pub proof fn law_layouts_are_told_apart(a: LayoutKind, b: LayoutKind)
    ensures
        a.name() == b.name() ==> a == b,
{
    reveal_strlit("One pane");
    reveal_strlit("Two pane");
    reveal_strlit("Three pane");
    reveal_strlit("Drill-down");
    assert("One pane"@.len() == 8 && "One pane"@[0] == 'O');
    assert("Two pane"@.len() == 8 && "Two pane"@[0] == 'T');
    assert("Three pane"@.len() == 10 && "Three pane"@[0] == 'T');
    assert("Drill-down"@.len() == 10 && "Drill-down"@[0] == 'D');
}

/// A row of the colour editor shows the red, the green and the blue of its slot, and an
/// arrow where it is the selected one, only there.
pub proof fn law_the_editor_shows_its_colors(
    draft: SpecColors,
    slot: int,
    sel_slot: int,
    sel_channel: int,
    t: Theme,
)
    ensures
        ({
            let spans = editor_row(draft, slot, sel_slot, sel_channel, t).spans;
            let Color::Rgb(r, g, b) = slot_color(draft, slot);
            &&& spans.len() == 7
            &&& stand_in(seq![decimal(r as nat)], spans[4].content)
            &&& stand_in(seq![decimal(g as nat)], spans[5].content)
            &&& stand_in(seq![decimal(b as nat)], spans[6].content)
            &&& (spans[0].content == "▸ "@) == (slot == sel_slot)
            &&& spans[1].style.fg == Some(slot_color(draft, slot))
        }),
{
    reveal_strlit("▸ ");
    reveal_strlit("  ");
    assert("▸ "@[0] == '▸' && "  "@[0] == ' ');
    let Color::Rgb(r, g, b) = slot_color(draft, slot);
    lemma_channel(draft, slot, 0, slot == sel_slot, sel_channel == 0, t);
    lemma_channel(draft, slot, 1, slot == sel_slot, sel_channel == 1, t);
    lemma_channel(draft, slot, 2, slot == sel_slot, sel_channel == 2, t);
}

proof fn lemma_channel(
    draft: SpecColors,
    slot: int,
    c: int,
    selected: bool,
    here: bool,
    t: Theme,
)
    ensures
        stand_in(
            seq![decimal(channel_value(slot_color(draft, slot), c) as nat)],
            channel_span(draft, slot, c, selected, here, t).content,
        ),
{
    let n = decimal(channel_value(slot_color(draft, slot), c) as nat);
    let none = Seq::<char>::empty();
    let text = padded_left(n, 3);
    let before = text.take(text.len() - n.len());
    lemma_itself(n);
    lemma_around(before, seq![n], n, none);
    assert(before + n + none =~= text);
    let head = " "@ + crate::ui::chrome::channel_name(c);
    lemma_around(head, seq![n], text, none);
    assert(head + text + none =~= head + text);
}

/// A blog's menu is titled with the blog's name.
pub proof fn law_a_blog_is_named(feeds: Seq<SpecPublication>, i: int, k: int)
    requires
        0 <= i <= k < feeds.len(),
        forall|j: int| i <= j < k ==> (#[trigger] feeds[j]).uri != feeds[k].uri,
    ensures
        feed_name(feeds, i, feeds[k].uri) == feeds[k].name,
    decreases k - i,
{
    if i < k {
        assert(feeds[i].uri != feeds[k].uri);
        law_a_blog_is_named(feeds, i + 1, k);
    }
}

/// A blog's menu shows what the blog has of its own, and else that it has the common one.
pub proof fn law_overrides_are_shown(o: SpecOverride)
    ensures
        o.theme matches Some(name) ==> theme_entry(Some(o)) == "Theme: "@ + name,
        o.layout matches Some(l) ==> layout_entry(Some(o)) == "Layout: "@ + l.name(),
        o.theme is None ==> theme_entry(Some(o)) == theme_entry(None),
        o.layout is None ==> layout_entry(Some(o)) == layout_entry(None),
        theme_entry(None) == "Theme: "@ + "global"@,
        layout_entry(None) == "Layout: "@ + "global"@,
{
}

} // verus!
