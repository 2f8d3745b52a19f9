//! Gestures: clicks, images turned on, colours nudged, and records given up.
use vstd::prelude::*;

use crate::app::appearance::{colors_nudged, nudged, preset_row, theme_row};
use crate::app::content::{block_images, source_key};
use crate::app::geometry::{link_rect_at, row_at, LinkRect};
use crate::app::state::{Mode, SpecApp, SpecEditor};
use crate::atp::Transport;
use crate::auth_provider::AuthProvider;
use crate::decode::pckt::{pckt_block_of, pckt_items_of};
use crate::input::{KeyCode, KeyEvent, MouseEvent};
use crate::json::SpecJson;
use crate::laws::blocks::{lemma_named, lemma_type_names, named};
use crate::laws::screen::{law_images_are_asked_for, lemma_wanting_all};
use crate::model::SpecBlock;
use crate::prefs::LayoutKind;
use crate::store::FrontendStore;
use crate::ui::theme::{slot_color, Color, SpecColors};
use crate::worker::follows::Deleted;
use crate::worker::tasks::{WorkError, Worker};
use crate::worker::SpecCommand;

verus! {

// --- The mouse --------------------------------------------------------------------

/// A click at a point.
pub open spec fn is_click(ev: MouseEvent, x: int, y: int) -> bool {
    ev.kind is Down && ev.column == x && ev.row == y
}

/// A click on the status line shows it whole, and any key goes back.
pub proof fn law_the_status_can_be_read(
    a: SpecApp,
    ev: MouseEvent,
    x: int,
    y: int,
    key: KeyEvent,
)
    requires
        is_click(ev, x, y),
        a.mode == Mode::Browse || a.mode == Mode::DocList,
        a.rects.status.covers(x, y),
    ensures
        a.status.len() > 0 ==> {
            let b = a.mouse_used(ev);
            &&& b.mode == Mode::StatusDetail
            &&& b.status_detail == a.status
            &&& b.commands == a.commands
            &&& b.key_pressed(key).mode == Mode::Browse
            &&& b.mouse_used(ev).mode == Mode::Browse
        },
        a.status.len() == 0 ==> a.mouse_used(ev) == a,
{
    reveal(SpecApp::clicked);
    reveal(SpecApp::status_expanded);
    reveal(SpecApp::entering);
}

proof fn lemma_rect(s: Seq<LinkRect>, from: int, k: int, col: int, row: int)
    requires
        0 <= from <= k < s.len(),
        s[k].at(col, row),
        forall|j: int| from <= j < k ==> !(#[trigger] s[j]).at(col, row),
    ensures
        link_rect_at(s, from, col, row) == Some(s[k].idx),
    decreases k - from,
{
    if from < k {
        assert(!s[from].at(col, row));
        lemma_rect(s, from + 1, k, col, row);
    }
}

/// A click on a link of the reader opens that link, wherever the reader is scrolled to.
pub proof fn law_a_click_opens_a_link(a: SpecApp, ev: MouseEvent, x: int, y: int, k: int)
    requires
        is_click(ev, x, y),
        a.mode == Mode::Browse || a.mode == Mode::DocList,
        !a.rects.status.covers(x, y),
        !a.rects.attribution.covers(x, y),
        row_at(a.rects.posts, x, y) is None,
        row_at(a.rects.sidebar, x, y) is None,
        a.rects.reader.covers_inside(x, y),
        0 <= k < a.link_rects.len(),
        a.link_rects[k].row == y - a.rects.reader.y - 1 + a.scroll,
        a.link_rects[k].col <= x - a.rects.reader.x - 1 < a.link_rects[k].col
            + a.link_rects[k].width,
        forall|j: int|
            0 <= j < k ==> !(#[trigger] a.link_rects[j]).at(
                x - a.rects.reader.x - 1,
                y - a.rects.reader.y - 1 + a.scroll,
            ),
        a.link_rects[k].idx < a.links.len(),
    ensures
        a.mouse_used(ev).to_open == a.to_open.push(a.links[a.link_rects[k].idx as int]),
        a.mouse_used(ev).commands == a.commands,
{
    reveal(SpecApp::clicked);
    reveal(SpecApp::link_opened);
    lemma_rect(
        a.link_rects,
        0,
        k,
        x - a.rects.reader.x - 1,
        y - a.rects.reader.y - 1 + a.scroll,
    );
}

/// A click on the name of the platform opens its page.
pub proof fn law_a_click_opens_the_platform(
    a: SpecApp,
    ev: MouseEvent,
    x: int,
    y: int,
    i: usize,
)
    requires
        is_click(ev, x, y),
        a.mode == Mode::Browse || a.mode == Mode::DocList,
        !a.rects.status.covers(x, y),
        row_at(a.rects.posts, x, y) is None,
        row_at(a.rects.sidebar, x, y) is None,
        a.rects.attribution.covers(x, y),
        a.attribution_link == Some(i),
        i < a.links.len(),
    ensures
        a.mouse_used(ev).to_open == a.to_open.push(a.links[i as int]),
{
    reveal(SpecApp::clicked);
    reveal(SpecApp::link_opened);
}

/// A click that hits nothing does nothing.
pub proof fn law_a_click_beside_does_nothing(a: SpecApp, ev: MouseEvent, x: int, y: int)
    requires
        is_click(ev, x, y),
        a.mode == Mode::Browse || a.mode == Mode::DocList,
        !a.rects.status.covers(x, y),
        !a.rects.attribution.covers(x, y),
        row_at(a.rects.posts, x, y) is None,
        row_at(a.rects.sidebar, x, y) is None,
        !a.rects.reader.covers_inside(x, y),
    ensures
        a.mouse_used(ev) == a,
{
    reveal(SpecApp::clicked);
}

// --- Images -----------------------------------------------------------------------

/// Turning images on asks for each image of the open post that is not there yet, and for
/// its cover.
pub proof fn law_turning_images_on_asks_for_them(
    a: SpecApp,
    key: KeyEvent,
    body: Seq<SpecBlock>,
    i: int,
)
    requires
        a.mode == Mode::Browse || a.mode == Mode::DocList,
        key.code == KeyCode::Char('i'),
        !a.show_images,
        a.reading == Some(body),
        0 <= i < block_images(body).len(),
    ensures
        ({
            let b = a.key_pressed(key);
            let source = block_images(body)[i];
            &&& b.show_images
            &&& !a.images.dom().contains(source_key(source)) ==> b.commands.contains(
                SpecCommand::LoadImage { key: source_key(source), source },
            )
            &&& (a.reading_cover matches Some(cover) ==> (!a.images.dom().contains(
                source_key(cover),
            ) ==> b.commands.contains(
                SpecCommand::LoadImage { key: source_key(cover), source: cover },
            )))
        }),
{
    reveal(SpecApp::browse_key);
    reveal(SpecApp::doclist_key);
    reveal(SpecApp::images_toggled);
    reveal(SpecApp::images_switched);
    reveal(SpecApp::wanting_current);
    reveal(SpecApp::wanting);
    let on = a.images_switched(true);
    let sources = block_images(body);
    lemma_wanting_all(on, sources);
    law_images_are_asked_for(on, sources, i);
    let all = on.wanting_all(sources);
    let b = a.key_pressed(key);
    let c = SpecCommand::LoadImage { key: source_key(sources[i]), source: sources[i] };
    if all.commands.contains(c) {
        let k = choose|k: int| 0 <= k < all.commands.len() && all.commands[k] == c;
        assert(b.commands[k] == c);
    }
    if let Some(cover) = a.reading_cover {
        if !a.images.dom().contains(source_key(cover)) {
            assert(b.commands[b.commands.len() - 1] == (SpecCommand::LoadImage {
                key: source_key(cover),
                source: cover,
            }));
        }
    }
}

// --- Colours ----------------------------------------------------------------------

/// One channel of a colour.
pub open spec fn channel_of(c: Color, i: int) -> int {
    match c {
        Color::Rgb(r, g, b) => if i == 0 {
            r as int
        } else if i == 1 {
            g as int
        } else {
            b as int
        },
    }
}

/// A value that is moved within what a channel can hold.
pub open spec fn moved(v: int, delta: int) -> int {
    if v + delta < 0 {
        0
    } else if v + delta > 255 {
        255
    } else {
        v + delta
    }
}

proof fn lemma_nudged(p: SpecColors, slot: usize, channel: usize, delta: int)
    requires
        slot < 7,
        channel < 3,
    ensures
        ({
            let q = colors_nudged(p, slot, channel, delta);
            &&& forall|c: int|
                0 <= c < 3 ==> #[trigger] channel_of(slot_color(q, slot as int), c) == (if c
                    == channel {
                    moved(channel_of(slot_color(p, slot as int), c), delta)
                } else {
                    channel_of(slot_color(p, slot as int), c)
                })
            &&& forall|s: int|
                0 <= s < 7 && s != slot ==> #[trigger] slot_color(q, s) == slot_color(p, s)
        }),
{
    let Color::Rgb(r, g, b) = slot_color(p, slot as int);
    let rgb: [u8; 3] = [
        if channel == 0 {
            nudged(r as int, delta)
        } else {
            r
        },
        if channel == 1 {
            nudged(g as int, delta)
        } else {
            g
        },
        if channel == 2 {
            nudged(b as int, delta)
        } else {
            b
        },
    ];
    crate::ui::theme::law_slots_read_back(p, slot as int, rgb);
    let q = colors_nudged(p, slot, channel, delta);
    assert(q == p.with_slot(slot as int, crate::ui::theme::hex_text(rgb)));
    assert(rgb@[0] == rgb[0] && rgb@[1] == rgb[1] && rgb@[2] == rgb[2]);
}

/// `+` and `-` move the selected channel of the selected colour by one, `]` and `[` by
/// sixteen, within what a channel can hold, and nothing else.
pub proof fn law_colors_are_nudged(a: SpecApp, key: KeyEvent, e: SpecEditor, c: int, s: int)
    requires
        a.wf(),
        a.mode == Mode::ThemeEditor,
        a.theme_editor == Some(e),
        key.code == KeyCode::Char('+') || key.code == KeyCode::Char('=') || key.code
            == KeyCode::Char('-') || key.code == KeyCode::Char(']') || key.code == KeyCode::Char(
            '[',
        ),
        0 <= c < 3,
        0 <= s < 7,
    ensures
        ({
            let by: int = if key.code == KeyCode::Char(']') {
                16
            } else if key.code == KeyCode::Char('[') {
                -16
            } else if key.code == KeyCode::Char('-') {
                -1
            } else {
                1
            };
            let b = a.key_pressed(key);
            &&& b.theme_editor matches Some(f) && f.slot == e.slot && f.channel == e.channel
                && f.target == e.target && channel_of(slot_color(f.draft, s), c) == (if s == e.slot
                && c == e.channel {
                moved(channel_of(slot_color(e.draft, s), c), by)
            } else {
                channel_of(slot_color(e.draft, s), c)
            })
            &&& b.prefs == a.prefs
        }),
{
    reveal(SpecApp::theme_editor_key);
    reveal(SpecApp::channel_adjusted);
    lemma_nudged(e.draft, e.slot, e.channel, 1);
    lemma_nudged(e.draft, e.slot, e.channel, -1);
    lemma_nudged(e.draft, e.slot, e.channel, 16);
    lemma_nudged(e.draft, e.slot, e.channel, -16);
}

/// The menu of themes begins at the theme in use, and that of layouts at the layout in use:
/// choosing at once changes nothing.
pub proof fn law_menus_begin_at_what_is_in_use(name: Seq<char>, l: LayoutKind)
    ensures
        name == "modern-dark"@ || name == "light"@ || name == "high-contrast"@ ==> preset_row(
            theme_row(name),
        ) == Some(name),
        preset_row(theme_row("custom"@)) is None,
        LayoutKind::ALL@[l.place() as int] == l,
{
    reveal_strlit("modern-dark");
    reveal_strlit("light");
    reveal_strlit("high-contrast");
    reveal_strlit("custom");
    assert("modern-dark"@.len() == 11 && "light"@.len() == 5 && "high-contrast"@.len() == 13);
    assert("custom"@.len() == 6);
}

// --- Records ----------------------------------------------------------------------

/// Whoever is signed in and drops a follow whose record is known has that record deleted.
pub proof fn law_the_record_is_deleted<T: Transport, S: FrontendStore, A: AuthProvider>(
    before: Worker<T, S, A>,
    after: Worker<T, S, A>,
    publication: Seq<char>,
    rkey: Seq<char>,
    auth: A,
)
    requires
        before.unfollowed(&after, publication, Ok::<(), WorkError<S::Error>>(())),
        before.who() is Some,
        before.state().follows.dom().contains(publication),
        before.state().follows[publication] == rkey,
        before.auth == Some(auth),
    ensures
        rkey.len() > 0 ==> exists|reply: Result<(), Seq<char>>| #[trigger]
            auth.deleted(before.who()->0.did, rkey, reply),
{
    reveal(Worker::unfollowed);
    if rkey.len() > 0 {
        let deleted = choose|deleted: Deleted| #[trigger]
            before.record_deleted(publication, deleted);
        assert(auth.deleted(before.who()->0.did, rkey, deleted->0));
    }
}

/// Pckt lists: numbered ones are numbered, the others and tasks are not, and each shows
/// its items.
pub proof fn law_pckt_lists(
    prefix: Seq<char>,
    block: SpecJson,
    did: Seq<char>,
    entries: Seq<SpecJson>,
)
    requires
        block.get_array("content"@) == Some(entries),
    ensures
        block.get_str("$type"@) == Some(named(prefix, "orderedList"@)) ==> pckt_block_of(block, did)
            == seq![SpecBlock::List { ordered: true, items: pckt_items_of(entries, did) }],
        block.get_str("$type"@) == Some(named(prefix, "bulletList"@)) ==> pckt_block_of(block, did)
            == seq![SpecBlock::List { ordered: false, items: pckt_items_of(entries, did) }],
        block.get_str("$type"@) == Some(named(prefix, "taskList"@)) ==> pckt_block_of(block, did)
            == seq![SpecBlock::List { ordered: false, items: pckt_items_of(entries, did) }],
{
    lemma_type_names();
    reveal_strlit("taskList");
    reveal_strlit("orderedList");
    reveal_strlit("bulletList");
    lemma_named(prefix, "orderedList"@);
    lemma_named(prefix, "bulletList"@);
    lemma_named(prefix, "taskList"@);
    assert("taskList"@.len() == 8 && "taskList"@[0] == 't');
    assert("orderedList"@.len() == 11 && "bulletList"@.len() == 10);
    assert("orderedList"@[0] == 'o' && "bulletList"@[0] == 'b');
}

} // verus!
