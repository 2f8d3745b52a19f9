//! Keys: what each does to the screen, and which undoes which.
use vstd::prelude::*;

use crate::app::state::{Focus, Mode, SpecApp};
use crate::input::{KeyCode, KeyEvent};
use crate::worker::SpecCommand;

verus! {

// --- Rows -------------------------------------------------------------------------

/// The key means up.
pub open spec fn is_up(key: KeyEvent) -> bool {
    key.code == KeyCode::Up || key.code == KeyCode::Char('k')
}

/// The key means down.
pub open spec fn is_down(key: KeyEvent) -> bool {
    key.code == KeyCode::Down || key.code == KeyCode::Char('j')
}

/// A list or the reader has the keys.
pub open spec fn browsing(a: SpecApp) -> bool {
    a.mode == Mode::Browse || a.mode == Mode::DocList
}

/// The pane that the row keys move in. The post list that stands in place of the sidebar
/// has them whatever has the focus.
pub open spec fn pane_of(a: SpecApp) -> Focus {
    if a.mode == Mode::DocList {
        Focus::Posts
    } else {
        a.focus
    }
}

/// The row that is selected in that pane; in the reader, the first that is shown.
pub open spec fn row_of(a: SpecApp) -> int {
    match pane_of(a) {
        Focus::Sidebar => a.feed_sel as int,
        Focus::Posts => a.doc_sel as int,
        Focus::Reader => a.scroll as int,
    }
}

/// The last row that the pane has.
pub open spec fn end_of(a: SpecApp) -> int {
    match pane_of(a) {
        Focus::Sidebar => if a.feeds.len() == 0 {
            0
        } else {
            a.feeds.len() - 1
        },
        Focus::Posts => if a.docs.len() == 0 {
            0
        } else {
            a.docs.len() - 1
        },
        Focus::Reader => u16::MAX as int,
    }
}

/// `b` is `a` with the row of the pane at `n`, and nothing else differs.
pub open spec fn only_row(a: SpecApp, b: SpecApp, n: int) -> bool {
    match pane_of(a) {
        Focus::Sidebar => b == (SpecApp { feed_sel: n as usize, ..a }) && b.feed_sel == n,
        Focus::Posts => b == (SpecApp { doc_sel: n as usize, ..a }) && b.doc_sel == n,
        Focus::Reader => b == (SpecApp { scroll: n as u16, ..a }) && b.scroll == n,
    }
}

/// Up goes one row up, and stays at the first; nothing else happens.
pub proof fn law_up_goes_up(a: SpecApp, key: KeyEvent)
    requires
        browsing(a),
        is_up(key),
    ensures
        only_row(
            a,
            a.key_pressed(key),
            if row_of(a) > 0 {
                row_of(a) - 1
            } else {
                0
            },
        ),
{
    reveal(SpecApp::browse_key);
    reveal(SpecApp::doclist_key);
    reveal(SpecApp::moved_up);
    reveal(SpecApp::feed_at);
    reveal(SpecApp::post_at);
    reveal(SpecApp::scrolled);
}

/// Down goes one row down as long as there is one. At the last feed it stays, and at the
/// last post the older ones of the open feed are asked for and the selection stays.
pub proof fn law_down_goes_down(a: SpecApp, key: KeyEvent)
    requires
        browsing(a),
        is_down(key),
        a.feeds.len() <= usize::MAX,
        a.docs.len() <= usize::MAX,
    ensures
        row_of(a) < end_of(a) ==> only_row(a, a.key_pressed(key), row_of(a) + 1),
        row_of(a) == end_of(a) && pane_of(a) != Focus::Posts ==> a.key_pressed(key) == a,
        row_of(a) == end_of(a) && pane_of(a) == Focus::Posts ==> {
            let b = a.key_pressed(key);
            &&& b.doc_sel == a.doc_sel
            &&& b.docs == a.docs
            &&& b.commands == (match a.open_pub {
                Some(uri) => a.commands.push(SpecCommand::LoadOlder(uri)),
                None => a.commands,
            })
        },
{
    reveal(SpecApp::browse_key);
    reveal(SpecApp::doclist_key);
    reveal(SpecApp::moved_down);
    reveal(SpecApp::post_down);
    reveal(SpecApp::older_wanted);
    reveal(SpecApp::feed_at);
    reveal(SpecApp::post_at);
    reveal(SpecApp::scrolled);
}

/// Up undoes down, from every row but the last.
pub proof fn law_up_undoes_down(a: SpecApp, down: KeyEvent, up: KeyEvent)
    requires
        browsing(a),
        is_down(down),
        is_up(up),
        a.feeds.len() <= usize::MAX,
        a.docs.len() <= usize::MAX,
        row_of(a) < end_of(a),
    ensures
        a.key_pressed(down).key_pressed(up) == a,
{
    law_down_goes_down(a, down);
    law_up_goes_up(a.key_pressed(down), up);
}

/// `g` goes to the first row and `G` to the last; the reader has no last row to go to.
pub proof fn law_first_and_last_row(a: SpecApp, key: KeyEvent)
    requires
        browsing(a),
        a.feeds.len() <= usize::MAX,
        a.docs.len() <= usize::MAX,
    ensures
        key.code == KeyCode::Char('g') ==> only_row(a, a.key_pressed(key), 0),
        key.code == KeyCode::Char('G') && pane_of(a) != Focus::Reader ==> only_row(
            a,
            a.key_pressed(key),
            end_of(a),
        ),
        key.code == KeyCode::Char('G') && pane_of(a) == Focus::Reader ==> a.key_pressed(key) == a,
{
    reveal(SpecApp::browse_key);
    reveal(SpecApp::doclist_key);
    reveal(SpecApp::at_top);
    reveal(SpecApp::at_bottom);
    reveal(SpecApp::feed_at);
    reveal(SpecApp::post_at);
    reveal(SpecApp::scrolled);
}

/// The page keys scroll the reader by ten rows, wherever the focus is, and one undoes the
/// other away from the ends.
pub proof fn law_pages(a: SpecApp, down: KeyEvent, up: KeyEvent)
    requires
        a.mode == Mode::Browse,
        down.code == KeyCode::PageDown,
        up.code == KeyCode::PageUp,
    ensures
        a.scroll + 10 <= u16::MAX ==> a.key_pressed(down).scroll == a.scroll + 10,
        a.scroll >= 10 ==> a.key_pressed(up).scroll == a.scroll - 10,
        a.scroll < 10 ==> a.key_pressed(up).scroll == 0,
        a.scroll + 10 <= u16::MAX ==> a.key_pressed(down).key_pressed(up) == a,
{
    reveal(SpecApp::browse_key);
    reveal(SpecApp::scrolled);
}

// --- What keys ask for ------------------------------------------------------------

/// The feed that is selected.
pub open spec fn feed_selected(a: SpecApp) -> bool {
    a.feed_sel < a.feeds.len()
}

/// `b` asks the worker for one thing more than `a` did.
pub open spec fn asks(a: SpecApp, b: SpecApp, c: SpecCommand) -> bool {
    b.commands == a.commands.push(c)
}

/// `b` asks the worker for nothing more than `a` did.
pub open spec fn asks_nothing(a: SpecApp, b: SpecApp) -> bool {
    b.commands == a.commands
}

/// While browsing, the keys that speak of a feed speak of the selected one: `r` asks for it
/// anew, `d` unfollows it where the feeds have the focus, and Enter there opens it. Without a
/// feed they do nothing.
pub proof fn law_feed_keys(a: SpecApp, key: KeyEvent)
    requires
        a.mode == Mode::Browse,
    ensures
        key.code == KeyCode::Char('r') && feed_selected(a) ==> {
            let b = a.key_pressed(key);
            let p = a.feeds[a.feed_sel as int];
            asks(a, b, SpecCommand::Refresh(p.uri)) && b.open_pub == Some(p.uri) && b.loading
        },
        key.code == KeyCode::Char('d') && feed_selected(a) && a.focus == Focus::Sidebar ==> asks(
            a,
            a.key_pressed(key),
            SpecCommand::Unfollow(a.feeds[a.feed_sel as int].uri),
        ),
        key.code == KeyCode::Char('d') && a.focus != Focus::Sidebar ==> a.key_pressed(key) == a,
        key.code == KeyCode::Enter && feed_selected(a) && a.focus == Focus::Sidebar ==> {
            let b = a.key_pressed(key);
            let p = a.feeds[a.feed_sel as int];
            &&& asks(a, b, SpecCommand::OpenFeed(p.uri))
            &&& b.open_pub == Some(p.uri)
            &&& b.list_title == p.name
            &&& b.docs.len() == 0
            &&& b.focus == Focus::Posts
            &&& b.feeds == a.feeds && b.feed_sel == a.feed_sel
            &&& b.layout == a.prefs.layout_for(Some(p.uri))
        },
        (key.code == KeyCode::Char('r') || key.code == KeyCode::Char('d') || key.code
            == KeyCode::Enter && a.focus == Focus::Sidebar) && !feed_selected(a)
            ==> a.key_pressed(key) == a,
{
    reveal(SpecApp::browse_key);
    reveal(SpecApp::feed_refreshed);
    reveal(SpecApp::refreshing);
    reveal(SpecApp::feed_unfollowed);
    reveal(SpecApp::feed_opened);
    reveal(SpecApp::feed_shown);
    reveal(SpecApp::with_appearance);
    reveal(SpecApp::posts_focused);
}

/// Enter on a post opens it: it is asked for, its title is shown, the reader has the focus at
/// the first row, and nothing of the post before it is left.
pub proof fn law_a_post_opens(a: SpecApp, key: KeyEvent)
    requires
        a.mode == Mode::DocList || a.mode == Mode::Browse && a.focus == Focus::Posts,
        key.code == KeyCode::Enter,
    ensures
        a.doc_sel < a.docs.len() ==> {
            let b = a.key_pressed(key);
            let d = a.docs[a.doc_sel as int];
            &&& b.commands.last() == SpecCommand::OpenDoc(d.uri)
            &&& a.commands.is_prefix_of(b.commands)
            &&& b.reading_uri == Some(d.uri)
            &&& d.title.len() > 0 ==> b.reading_title == d.title
            &&& b.reading_description == d.description
            &&& b.reading_platform == d.publishing_platform
            &&& b.reading is None
            &&& b.scroll == 0
            &&& b.focus == Focus::Reader
            &&& b.mode == Mode::Browse
            &&& b.focused_link is None
            &&& b.docs == a.docs && b.doc_sel == a.doc_sel
        },
        a.doc_sel >= a.docs.len() ==> a.key_pressed(key) == a,
{
    reveal(SpecApp::browse_key);
    reveal(SpecApp::doclist_key);
    reveal(SpecApp::doc_opened);
    reveal(SpecApp::doc_shown);
    reveal(SpecApp::wanting_cover);
    reveal(SpecApp::wanting);
    let b = a.key_pressed(key);
    if a.doc_sel < a.docs.len() {
        assert(b.commands.subrange(0, a.commands.len() as int) =~= a.commands);
    }
}

/// `m` marks the open post as read, in the worker and on the screen.
pub proof fn law_a_post_is_marked_read(a: SpecApp, key: KeyEvent)
    requires
        a.mode == Mode::Browse,
        key.code == KeyCode::Char('m'),
    ensures
        a.reading_uri matches Some(uri) ==> asks(
            a,
            a.key_pressed(key),
            SpecCommand::SetRead(uri, true),
        ) && a.key_pressed(key).read_uris == a.read_uris.insert(uri),
        a.reading_uri is None ==> a.key_pressed(key) == a,
{
    reveal(SpecApp::browse_key);
    reveal(SpecApp::marked_read);
    reveal(SpecApp::read_noted);
    if a.reading_uri is Some && a.read_uris.contains(a.reading_uri->0) {
        assert(a.read_uris.insert(a.reading_uri->0) =~= a.read_uris);
    }
}

/// `i` turns images on and off, and has that kept; twice, they are as they were.
pub proof fn law_images_turn_on_and_off(a: SpecApp, key: KeyEvent)
    requires
        browsing(a),
        key.code == KeyCode::Char('i'),
    ensures
        a.key_pressed(key).show_images == !a.show_images,
        a.key_pressed(key).key_pressed(key).show_images == a.show_images,
        a.key_pressed(key).mode == a.mode,
        a.commands.push(SpecCommand::SetShowImages(!a.show_images)).is_prefix_of(
            a.key_pressed(key).commands,
        ),
        a.show_images ==> asks(a, a.key_pressed(key), SpecCommand::SetShowImages(false)),
{
    reveal(SpecApp::browse_key);
    reveal(SpecApp::doclist_key);
    reveal(SpecApp::images_toggled);
    reveal(SpecApp::images_switched);
    lemma_switching(a);
    lemma_switching(a.key_pressed(key));
}

proof fn lemma_switching(a: SpecApp)
    ensures
        a.images_toggled().show_images == !a.show_images,
        a.images_toggled().mode == a.mode,
        a.commands.push(SpecCommand::SetShowImages(!a.show_images)).is_prefix_of(
            a.images_toggled().commands,
        ),
{
    reveal(SpecApp::images_toggled);
    reveal(SpecApp::images_switched);
    reveal(SpecApp::wanting_current);
    let b = a.images_switched(!a.show_images);
    assert(b.commands.subrange(0, b.commands.len() as int) =~= b.commands);
    if !a.show_images {
        if b.reading is Some {
            lemma_wanting_all(b, crate::app::content::block_images(b.reading->0));
        }
        let c = match b.reading {
            Some(body) => b.wanting_all(crate::app::content::block_images(body)),
            None => b,
        };
        if b.reading_cover is Some {
            reveal(SpecApp::wanting);
            assert(c.wanting(b.reading_cover->0).commands.subrange(
                0,
                b.commands.len() as int,
            ) =~= b.commands) by {
                assert(b.commands.is_prefix_of(c.commands));
            }
        }
    }
}

proof fn lemma_wanting_all(a: SpecApp, sources: Seq<crate::model::SpecImageSource>)
    ensures
        a.wanting_all(sources).show_images == a.show_images,
        a.wanting_all(sources).mode == a.mode,
        a.wanting_all(sources).reading_cover == a.reading_cover,
        a.commands.is_prefix_of(a.wanting_all(sources).commands),
    decreases sources.len(),
{
    reveal(SpecApp::wanting);
    if sources.len() > 0 {
        lemma_wanting_all(a, sources.drop_last());
        let p = a.wanting_all(sources.drop_last());
        assert(p.wanting(sources.last()).commands.subrange(0, a.commands.len() as int)
            =~= a.commands);
    } else {
        assert(a.commands.subrange(0, a.commands.len() as int) =~= a.commands);
    }
}

/// `q` ends the program: the worker is told, and the screen closes.
pub proof fn law_the_program_ends(a: SpecApp, key: KeyEvent)
    requires
        browsing(a),
    ensures
        key.code == KeyCode::Char('q') ==> a.key_pressed(key).should_quit && asks(
            a,
            a.key_pressed(key),
            SpecCommand::Quit,
        ),
{
    reveal(SpecApp::browse_key);
    reveal(SpecApp::doclist_key);
    reveal(SpecApp::quitting);
}

/// The keys that open a dialog open that one, with nothing typed, and ask for nothing.
pub proof fn law_dialogs_open(a: SpecApp, key: KeyEvent)
    requires
        a.mode == Mode::Browse,
    ensures
        ({
            let b = a.key_pressed(key);
            &&& key.code == KeyCode::Char('a') ==> b.mode == Mode::AddFeed && b.input.len() == 0
                && asks_nothing(a, b)
            &&& key.code == KeyCode::Char('/') ==> b.mode == Mode::Search && b.input.len() == 0
                && asks_nothing(a, b)
            &&& key.code == KeyCode::Char(':') ==> b.mode == Mode::Palette && b.input.len() == 0
                && b.palette_sel == 0 && asks_nothing(a, b)
            &&& key.code == KeyCode::Char('?') ==> b.mode == Mode::Help && asks_nothing(a, b)
            &&& key.code == KeyCode::Char('t') ==> b.mode == Mode::ThemePicker && b.menu_target
                is None && asks_nothing(a, b)
            &&& key.code == KeyCode::Char('L') && a.account is None ==> b.mode == Mode::SignIn
                && b.input.len() == 0 && asks_nothing(a, b)
            &&& key.code == KeyCode::Char('L') && a.account is Some ==> asks(
                a,
                b,
                SpecCommand::Logout,
            ) && b.mode == Mode::Browse
        }),
{
    reveal(SpecApp::browse_key);
    reveal(SpecApp::prompting);
    reveal(SpecApp::palette_opened);
    reveal(SpecApp::picking_theme);
    reveal(SpecApp::untargeted);
    reveal(SpecApp::account_toggled);
    reveal(SpecApp::signing_out);
    reveal(SpecApp::entering);
}

/// Help and the whole status line close at any key, and nothing else happens.
pub proof fn law_notices_close(a: SpecApp, key: KeyEvent)
    requires
        a.mode == Mode::Help || a.mode == Mode::StatusDetail,
    ensures
        a.key_pressed(key) == (SpecApp { mode: Mode::Browse, ..a }),
{
    reveal(SpecApp::entering);
}

// --- Links ------------------------------------------------------------------------

/// `n` goes to the next link and `N` to the one before, around the ends; Enter in the reader
/// opens the link that has the focus.
pub proof fn law_link_keys(a: SpecApp, key: KeyEvent, i: usize)
    requires
        a.wf(),
        a.mode == Mode::Browse,
        a.attribution_link is None,
        a.links.len() <= usize::MAX,
        i < a.links.len(),
    ensures
        key.code == KeyCode::Char('n') && a.focused_link == Some(i) ==> a.key_pressed(
            key,
        ).focused_link == Some(
            if i + 1 < a.links.len() {
                (i + 1) as usize
            } else {
                0
            },
        ),
        key.code == KeyCode::Char('N') && a.focused_link == Some(i) ==> a.key_pressed(
            key,
        ).focused_link == Some(
            if i > 0 {
                (i - 1) as usize
            } else {
                (a.links.len() - 1) as usize
            },
        ),
        key.code == KeyCode::Char('n') && a.focused_link is None ==> a.key_pressed(
            key,
        ).focused_link == Some(0usize),
        key.code == KeyCode::Char('N') && a.focused_link is None ==> a.key_pressed(
            key,
        ).focused_link == Some((a.links.len() - 1) as usize),
        key.code == KeyCode::Char('n') || key.code == KeyCode::Char('N') ==> {
            let b = a.key_pressed(key);
            b.focus == Focus::Reader && b.links == a.links && asks_nothing(a, b) && b.to_open
                == a.to_open
        },
        key.code == KeyCode::Enter && a.focus == Focus::Reader && a.focused_link == Some(i)
            ==> a.key_pressed(key).to_open == a.to_open.push(a.links[i as int]),
        key.code == KeyCode::Enter && a.focus == Focus::Reader && a.focused_link is None
            ==> a.key_pressed(key).to_open == a.to_open,
{
    reveal(SpecApp::browse_key);
    reveal(SpecApp::link_stepped);
    reveal(SpecApp::link_focused);
    reveal(SpecApp::focused_link_opened);
    reveal(SpecApp::link_opened);
    let n = a.links.len() as int;
    assert(i + 1 < n ==> (i + 1) % n == i + 1) by (nonlinear_arith)
        requires
            0 <= i < n,
    ;
    assert(i + 1 == n ==> (i + 1) % n == 0) by (nonlinear_arith)
        requires
            0 <= i < n,
    ;
    assert(i > 0 ==> (i - 1) % n == i - 1) by (nonlinear_arith)
        requires
            0 <= i < n,
    ;
    assert(i == 0 ==> (i - 1) % n == n - 1) by {
        if i == 0 {
            vstd::arithmetic::div_mod::lemma_mod_add_multiples_vanish(-1, n);
            vstd::arithmetic::div_mod::lemma_small_mod((n - 1) as nat, n as nat);
        }
    }
}

// --- Prompts ----------------------------------------------------------------------

/// Something is typed in.
pub open spec fn prompting(a: SpecApp) -> bool {
    a.mode == Mode::Search || a.mode == Mode::AddFeed || a.mode == Mode::SignIn
}

/// A character that is typed is appended, and Backspace takes the last one away: together
/// they change nothing.
pub proof fn law_typing(a: SpecApp, key: KeyEvent, back: KeyEvent, c: char)
    requires
        prompting(a) || a.mode == Mode::Palette,
        key.code == KeyCode::Char(c),
        back.code == KeyCode::Backspace,
    ensures
        a.key_pressed(key).input == a.input.push(c),
        a.key_pressed(key).mode == a.mode,
        asks_nothing(a, a.key_pressed(key)),
        a.key_pressed(key).key_pressed(back).input == a.input,
        prompting(a) ==> a.key_pressed(key).key_pressed(back) == a,
        a.input.len() > 0 ==> a.key_pressed(back).input == a.input.drop_last(),
        a.input.len() == 0 ==> a.key_pressed(back).input == a.input,
{
    reveal(SpecApp::input_key);
    reveal(SpecApp::palette_key);
    reveal(SpecApp::typed);
    reveal(SpecApp::palette_typed);
    assert(a.input.push(c).drop_last() =~= a.input);
}

/// Escape leaves a prompt, and asks for nothing.
pub proof fn law_a_prompt_is_left(a: SpecApp, key: KeyEvent)
    requires
        prompting(a) || a.mode == Mode::Palette,
        key.code == KeyCode::Esc,
    ensures
        a.key_pressed(key) == (SpecApp { mode: Mode::Browse, input: Seq::empty(), ..a }),
{
    reveal(SpecApp::input_key);
    reveal(SpecApp::palette_key);
    reveal(SpecApp::prompting);
}

/// Enter asks for what was typed, without the space around it: to follow it, to search for
/// it or to sign in with it, as the prompt has it. The prompt closes. Where nothing but space
/// was typed nothing is asked for.
pub proof fn law_a_prompt_is_sent(a: SpecApp, key: KeyEvent, text: Seq<char>)
    requires
        prompting(a),
        key.code == KeyCode::Enter,
        text == crate::text::trimmed(a.input),
    ensures
        a.key_pressed(key).mode == Mode::Browse,
        a.key_pressed(key).input.len() == 0,
        text.len() == 0 ==> asks_nothing(a, a.key_pressed(key)),
        text.len() > 0 ==> asks(
            a,
            a.key_pressed(key),
            match a.mode {
                Mode::Search => SpecCommand::Search(text),
                Mode::AddFeed => SpecCommand::AddFeed(text),
                _ => SpecCommand::Login(text),
            },
        ),
{
    reveal(SpecApp::input_key);
    reveal(SpecApp::submitted);
    reveal(SpecApp::prompting);
    reveal(SpecApp::adding_feed);
    reveal(SpecApp::searching);
    reveal(SpecApp::signing_in);
}

// --- Menus ------------------------------------------------------------------------

/// A menu has the keys.
pub open spec fn in_menu(a: SpecApp) -> bool {
    a.mode == Mode::ThemePicker || a.mode == Mode::LayoutPicker || a.mode == Mode::BlogMenu
        || a.mode == Mode::PublicationPicker
}

/// The last row of a menu: three themes and the custom one, four layouts, a blog's three
/// choices, or the publications to choose from.
pub open spec fn menu_end(a: SpecApp) -> int {
    match a.mode {
        Mode::BlogMenu => 2,
        Mode::PublicationPicker => if a.publication_choices.len() == 0 {
            0
        } else {
            a.publication_choices.len() - 1
        },
        _ => 3,
    }
}

/// In a menu, up and down move by one row and stay at the ends; nothing else happens.
pub proof fn law_menus_move_by_rows(a: SpecApp, key: KeyEvent)
    requires
        in_menu(a),
        a.publication_choices.len() <= usize::MAX,
    ensures
        is_up(key) ==> a.key_pressed(key) == (SpecApp {
            menu_sel: if a.menu_sel > 0 {
                (a.menu_sel - 1) as usize
            } else {
                0
            },
            ..a
        }),
        is_down(key) && a.menu_sel < menu_end(a) ==> a.key_pressed(key) == (SpecApp {
            menu_sel: (a.menu_sel + 1) as usize,
            ..a
        }),
        is_down(key) && a.menu_sel == menu_end(a) ==> a.key_pressed(key) == a,
{
    reveal(SpecApp::theme_picker_key);
    reveal(SpecApp::layout_picker_key);
    reveal(SpecApp::blog_menu_key);
    reveal(SpecApp::publication_picker_key);
    reveal(SpecApp::menu_at);
}

/// In the publication picker, the space bar turns the choice of the selected row around and
/// touches no other, and Enter follows what is chosen. Escape follows nothing.
pub proof fn law_publications_are_picked(a: SpecApp, key: KeyEvent)
    requires
        a.mode == Mode::PublicationPicker,
    ensures
        key.code == KeyCode::Char(' ') ==> {
            let b = a.key_pressed(key);
            &&& b.publication_choices.len() == a.publication_choices.len()
            &&& forall|i: int|
                0 <= i < a.publication_choices.len() ==> {
                    &&& (#[trigger] b.publication_choices[i]).0 == a.publication_choices[i].0
                    &&& b.publication_choices[i].1 == a.publication_choices[i].1
                    &&& b.publication_choices[i].2 == (if i == a.menu_sel {
                        !a.publication_choices[i].2
                    } else {
                        a.publication_choices[i].2
                    })
                }
            &&& asks_nothing(a, b)
            &&& b.mode == a.mode
        },
        key.code == KeyCode::Esc ==> asks_nothing(a, a.key_pressed(key)) && a.key_pressed(key).mode
            == Mode::Browse && a.key_pressed(key).publication_choices.len() == 0,
        key.code == KeyCode::Enter ==> {
            let b = a.key_pressed(key);
            &&& b.mode == Mode::Browse
            &&& b.commands.len() == a.commands.len() + 1
            &&& b.commands.drop_last() == a.commands
            &&& b.commands.last() matches SpecCommand::FollowPublications(uris)
                && forall|uri: Seq<char>| #[trigger]
                uris.contains(uri) <==> exists|i: int|
                    0 <= i < a.publication_choices.len() && (
                    #[trigger] a.publication_choices[i]).2 && a.publication_choices[i].0 == uri
        },
{
    reveal(SpecApp::publication_picker_key);
    reveal(SpecApp::choices_set);
    reveal(SpecApp::adding_cancelled);
    reveal(SpecApp::chosen_followed);
    let b = a.key_pressed(key);
    if key.code == KeyCode::Enter {
        assert(b.commands.drop_last() =~= a.commands);
        assert forall|uri: Seq<char>| #[trigger]
            crate::app::dialogs::chosen(a.publication_choices).contains(uri) <==> exists|i: int|
                0 <= i < a.publication_choices.len() && (#[trigger] a.publication_choices[i]).2
                    && a.publication_choices[i].0 == uri by {
            crate::app::dialogs::law_only_chosen_rows_are_followed(a.publication_choices, uri);
        }
    }
}

/// The question about follows that the account lacks: `s` asks for a record of each, `r`
/// unfollows each, and Escape leaves them; it is not asked again.
pub proof fn law_local_follows_are_settled(a: SpecApp, key: KeyEvent)
    requires
        a.mode == Mode::SyncPrompt,
    ensures
        key.code == KeyCode::Char('s') || key.code == KeyCode::Char('r') || key.code
            == KeyCode::Esc ==> a.key_pressed(key).mode == Mode::Browse && a.key_pressed(
            key,
        ).sync_prompt.len() == 0,
        key.code == KeyCode::Esc ==> asks_nothing(a, a.key_pressed(key)),
        key.code == KeyCode::Char('s') ==> {
            let b = a.key_pressed(key);
            &&& b.commands.len() == a.commands.len() + 1
            &&& b.commands.drop_last() == a.commands
            &&& b.commands.last() matches SpecCommand::SubscribeLocal(uris) && uris.len()
                == a.sync_prompt.len() && forall|i: int|
                0 <= i < uris.len() ==> #[trigger] uris[i] == a.sync_prompt[i].0
        },
        key.code == KeyCode::Char('r') ==> {
            let b = a.key_pressed(key);
            &&& b.commands.len() == a.commands.len() + a.sync_prompt.len()
            &&& b.commands.take(a.commands.len() as int) == a.commands
            &&& forall|i: int|
                0 <= i < a.sync_prompt.len() ==> b.commands[a.commands.len() + i]
                    == SpecCommand::Unfollow((#[trigger] a.sync_prompt[i]).0)
        },
{
    reveal(SpecApp::sync_prompt_key);
    reveal(SpecApp::follows_subscribed);
    reveal(SpecApp::follows_removed);
    reveal(SpecApp::sync_dismissed);
    let b = a.key_pressed(key);
    if key.code == KeyCode::Char('s') {
        assert(b.commands.drop_last() =~= a.commands);
    }
    if key.code == KeyCode::Char('r') {
        assert(b.commands.take(a.commands.len() as int) =~= a.commands);
    }
}

} // verus!
