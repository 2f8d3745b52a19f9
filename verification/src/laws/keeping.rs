//! Keeping: what is held stays, whatever key is pressed and whatever arrives.
use vstd::prelude::*;

use crate::app::state::{Mode, SpecApp};
use crate::input::KeyEvent;
use crate::worker::{SpecCommand, SpecEvent};

verus! {

/// What is held is kept: the feeds, the images, the account, what was asked for and what is
/// to be opened. A list of posts or a body is the same or is put away, and a mark of what was
/// read stays. Preferences that change are saved.
pub open spec fn keeps(a: SpecApp, b: SpecApp) -> bool {
    &&& b.feeds == a.feeds
    &&& b.account == a.account
    &&& b.images == a.images
    &&& b.freshened == a.freshened
    &&& b.has_older == a.has_older
    &&& b.docs == a.docs || b.docs.len() == 0
    &&& b.reading == a.reading || b.reading is None
    &&& forall|uri: Seq<char>| a.read_uris.contains(uri) ==> #[trigger] b.read_uris.contains(uri)
    &&& a.commands.is_prefix_of(b.commands)
    &&& a.to_open.is_prefix_of(b.to_open)
    &&& b.prefs != a.prefs ==> b.commands.len() > 0 && b.commands.last() == SpecCommand::SavePrefs(
        b.prefs,
    )
}

proof fn lemma_itself(a: SpecApp)
    ensures
        keeps(a, a),
{
    assert(a.commands.subrange(0, a.commands.len() as int) =~= a.commands);
    assert(a.to_open.subrange(0, a.to_open.len() as int) =~= a.to_open);
}

broadcast proof fn lemma_one_more(a: Seq<SpecCommand>, x: SpecCommand)
    ensures
        #[trigger] a.is_prefix_of(a.push(x)),
{
    assert(a.push(x).subrange(0, a.len() as int) =~= a);
}

proof fn lemma_wanting(a: SpecApp)
    ensures
        keeps(a, a.wanting_current()),
        a.wanting_current().prefs == a.prefs,
        a.commands.is_prefix_of(a.wanting_current().commands),
{
    reveal(SpecApp::wanting_current);
    reveal(SpecApp::wanting);
    lemma_itself(a);
    match a.reading {
        Some(body) => {
            crate::laws::screen::lemma_wanting_all(a, crate::app::content::block_images(body));
        },
        None => {},
    }
    let b = a.wanting_current();
    assert(b.commands.subrange(0, a.commands.len() as int) =~= a.commands);
}

proof fn lemma_choice(a: SpecApp)
    ensures
        keeps(a, a.choice_made()),
        keeps(a, a.layout_done()),
        keeps(a, a.edit_cancelled().choice_made()),
{
    reveal(SpecApp::choice_made);
    reveal(SpecApp::onboarding_over);
    reveal(SpecApp::layout_done);
    reveal(SpecApp::picking_theme);
    reveal(SpecApp::edit_cancelled);
    lemma_itself(a);
    let b = a.choice_made();
    assert(b.commands.subrange(0, a.commands.len() as int) =~= a.commands);
    let c = a.edit_cancelled().choice_made();
    assert(c.commands.subrange(0, a.commands.len() as int) =~= a.commands);
}

proof fn lemma_theme_chosen(a: SpecApp, i: usize)
    ensures
        keeps(a, a.theme_chosen(i)),
{
    reveal(SpecApp::theme_chosen);
    reveal(SpecApp::untargeted);
    reveal(SpecApp::blog_theme_set);
    reveal(SpecApp::theme_set);
    reveal(SpecApp::editing_theme);
    reveal(SpecApp::editing_blog_theme);
    reveal(SpecApp::choice_made);
    reveal(SpecApp::onboarding_over);
    lemma_itself(a);
    let b = a.theme_chosen(i);
    assert(b.commands.subrange(0, a.commands.len() as int) =~= a.commands);
}

proof fn lemma_theme_committed(a: SpecApp)
    ensures
        keeps(a, a.theme_committed()),
{
    reveal(SpecApp::theme_committed);
    reveal(SpecApp::custom_theme_set);
    reveal(SpecApp::blog_custom_set);
    reveal(SpecApp::choice_made);
    reveal(SpecApp::onboarding_over);
    lemma_itself(a);
    let b = a.theme_committed();
    assert(b.commands.subrange(0, a.commands.len() as int) =~= a.commands);
}

proof fn lemma_layout_chosen(a: SpecApp)
    ensures
        keeps(a, a.layout_chosen()),
{
    reveal(SpecApp::layout_chosen);
    reveal(SpecApp::untargeted);
    reveal(SpecApp::blog_layout_set);
    reveal(SpecApp::layout_set);
    reveal(SpecApp::layout_done);
    reveal(SpecApp::picking_theme);
    lemma_itself(a);
    let b = a.layout_chosen();
    assert(b.commands.subrange(0, a.commands.len() as int) =~= a.commands);
}

proof fn lemma_blog_menu(a: SpecApp)
    ensures
        keeps(a, a.target_reset()),
        keeps(a, a.picking_theme()),
        keeps(a, a.picking_layout()),
        keeps(a, a.untargeted().entering(Mode::Browse)),
        forall|row: usize| keeps(a, #[trigger] a.menu_at(row)),
{
    reveal(SpecApp::target_reset);
    reveal(SpecApp::blog_reset);
    reveal(SpecApp::untargeted);
    reveal(SpecApp::entering);
    reveal(SpecApp::picking_theme);
    reveal(SpecApp::picking_layout);
    reveal(SpecApp::menu_at);
    lemma_itself(a);
    let b = a.target_reset();
    assert(b.commands.subrange(0, a.commands.len() as int) =~= a.commands);
}

proof fn lemma_editor(a: SpecApp, key: KeyEvent)
    requires
        a.mode == Mode::ThemeEditor,
    ensures
        keeps(a, a.key_pressed(key)),
{
    reveal(SpecApp::theme_editor_key);
    reveal(SpecApp::channel_adjusted);
    lemma_itself(a);
    lemma_choice(a);
    lemma_theme_committed(a);
}

proof fn lemma_menus(a: SpecApp, key: KeyEvent)
    requires
        a.mode == Mode::ThemePicker || a.mode == Mode::LayoutPicker || a.mode == Mode::BlogMenu,
    ensures
        keeps(a, a.key_pressed(key)),
{
    reveal(SpecApp::theme_picker_key);
    reveal(SpecApp::layout_picker_key);
    reveal(SpecApp::blog_menu_key);
    lemma_itself(a);
    lemma_choice(a);
    lemma_theme_chosen(a, a.menu_sel);
    lemma_layout_chosen(a);
    lemma_blog_menu(a);
}

proof fn lemma_prompts(a: SpecApp, key: KeyEvent)
    requires
        a.mode == Mode::Search || a.mode == Mode::AddFeed || a.mode == Mode::SignIn || a.mode
            == Mode::Help || a.mode == Mode::StatusDetail,
    ensures
        keeps(a, a.key_pressed(key)),
{
    reveal(SpecApp::input_key);
    reveal(SpecApp::typed);
    reveal(SpecApp::submitted);
    reveal(SpecApp::adding_feed);
    reveal(SpecApp::searching);
    reveal(SpecApp::signing_in);
    reveal(SpecApp::prompting);
    reveal(SpecApp::entering);
    lemma_itself(a);
    let b = a.key_pressed(key);
    assert(b.commands.subrange(0, a.commands.len() as int) =~= a.commands);
}

proof fn lemma_dialogs(a: SpecApp, key: KeyEvent)
    requires
        a.mode == Mode::SyncPrompt || a.mode == Mode::PublicationPicker,
    ensures
        keeps(a, a.key_pressed(key)),
{
    reveal(SpecApp::sync_prompt_key);
    reveal(SpecApp::sync_dismissed);
    reveal(SpecApp::follows_subscribed);
    reveal(SpecApp::follows_removed);
    reveal(SpecApp::publication_picker_key);
    reveal(SpecApp::choices_set);
    reveal(SpecApp::adding_cancelled);
    reveal(SpecApp::chosen_followed);
    reveal(SpecApp::menu_at);
    reveal(SpecApp::entering);
    lemma_itself(a);
    let b = a.key_pressed(key);
    assert(b.commands.subrange(0, a.commands.len() as int) =~= a.commands);
}

proof fn lemma_opening(a: SpecApp)
    ensures
        keeps(a, a.doc_opened()),
        keeps(a, a.feed_opened()),
        keeps(a, a.post_browsed()),
        keeps(a, a.focused_link_opened()),
        keeps(a, a.images_toggled()),
{
    reveal(SpecApp::doc_opened);
    reveal(SpecApp::doc_shown);
    reveal(SpecApp::wanting_cover);
    reveal(SpecApp::wanting);
    reveal(SpecApp::feed_opened);
    reveal(SpecApp::feed_shown);
    reveal(SpecApp::with_appearance);
    reveal(SpecApp::posts_focused);
    reveal(SpecApp::post_browsed);
    reveal(SpecApp::link_opened);
    reveal(SpecApp::focused_link_opened);
    reveal(SpecApp::images_toggled);
    reveal(SpecApp::images_switched);
    lemma_itself(a);
    let b = a.doc_opened();
    assert(b.commands.subrange(0, a.commands.len() as int) =~= a.commands);
    let c = a.feed_opened();
    assert(c.commands.subrange(0, a.commands.len() as int) =~= a.commands);
    let d = a.post_browsed();
    assert(d.to_open.subrange(0, a.to_open.len() as int) =~= a.to_open);
    let e = a.focused_link_opened();
    assert(e.to_open.subrange(0, a.to_open.len() as int) =~= a.to_open);
    let on = a.images_switched(true);
    lemma_wanting(on);
    let f = a.images_toggled();
    assert(f.commands.subrange(0, a.commands.len() as int) =~= a.commands);
}

proof fn lemma_moving(a: SpecApp)
    ensures
        keeps(a, a.moved_down()),
        keeps(a, a.moved_up()),
        keeps(a, a.post_down()),
        keeps(a, a.at_top()),
        keeps(a, a.at_bottom()),
{
    reveal(SpecApp::moved_down);
    reveal(SpecApp::moved_up);
    reveal(SpecApp::post_down);
    reveal(SpecApp::older_wanted);
    reveal(SpecApp::post_at);
    reveal(SpecApp::feed_at);
    reveal(SpecApp::scrolled);
    reveal(SpecApp::at_top);
    reveal(SpecApp::at_bottom);
    lemma_itself(a);
    let b = a.post_down();
    assert(b.commands.subrange(0, a.commands.len() as int) =~= a.commands);
}

proof fn lemma_others(a: SpecApp)
    ensures
        keeps(a, a.quitting()),
        keeps(a, a.palette_opened()),
        keeps(a, a.feed_refreshed()),
        keeps(a, a.feed_unfollowed()),
        keeps(a, a.marked_read()),
        keeps(a, a.blog_menu_opened()),
        keeps(a, a.layout_cycled()),
        keeps(a, a.pane_adjusted(-2)),
        keeps(a, a.pane_adjusted(2)),
        keeps(a, a.account_toggled()),
        keeps(a, a.signing_out()),
        keeps(a, a.link_stepped(1)),
        keeps(a, a.link_stepped(-1)),
        keeps(a, a.home()),
        keeps(a, a.untargeted().picking_theme()),
        keeps(a, a.untargeted().picking_layout()),
        forall|m: Mode| keeps(a, #[trigger] a.prompting(m)),
        forall|m: Mode| keeps(a, #[trigger] a.entering(m)),
{
    broadcast use lemma_one_more;

    reveal(SpecApp::quitting);
    reveal(SpecApp::palette_opened);
    reveal(SpecApp::feed_refreshed);
    reveal(SpecApp::refreshing);
    reveal(SpecApp::feed_unfollowed);
    reveal(SpecApp::marked_read);
    reveal(SpecApp::read_noted);
    reveal(SpecApp::blog_menu_opened);
    reveal(SpecApp::layout_cycled);
    reveal(SpecApp::pane_adjusted);
    reveal(SpecApp::width_set);
    reveal(SpecApp::account_toggled);
    reveal(SpecApp::signing_out);
    reveal(SpecApp::link_stepped);
    reveal(SpecApp::link_focused);
    reveal(SpecApp::home);
    reveal(SpecApp::untargeted);
    reveal(SpecApp::picking_theme);
    reveal(SpecApp::picking_layout);
    reveal(SpecApp::prompting);
    reveal(SpecApp::entering);
    lemma_itself(a);
}

proof fn lemma_browsing(a: SpecApp, key: KeyEvent)
    requires
        a.mode == Mode::Browse || a.mode == Mode::DocList,
    ensures
        keeps(a, a.key_pressed(key)),
{
    reveal(SpecApp::browse_key);
    reveal(SpecApp::doclist_key);
    reveal(SpecApp::focused);
    reveal(SpecApp::scrolled);
    reveal(SpecApp::post_at);
    lemma_itself(a);
    lemma_opening(a);
    lemma_moving(a);
    lemma_others(a);
}

proof fn lemma_running(a: SpecApp, key: KeyEvent)
    requires
        a.mode == Mode::Palette,
    ensures
        keeps(a, a.key_pressed(key)),
{
    reveal(SpecApp::palette_key);
    reveal(SpecApp::palette_typed);
    reveal(SpecApp::palette_at);
    reveal(SpecApp::palette_ran);
    reveal(SpecApp::running);
    reveal(SpecApp::prompting);
    lemma_itself(a);
    lemma_others(a);
    lemma_others(a.prompting(Mode::Browse));
}

/// Whatever key is pressed, what is held is kept, what was asked for is still asked for, and
/// preferences that change are saved.
pub proof fn law_keys_keep_what_is_held(a: SpecApp, key: KeyEvent)
    ensures
        keeps(a, a.key_pressed(key)),
{
    match a.mode {
        Mode::Palette => lemma_running(a, key),
        Mode::Browse => lemma_browsing(a, key),
        Mode::DocList => lemma_browsing(a, key),
        Mode::SyncPrompt => lemma_dialogs(a, key),
        Mode::PublicationPicker => lemma_dialogs(a, key),
        Mode::ThemePicker => lemma_menus(a, key),
        Mode::ThemeEditor => lemma_editor(a, key),
        Mode::LayoutPicker => lemma_menus(a, key),
        Mode::BlogMenu => lemma_menus(a, key),
        _ => lemma_prompts(a, key),
    }
}

/// What arrives changes what it is about: feeds come from feed lists, posts from lists and
/// searches, images from images, the account from signing in and out; what is typed, what is
/// preferred and what is to be opened are nobody's but the reader's.
pub proof fn law_arrivals_change_what_they_are_about(a: SpecApp, e: SpecEvent)
    ensures
        ({
            let b = a.applied(e);
            &&& !(e is Feeds) ==> b.feeds == a.feeds && b.feed_sel == a.feed_sel
            &&& !(e is Docs) && !(e is Results) ==> b.docs == a.docs && b.doc_sel == a.doc_sel
            &&& !(e is Image) ==> b.images == a.images
            &&& !(e is Account) ==> b.account == a.account
            &&& !(e is Doc) ==> b.reading == a.reading && b.scroll == a.scroll && b.links == a.links
            &&& !(e is ShowImages) ==> b.show_images == a.show_images
            &&& !(e is SyncDiff) ==> b.sync_prompt == a.sync_prompt
            &&& !(e is ChoosePublications) ==> b.publication_choices == a.publication_choices
            &&& !(e is Results) && !(e is SyncDiff) && !(e is ChoosePublications) ==> b.mode
                == a.mode
            &&& b.input == a.input
            &&& b.prefs == a.prefs
            &&& b.focus == a.focus
            &&& b.open_pub == a.open_pub
            &&& b.reading_uri == a.reading_uri
            &&& b.to_open == a.to_open
            &&& b.should_quit == a.should_quit
            &&& a.commands.is_prefix_of(b.commands)
        }),
{
    reveal(SpecApp::feeds_arrived);
    reveal(SpecApp::docs_arrived);
    reveal(SpecApp::image_arrived);
    reveal(SpecApp::results_arrived);
    reveal(SpecApp::images_set);
    reveal(SpecApp::account_arrived);
    reveal(SpecApp::diff_arrived);
    reveal(SpecApp::choices_arrived);
    reveal(SpecApp::error_arrived);
    reveal(SpecApp::status_arrived);
    lemma_itself(a);
    match e {
        SpecEvent::Doc { uri, body, publishing_platform, from_cache } => {
            lemma_doc(a, uri, body, publishing_platform, from_cache);
        },
        SpecEvent::ShowImages(on) => {
            lemma_wanting(SpecApp { show_images: on, ..a });
            lemma_wanting_frame(SpecApp { show_images: on, ..a });
        },
        _ => {},
    }
}

proof fn lemma_wanting_frame(a: SpecApp)
    ensures
        a.wanting_current() == (SpecApp { commands: a.wanting_current().commands, ..a }),
{
    reveal(SpecApp::wanting_current);
    reveal(SpecApp::wanting);
    match a.reading {
        Some(body) => {
            crate::laws::screen::lemma_wanting_all(a, crate::app::content::block_images(body));
        },
        None => {},
    }
}

proof fn lemma_doc(
    a: SpecApp,
    uri: Seq<char>,
    body: Seq<crate::model::SpecBlock>,
    platform: Option<crate::model::PublishingPlatform>,
    from_cache: bool,
)
    ensures
        ({
            let b = a.doc_arrived(uri, body, platform, from_cache);
            &&& b.feeds == a.feeds && b.feed_sel == a.feed_sel
            &&& b.docs == a.docs && b.doc_sel == a.doc_sel
            &&& b.images == a.images
            &&& b.account == a.account
            &&& b.show_images == a.show_images
            &&& b.sync_prompt == a.sync_prompt
            &&& b.publication_choices == a.publication_choices
            &&& b.mode == a.mode
            &&& b.input == a.input
            &&& b.prefs == a.prefs
            &&& b.focus == a.focus
            &&& b.open_pub == a.open_pub
            &&& b.reading_uri == a.reading_uri
            &&& b.to_open == a.to_open
            &&& b.should_quit == a.should_quit
            &&& a.commands.is_prefix_of(b.commands)
            &&& a.reading_uri == Some(uri) && (a.reading_description is None
                || a.reading_description->0.len() == 0 || body.len() != 1) ==> b.reading == Some(
                body,
            )
            &&& a.reading_uri is Some && a.reading_uri != Some(uri) ==> b.reading == a.reading
        }),
{
    reveal(SpecApp::doc_arrived);
    reveal(SpecApp::body_arrived);
    reveal(SpecApp::platform_set);
    reveal(SpecApp::body_set);
    reveal(SpecApp::links_rebuilt);
    reveal(SpecApp::read_noted);
    reveal(SpecApp::freshening);
    reveal(SpecApp::settled);
    lemma_itself(a);
    let shown = a.shown_body(body);
    let p = a.platform_set(platform);
    crate::laws::screen::lemma_wanting_all(p, crate::app::content::block_images(shown));
    let b = a.doc_arrived(uri, body, platform, from_cache);
    assert(b.commands.subrange(0, a.commands.len() as int) =~= a.commands);
    if a.reading_description is Some && a.reading_description->0.len() == 0 {
        assert(crate::text::trimmed(a.reading_description->0).len() == 0);
    }
}

/// A body for the open post is shown, first or anew, and one for another post is not. A post
/// of which there is only the description shows it, and a word on where the rest is.
pub proof fn law_the_open_post_is_shown(
    a: SpecApp,
    uri: Seq<char>,
    body: Seq<crate::model::SpecBlock>,
    platform: Option<crate::model::PublishingPlatform>,
    from_cache: bool,
)
    requires
        a.reading_uri is Some,
    ensures
        ({
            let b = a.applied(
                SpecEvent::Doc { uri, body, publishing_platform: platform, from_cache },
            );
            &&& a.reading_uri != Some(uri) ==> b.reading == a.reading
            &&& a.reading_uri == Some(uri) ==> b.reading is Some && body.is_prefix_of(b.reading->0)
            &&& a.reading_uri == Some(uri) && body.len() != 1 ==> b.reading == Some(body)
            &&& a.reading_uri == Some(uri) ==> b.reading->0.len() <= body.len() + 1
            &&& !b.loading
        }),
{
    reveal(SpecApp::doc_arrived);
    reveal(SpecApp::body_arrived);
    reveal(SpecApp::platform_set);
    reveal(SpecApp::body_set);
    reveal(SpecApp::links_rebuilt);
    reveal(SpecApp::read_noted);
    reveal(SpecApp::freshening);
    reveal(SpecApp::settled);
    lemma_doc(a, uri, body, platform, from_cache);
    let shown = a.shown_body(body);
    let p = a.platform_set(platform);
    crate::laws::screen::lemma_wanting_all(p, crate::app::content::block_images(shown));
    assert(shown.subrange(0, body.len() as int) =~= body);
}

/// Whoever searches leaves the feed that was open, so that its posts do not come between.
pub proof fn law_a_search_leaves_the_feed(a: SpecApp, key: KeyEvent)
    requires
        a.mode == Mode::Search,
        key.code == crate::input::KeyCode::Enter,
        crate::text::trimmed(a.input).len() > 0,
    ensures
        a.key_pressed(key).open_pub is None,
        a.key_pressed(key).commands == a.commands.push(
            SpecCommand::Search(crate::text::trimmed(a.input)),
        ),
{
    reveal(SpecApp::input_key);
    reveal(SpecApp::submitted);
    reveal(SpecApp::searching);
    reveal(SpecApp::prompting);
}

/// A post that is read for the first time counts its feed's unread posts down by one; read
/// again, it counts nothing, and no other feed's count changes.
pub proof fn law_reading_counts_down(
    a: SpecApp,
    uri: Seq<char>,
    body: Seq<crate::model::SpecBlock>,
    platform: Option<crate::model::PublishingPlatform>,
    from_cache: bool,
    feed: Seq<char>,
    other: Seq<char>,
)
    requires
        a.reading_uri == Some(uri),
        a.open_pub == Some(feed),
        a.unread_counts.dom().contains(feed),
    ensures
        ({
            let b = a.applied(
                SpecEvent::Doc { uri, body, publishing_platform: platform, from_cache },
            );
            &&& b.read_uris.contains(uri)
            &&& !a.read_uris.contains(uri) && a.unread_counts[feed] > 0 ==> b.unread_counts[feed]
                == a.unread_counts[feed] - 1
            &&& a.read_uris.contains(uri) || a.unread_counts[feed] == 0 ==> b.unread_counts[feed]
                == a.unread_counts[feed]
            &&& other != feed ==> b.unread_counts[other] == a.unread_counts[other]
        }),
{
    reveal(SpecApp::doc_arrived);
    reveal(SpecApp::body_arrived);
    reveal(SpecApp::platform_set);
    reveal(SpecApp::body_set);
    reveal(SpecApp::links_rebuilt);
    reveal(SpecApp::read_noted);
    reveal(SpecApp::freshening);
    reveal(SpecApp::settled);
    let shown = a.shown_body(body);
    let p = a.platform_set(platform);
    crate::laws::screen::lemma_wanting_all(p, crate::app::content::block_images(shown));
}

} // verus!
