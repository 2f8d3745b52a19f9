//! The screen: what arrives is shown, a post opens where it should, and the mouse does what
//! the keys do.
use vstd::prelude::*;

use crate::app::content::{
    block_images, block_links, inline_images, inline_links, item_images, item_links,
};
use crate::app::feeds::feed_url;
use crate::app::geometry::Rect;
use crate::app::matching::joined_url;
use crate::app::state::{Focus, Mode, SpecApp};
use crate::input::{KeyCode, KeyEvent, MouseEvent};
use crate::laws::keys::{asks_nothing, browsing};
use crate::model::{
    PublishingPlatform, SpecBlock, SpecDocument, SpecImage, SpecInline, SpecPublication,
};
use crate::text::{begins_with, matches_at, skip_char_back, without_trailing};
use crate::worker::{SpecCommand, SpecEvent};

verus! {

// --- A post in the browser --------------------------------------------------------

/// The publication at `i` is the first with a URI.
pub open spec fn first_with(feeds: Seq<SpecPublication>, uri: Seq<char>, i: int) -> bool {
    &&& 0 <= i < feeds.len()
    &&& feeds[i].uri == uri
    &&& forall|j: int| 0 <= j < i ==> (#[trigger] feeds[j]).uri != uri
}

proof fn lemma_feed_url(feeds: Seq<SpecPublication>, uri: Seq<char>, i: int, from: int)
    requires
        0 <= from <= feeds.len(),
        forall|j: int| 0 <= j < from ==> (#[trigger] feeds[j]).uri != uri,
    ensures
        first_with(feeds, uri, i) ==> feed_url(feeds, uri, from) == Some(feeds[i].url),
        (forall|j: int| 0 <= j < feeds.len() ==> (#[trigger] feeds[j]).uri != uri) ==> feed_url(
            feeds,
            uri,
            from,
        ) is None,
    decreases feeds.len() - from,
{
    if from < feeds.len() && feeds[from].uri != uri {
        lemma_feed_url(feeds, uri, i, from + 1);
    }
}

/// The address of a post is its publication's with the path behind it, and one slash between
/// them however either is written; it ends with the path.
pub proof fn law_a_post_has_its_own_address(base: Seq<char>, path: Seq<char>)
    requires
        base.len() == 0 || base.last() != '/',
        path.len() > 0,
        path[0] != '/',
    ensures
        joined_url(base, path) == base + seq!['/'] + path,
        joined_url(base, seq!['/'] + path) == base + seq!['/'] + path,
        joined_url(base + seq!['/'], path) == base + seq!['/'] + path,
        joined_url(base + seq!['/'], seq!['/'] + path) == base + seq!['/'] + path,
{
    reveal_strlit("/");
    assert("/"@ =~= seq!['/']);
    let rooted = seq!['/'] + path;
    let slashed = base + seq!['/'];
    assert(skip_char_back(base, '/', 0, base.len() as int) == base.len());
    assert(without_trailing(base, '/') =~= base);
    assert(slashed[base.len() as int] == '/');
    lemma_skip_back(base, base.len() as int);
    assert(without_trailing(slashed, '/') =~= base) by {
        assert(skip_char_back(slashed, '/', 0, slashed.len() as int) == skip_char_back(
            slashed,
            '/',
            0,
            base.len() as int,
        ));
        if base.len() > 0 {
            assert(slashed[base.len() - 1] == base.last());
        }
    }
    assert(!begins_with(path, "/"@)) by {
        if matches_at(path, "/"@, 0) {
            assert(path.subrange(0, 1)[0] == path[0]);
            assert("/"@[0] == '/');
        }
    }
    assert(begins_with(rooted, "/"@)) by {
        assert(rooted.subrange(0, 1) =~= "/"@);
    }
    assert(base + rooted =~= base + seq!['/'] + path);
}

proof fn lemma_skip_back(base: Seq<char>, n: int)
    requires
        n == base.len(),
        base.len() == 0 || base.last() != '/',
    ensures
        skip_char_back(base + seq!['/'], '/', 0, n) == n,
{
    if n > 0 {
        assert((base + seq!['/'])[n - 1] == base[n - 1]);
    }
}

/// `o` opens the selected post in the browser, at its own address; a post without a path at
/// its publication's. Where the publication is not followed nothing opens.
pub proof fn law_a_post_opens_in_the_browser(a: SpecApp, key: KeyEvent, i: int)
    requires
        browsing(a),
        key.code == KeyCode::Char('o'),
        a.doc_sel < a.docs.len(),
    ensures
        ({
            let d = a.docs[a.doc_sel as int];
            let b = a.key_pressed(key);
            &&& asks_nothing(a, b)
            &&& b.mode == a.mode && b.focus == a.focus && b.docs == a.docs && b.doc_sel == a.doc_sel
            &&& first_with(a.feeds, d.publication, i) ==> {
                &&& d.path is None ==> b.to_open == a.to_open.push(a.feeds[i].url)
                &&& d.path is Some && d.path->0.len() > 0 ==> b.to_open == a.to_open.push(
                    joined_url(a.feeds[i].url, d.path->0),
                )
            }
            &&& (forall|j: int|
                0 <= j < a.feeds.len() ==> (#[trigger] a.feeds[j]).uri != d.publication)
                ==> b.to_open == a.to_open
        }),
{
    reveal(SpecApp::browse_key);
    reveal(SpecApp::doclist_key);
    reveal(SpecApp::post_browsed);
    reveal(SpecApp::link_opened);
    lemma_feed_url(a.feeds, a.docs[a.doc_sel as int].publication, i, 0);
}

// --- What arrives -----------------------------------------------------------------

/// A body that arrives for the open post is shown as it is, from its first row, and its links
/// can be stepped through; the post counts as read. It is asked for anew where it came from
/// the cache.
pub proof fn law_a_body_is_shown(
    a: SpecApp,
    uri: Seq<char>,
    body: Seq<SpecBlock>,
    platform: Option<PublishingPlatform>,
    from_cache: bool,
)
    requires
        a.reading_uri == Some(uri),
        a.reading is None,
        a.reading_description is None,
    ensures
        ({
            let b = a.applied(
                SpecEvent::Doc { uri, body, publishing_platform: platform, from_cache },
            );
            &&& b.reading == Some(body)
            &&& b.reading_uri == Some(uri)
            &&& b.reading_platform == platform
            &&& b.scroll == 0
            &&& !b.loading
            &&& b.focused_link is None
            &&& b.read_uris.contains(uri)
            &&& platform is None ==> b.links == block_links(body)
            &&& b.links.take(block_links(body).len() as int) == block_links(body)
            &&& a.commands.is_prefix_of(b.commands)
            &&& from_cache && !a.freshened.contains(uri) ==> b.commands.last()
                == SpecCommand::FreshenDoc(uri)
            &&& !a.show_images && !from_cache ==> b.commands == a.commands
        }),
{
    reveal(SpecApp::doc_arrived);
    reveal(SpecApp::body_arrived);
    reveal(SpecApp::platform_set);
    reveal(SpecApp::body_set);
    reveal(SpecApp::links_rebuilt);
    reveal(SpecApp::read_noted);
    reveal(SpecApp::freshening);
    reveal(SpecApp::settled);
    reveal(SpecApp::wanting);
    let p = a.platform_set(platform);
    lemma_wanting_all(p, block_images(body));
    let b = a.applied(SpecEvent::Doc { uri, body, publishing_platform: platform, from_cache });
    assert(b.links.take(block_links(body).len() as int) =~= block_links(body));
    assert(b.commands.subrange(0, a.commands.len() as int) =~= a.commands) by {
        assert(a.commands.is_prefix_of(p.wanting_all(block_images(body)).commands));
    }
}

pub proof fn lemma_wanting_all(a: SpecApp, sources: Seq<crate::model::SpecImageSource>)
    ensures
        a.wanting_all(sources) == (SpecApp { commands: a.wanting_all(sources).commands, ..a }),
        a.commands.is_prefix_of(a.wanting_all(sources).commands),
        !a.show_images ==> a.wanting_all(sources).commands == a.commands,
    decreases sources.len(),
{
    reveal(SpecApp::wanting);
    if sources.len() > 0 {
        lemma_wanting_all(a, sources.drop_last());
        let p = a.wanting_all(sources.drop_last());
        assert(p.wanting(sources.last()).commands.subrange(0, a.commands.len() as int)
            =~= a.commands);
    } else {
        assert(a.commands.subrange(0, a.commands.len() as int) =~= a.commands);
    }
}

/// Every image of a body that is not there yet is asked for, by its own key, where images are
/// shown, and none that is there.
pub proof fn law_images_are_asked_for(
    a: SpecApp,
    sources: Seq<crate::model::SpecImageSource>,
    i: int,
)
    requires
        0 <= i < sources.len(),
    ensures
        a.show_images && !a.images.dom().contains(crate::app::content::source_key(sources[i]))
            ==> a.wanting_all(sources).commands.contains(
            SpecCommand::LoadImage {
                key: crate::app::content::source_key(sources[i]),
                source: sources[i],
            },
        ),
    decreases sources.len(),
{
    reveal(SpecApp::wanting);
    let rest = sources.drop_last();
    lemma_wanting_all(a, rest);
    let p = a.wanting_all(rest);
    let q = p.wanting(sources.last());
    let key = crate::app::content::source_key(sources[i]);
    let c = SpecCommand::LoadImage { key, source: sources[i] };
    if a.show_images && !a.images.dom().contains(key) {
        if i < rest.len() {
            law_images_are_asked_for(a, rest, i);
            let k = choose|k: int| 0 <= k < p.commands.len() && p.commands[k] == c;
            assert(q.commands[k] == c);
        } else {
            assert(q.commands.last() == c);
            assert(q.commands[q.commands.len() - 1] == c);
        }
    }
}

/// An image is shown under the key it was asked for by.
pub proof fn law_an_image_is_there(
    a: SpecApp,
    source: crate::model::SpecImageSource,
    image: crate::worker::SpecDecoded,
)
    ensures
        ({
            let key = crate::app::content::source_key(source);
            let b = a.applied(SpecEvent::Image { key, image });
            &&& b.images.dom().contains(key)
            &&& b.images[key].image == image
            &&& b.wanting(source) == b
            &&& b.reading == a.reading && b.commands == a.commands
        }),
{
    reveal(SpecApp::image_arrived);
    reveal(SpecApp::wanting);
}

/// The feeds that arrive are the feeds that are listed, with their unread counts, and a
/// selection that is still in the list stays.
pub proof fn law_feeds_are_listed(
    a: SpecApp,
    feeds: Seq<SpecPublication>,
    unread: Seq<(Seq<char>, usize)>,
    i: int,
)
    requires
        feeds.len() <= usize::MAX,
    ensures
        ({
            let b = a.applied(SpecEvent::Feeds { feeds, unread });
            &&& b.feeds == feeds
            &&& a.feed_sel < feeds.len() ==> b.feed_sel == a.feed_sel
            &&& feeds.len() > 0 ==> b.feed_sel < feeds.len()
            &&& !b.loading
            &&& 0 <= i < unread.len() && (forall|j: int|
                i < j < unread.len() ==> (#[trigger] unread[j]).0 != unread[i].0)
                ==> b.unread_counts.dom().contains(unread[i].0) && b.unread_counts[unread[i].0]
                == unread[i].1
            &&& asks_nothing(a, b)
            &&& b.mode == a.mode && b.open_pub == a.open_pub
        }),
{
    reveal(SpecApp::feeds_arrived);
    if 0 <= i < unread.len() && (forall|j: int|
        i < j < unread.len() ==> (#[trigger] unread[j]).0 != unread[i].0) {
        lemma_last_pair(unread, i);
    }
}

proof fn lemma_last_pair(s: Seq<(Seq<char>, usize)>, i: int)
    requires
        0 <= i < s.len(),
        forall|j: int| i < j < s.len() ==> (#[trigger] s[j]).0 != s[i].0,
    ensures
        crate::memstore::pairs_map(s).dom().contains(s[i].0),
        crate::memstore::pairs_map(s)[s[i].0] == s[i].1,
    decreases s.len(),
{
    if i < s.len() - 1 {
        let t = s.drop_last();
        assert(s[s.len() - 1].0 != s[i].0);
        assert forall|j: int| i < j < t.len() implies (#[trigger] t[j]).0 != t[i].0 by {
            assert(s[j].0 != s[i].0);
        }
        lemma_last_pair(t, i);
    }
}

/// Posts that arrive are listed where their feed is the open one, and else change nothing.
pub proof fn law_posts_are_listed(
    a: SpecApp,
    publication: Seq<char>,
    docs: Seq<SpecDocument>,
    read_uris: Seq<Seq<char>>,
    has_older: bool,
)
    requires
        docs.len() <= usize::MAX,
    ensures
        ({
            let b = a.applied(SpecEvent::Docs { publication, docs, read_uris, has_older });
            &&& a.open_pub == Some(publication) ==> {
                &&& b.docs == docs
                &&& b.has_older == has_older
                &&& forall|uri: Seq<char>| #[trigger]
                    b.read_uris.contains(uri) <==> read_uris.contains(uri)
                &&& a.doc_sel < docs.len() ==> b.doc_sel == a.doc_sel
                &&& docs.len() > 0 ==> b.doc_sel < docs.len()
                &&& !b.loading
                &&& asks_nothing(a, b)
            }
            &&& a.open_pub != Some(publication) ==> b == a
        }),
{
    reveal(SpecApp::docs_arrived);
    broadcast use vstd::seq_lib::group_seq_properties;

}

/// What a search finds is listed from its first post on.
pub proof fn law_results_are_listed(a: SpecApp, docs: Seq<SpecDocument>)
    ensures
        ({
            let b = a.applied(SpecEvent::Results(docs));
            &&& b.docs == docs
            &&& b.doc_sel == 0
            &&& b.mode == Mode::DocList
            &&& !b.loading
            &&& asks_nothing(a, b)
        }),
{
    reveal(SpecApp::results_arrived);
}

/// An account that arrives is the one that is signed in.
pub proof fn law_the_account_is_shown(
    a: SpecApp,
    account: Option<crate::account::SpecAccount>,
    local_only: Seq<(Seq<char>, Seq<char>)>,
)
    ensures
        a.applied(SpecEvent::Account(account)).account == account,
        asks_nothing(a, a.applied(SpecEvent::Account(account))),
        ({
            let b = a.applied(SpecEvent::SyncDiff { local_only });
            &&& b.sync_prompt == local_only
            &&& local_only.len() > 0 ==> b.mode == Mode::SyncPrompt
            &&& local_only.len() == 0 ==> b.mode == a.mode
            &&& asks_nothing(a, b)
        }),
{
    reveal(SpecApp::account_arrived);
    reveal(SpecApp::diff_arrived);
}

/// Publications to choose from are offered, all of them chosen at first.
pub proof fn law_publications_are_offered(a: SpecApp, candidates: Seq<(Seq<char>, Seq<char>)>)
    ensures
        ({
            let b = a.applied(SpecEvent::ChoosePublications { candidates });
            &&& b.mode == Mode::PublicationPicker
            &&& b.menu_sel == 0
            &&& b.publication_choices.len() == candidates.len()
            &&& forall|i: int|
                0 <= i < candidates.len() ==> #[trigger] b.publication_choices[i] == (
                    candidates[i].0,
                    candidates[i].1,
                    true,
                )
            &&& asks_nothing(a, b)
        }),
{
    reveal(SpecApp::choices_arrived);
}

/// Errors and news are shown in the status line, and change nothing else of what is read.
pub proof fn law_news_are_shown(a: SpecApp, s: Seq<char>)
    ensures
        a.applied(SpecEvent::Status(s)) == (SpecApp { status: s, ..a }),
        ({
            let b = a.applied(SpecEvent::Error(s));
            &&& b == (SpecApp { status: b.status, loading: false, ..a })
            &&& b.status.len() >= s.len()
            &&& b.status.subrange(b.status.len() - s.len(), b.status.len() as int) == s
        }),
{
    reveal(SpecApp::status_arrived);
    reveal(SpecApp::error_arrived);
    let b = a.applied(SpecEvent::Error(s));
    assert(b.status.subrange(b.status.len() - s.len(), b.status.len() as int) =~= s);
}

/// Images are shown or not, as the cache remembers it.
pub proof fn law_the_image_setting_arrives(a: SpecApp, on: bool)
    ensures
        a.applied(SpecEvent::ShowImages(on)).show_images == on,
        !on ==> asks_nothing(a, a.applied(SpecEvent::ShowImages(on))),
{
    reveal(SpecApp::images_set);
    reveal(SpecApp::wanting_current);
    reveal(SpecApp::wanting);
    let b = SpecApp { show_images: on, ..a };
    if b.reading is Some {
        lemma_wanting_all(b, block_images(b.reading->0));
    }
}

// --- Links and images in order ----------------------------------------------------

/// The links of a document are those of its first part followed by those of the rest, and
/// what a link stands in does not matter; its images alike.
pub proof fn law_links_come_in_order(a: Seq<SpecBlock>, b: Seq<SpecBlock>)
    ensures
        block_links(a + b) == block_links(a) + block_links(b),
        block_images(a + b) == block_images(a) + block_images(b),
        block_links(seq![SpecBlock::Quote(a)]) == block_links(a),
        block_images(seq![SpecBlock::Quote(a)]) == block_images(a),
        block_links(seq![SpecBlock::List { ordered: true, items: seq![a, b] }]) == block_links(
            a + b,
        ),
        block_links(seq![SpecBlock::List { ordered: false, items: seq![a, b] }]) == block_links(
            a + b,
        ),
        block_images(seq![SpecBlock::List { ordered: true, items: seq![a, b] }]) == block_images(
            a + b,
        ),
    decreases b.len(),
{
    lemma_blocks_join(a, b);
    let q = SpecBlock::Quote(a);
    lemma_one_block(q);
    let items = seq![a, b];
    let l = SpecBlock::List { ordered: true, items };
    lemma_one_block(l);
    let u = SpecBlock::List { ordered: false, items };
    lemma_one_block(u);
    let one = seq![a];
    let none: Seq<Seq<SpecBlock>> = Seq::empty();
    assert(items.drop_last() =~= one);
    assert(one.drop_last() =~= none);
    assert(item_links(none) =~= Seq::empty());
    assert(item_images(none) =~= Seq::empty());
    assert(item_links(one) =~= block_links(a));
    assert(item_images(one) =~= block_images(a));
    assert(item_links(items) == block_links(a) + block_links(b));
    assert(item_images(items) == block_images(a) + block_images(b));
}

proof fn lemma_blocks_join(a: Seq<SpecBlock>, b: Seq<SpecBlock>)
    ensures
        block_links(a + b) == block_links(a) + block_links(b),
        block_images(a + b) == block_images(a) + block_images(b),
    decreases b.len(),
{
    if b.len() == 0 {
        assert(a + b =~= a);
        assert(block_links(a) + block_links(b) =~= block_links(a));
        assert(block_images(a) + block_images(b) =~= block_images(a));
    } else {
        lemma_blocks_join(a, b.drop_last());
        assert((a + b).drop_last() =~= a + b.drop_last());
        assert(block_links(a + b) =~= block_links(a) + block_links(b));
        assert(block_images(a + b) =~= block_images(a) + block_images(b));
    }
}

proof fn lemma_one_block(b: SpecBlock)
    ensures
        block_links(seq![b]) == crate::app::content::block_link(b),
        block_images(seq![b]) == crate::app::content::block_image(b),
{
    let s = seq![b];
    assert(s.drop_last() =~= Seq::empty());
    assert(block_links(s.drop_last()) =~= Seq::empty());
    assert(block_images(s.drop_last()) =~= Seq::empty());
    assert(block_links(s) =~= crate::app::content::block_link(b));
    assert(block_images(s) =~= crate::app::content::block_image(b));
}

proof fn lemma_one_inline(x: SpecInline)
    ensures
        inline_links(seq![x]) == crate::app::content::inline_link(x),
        inline_images(seq![x]) == crate::app::content::inline_image(x),
{
    let s = seq![x];
    assert(s.drop_last() =~= Seq::empty());
    assert(inline_links(s.drop_last()) =~= Seq::empty());
    assert(inline_images(s.drop_last()) =~= Seq::empty());
    assert(inline_links(s) =~= crate::app::content::inline_link(x));
    assert(inline_images(s) =~= crate::app::content::inline_image(x));
}

/// A link is found by its address, before the links in it, whatever its style and whether it
/// stands in a paragraph, a heading or a callout; text and code hold none.
pub proof fn law_a_link_is_found(href: Seq<char>, c: Seq<SpecInline>, t: Seq<char>, level: u8)
    ensures
        inline_links(seq![SpecInline::Link { href, content: c }]) == seq![href] + inline_links(c),
        inline_links(seq![SpecInline::Strong(c)]) == inline_links(c),
        inline_links(seq![SpecInline::Emphasis(c)]) == inline_links(c),
        inline_links(seq![SpecInline::Strike(c)]) == inline_links(c),
        inline_links(seq![SpecInline::Underline(c)]) == inline_links(c),
        inline_links(seq![SpecInline::Highlight(c)]) == inline_links(c),
        inline_links(seq![SpecInline::Text(t)]).len() == 0,
        inline_links(seq![SpecInline::Code(t)]).len() == 0,
        block_links(seq![SpecBlock::Paragraph(c)]) == inline_links(c),
        block_links(seq![SpecBlock::Heading { level, content: c }]) == inline_links(c),
        block_links(seq![SpecBlock::Callout { emoji: None, tint: None, content: c }])
            == inline_links(c),
{
    lemma_one_inline(SpecInline::Link { href, content: c });
    lemma_one_inline(SpecInline::Strong(c));
    lemma_one_inline(SpecInline::Emphasis(c));
    lemma_one_inline(SpecInline::Strike(c));
    lemma_one_inline(SpecInline::Underline(c));
    lemma_one_inline(SpecInline::Highlight(c));
    lemma_one_inline(SpecInline::Text(t));
    lemma_one_inline(SpecInline::Code(t));
    lemma_one_block(SpecBlock::Paragraph(c));
    lemma_one_block(SpecBlock::Heading { level, content: c });
    lemma_one_block(SpecBlock::Callout { emoji: None, tint: None, content: c });
}

/// An image is found where it stands: as a block, in a grid, or in text.
pub proof fn law_an_image_is_found(i: SpecImage, j: SpecImage)
    ensures
        block_images(seq![SpecBlock::Image(i)]) == seq![i.source],
        block_images(seq![SpecBlock::ImageGrid(seq![i, j])]) == seq![i.source, j.source],
        block_images(seq![SpecBlock::Paragraph(seq![SpecInline::Image(i)])]) == seq![i.source],
{
    lemma_one_block(SpecBlock::Image(i));
    lemma_one_block(SpecBlock::ImageGrid(seq![i, j]));
    assert(crate::app::content::sources_of(seq![i, j]) =~= seq![i.source, j.source]);
    lemma_one_block(SpecBlock::Paragraph(seq![SpecInline::Image(i)]));
    lemma_one_inline(SpecInline::Image(i));
}

// --- The mouse --------------------------------------------------------------------

/// The row of a pane that a point lies on, inside its border.
pub open spec fn inside(r: Rect, x: int, y: int) -> bool {
    &&& r.x < x && r.y < y
    &&& x < r.x + r.width - 1 && y < r.y + r.height - 1
    &&& r.x + r.width <= u16::MAX && r.y + r.height <= u16::MAX
}

/// A click on a post does what selecting it and pressing Enter does.
pub proof fn law_a_click_opens_a_post(a: SpecApp, ev: MouseEvent, enter: KeyEvent)
    requires
        browsing(a),
        ev.kind is Down,
        enter.code == KeyCode::Enter,
        inside(a.rects.posts, ev.column as int, ev.row as int),
        !a.rects.status.covers(ev.column as int, ev.row as int),
        a.docs.len() <= usize::MAX,
    ensures
        ({
            let i = ev.row - a.rects.posts.y - 1;
            &&& i < a.docs.len() ==> a.mouse_used(ev) == (SpecApp {
                doc_sel: i as usize,
                focus: Focus::Posts,
                ..a
            }).key_pressed(enter)
            &&& i >= a.docs.len() ==> a.mouse_used(ev) == a
        }),
{
    reveal(SpecApp::mouse_used);
    reveal(SpecApp::clicked);
    reveal(SpecApp::post_clicked);
    reveal(SpecApp::post_at);
    reveal(SpecApp::focused);
    reveal(SpecApp::browse_key);
    reveal(SpecApp::doclist_key);
}

/// A click on a feed does what selecting it and pressing Enter does.
pub proof fn law_a_click_opens_a_feed(a: SpecApp, ev: MouseEvent, enter: KeyEvent)
    requires
        a.mode == Mode::Browse,
        ev.kind is Down,
        enter.code == KeyCode::Enter,
        inside(a.rects.sidebar, ev.column as int, ev.row as int),
        !inside(a.rects.posts, ev.column as int, ev.row as int),
        a.rects.posts.x + a.rects.posts.width <= u16::MAX,
        a.rects.posts.y + a.rects.posts.height <= u16::MAX,
        !a.rects.status.covers(ev.column as int, ev.row as int),
        a.feeds.len() <= usize::MAX,
    ensures
        ({
            let i = ev.row - a.rects.sidebar.y - 1;
            &&& i < a.feeds.len() ==> a.mouse_used(ev) == (SpecApp {
                feed_sel: i as usize,
                focus: Focus::Sidebar,
                ..a
            }).key_pressed(enter)
            &&& i >= a.feeds.len() ==> a.mouse_used(ev) == a
        }),
{
    reveal(SpecApp::mouse_used);
    reveal(SpecApp::clicked);
    reveal(SpecApp::feed_clicked);
    reveal(SpecApp::feed_at);
    reveal(SpecApp::focused);
    reveal(SpecApp::browse_key);
}

/// The wheel scrolls the reader by three rows under it, and moves in a list like the arrows.
pub proof fn law_the_wheel_scrolls(a: SpecApp, ev: MouseEvent, key: KeyEvent)
    requires
        a.mode == Mode::Browse,
        ev.kind is ScrollDown && key.code == KeyCode::Down || ev.kind is ScrollUp && key.code
            == KeyCode::Up,
    ensures
        ({
            let x = ev.column as int;
            let y = ev.row as int;
            let b = a.mouse_used(ev);
            &&& inside(a.rects.reader, x, y) && ev.kind is ScrollDown && a.scroll + 3 <= u16::MAX
                ==> b == (SpecApp { scroll: (a.scroll + 3) as u16, ..a })
            &&& inside(a.rects.reader, x, y) && ev.kind is ScrollUp && a.scroll >= 3 ==> b == (
            SpecApp { scroll: (a.scroll - 3) as u16, ..a })
            &&& inside(a.rects.posts, x, y) && !a.rects.reader.covers_inside(x, y) ==> b == (
            SpecApp { focus: Focus::Posts, ..a }).key_pressed(key)
            &&& inside(a.rects.sidebar, x, y) && !a.rects.reader.covers_inside(x, y)
                && !a.rects.posts.covers_inside(x, y) ==> b == (SpecApp {
                focus: Focus::Sidebar,
                ..a
            }).key_pressed(key)
        }),
{
    reveal(SpecApp::mouse_used);
    reveal(SpecApp::wheel_turned);
    reveal(SpecApp::list_turned);
    reveal(SpecApp::scrolled);
    reveal(SpecApp::focused);
    reveal(SpecApp::browse_key);
}

} // verus!
