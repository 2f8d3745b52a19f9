//! The state machine of the screen.
use standard_reader::app::{
    collect_links, fuzzy, hit, web_url, App, Focus, LinkRect, Mode, Rect,
};
use standard_reader::input::{
    KeyCode, KeyEvent, KeyModifiers, MouseButton, MouseEvent, MouseEventKind,
};
use standard_reader::model::{Block, Document, Inline, Publication, PublishingPlatform, RichDoc};
use standard_reader::prefs::{LayoutKind, Prefs};
use standard_reader::ui::theme::{
    parse_hex, to_hex, Color, Theme, ThemeColors, PRESETS,
};
use standard_reader::worker::{FromWorker, ToWorker};

fn test_prefs() -> Prefs {
    Prefs {
        onboarded: true,
        ..Prefs::default()
    }
}

fn test_app(prefs: Prefs) -> App {
    App::new(prefs)
}

fn feed(uri: &str) -> Publication {
    Publication {
        uri: uri.into(),
        url: "https://x.test".into(),
        name: "feed".into(),
        description: None,
        icon: None,
    }
}

fn doc(uri: &str, publication: &str) -> Document {
    Document {
        uri: uri.into(),
        title: "t".into(),
        description: None,
        publication: publication.into(),
        published_at: "2026-01-01".into(),
        updated_at: None,
        publishing_platform: None,
        cover_image: None,
        text_content: None,
        tags: vec![],
        path: None,
    }
}

fn empty_doc() -> RichDoc {
    RichDoc { blocks: vec![] }
}

fn key(code: KeyCode) -> KeyEvent {
    KeyEvent::new(code, KeyModifiers::NONE)
}

fn mouse(kind: MouseEventKind, column: u16, row: u16) -> MouseEvent {
    MouseEvent {
        kind,
        column,
        row,
        modifiers: KeyModifiers::NONE,
    }
}

fn click(column: u16, row: u16) -> MouseEvent {
    mouse(MouseEventKind::Down(MouseButton::Left), column, row)
}

// --- Links ------------------------------------------------------------------------

#[test]
fn collect_links_walks_in_document_order() {
    let link = |href: &str, text: &str| Inline::Link {
        href: href.into(),
        content: vec![Inline::Text(text.into())],
    };
    let blocks = vec![
        Block::Paragraph(vec![
            Inline::Text("see ".into()),
            link("https://a", "a"),
            Inline::Text(" and ".into()),
            Inline::Strong(vec![link("https://b", "b")]),
        ]),
        Block::Quote(vec![Block::Paragraph(vec![link("https://c", "c")])]),
        Block::Table {
            head: vec![vec![link("https://skip", "x")]],
            rows: vec![],
        },
    ];
    let mut out = Vec::new();
    collect_links(&blocks, &mut out);
    assert_eq!(out, vec!["https://a", "https://b", "https://c"]);
}

#[test]
fn link_at_maps_a_click_to_its_href() {
    let mut app = App::new(Prefs::default());
    app.rects.reader = Rect {
        x: 0,
        y: 0,
        width: 40,
        height: 20,
    };
    app.links = vec!["https://x".into()];
    app.link_rects = vec![LinkRect {
        idx: 0,
        row: 2,
        col: 5,
        width: 4,
    }];
    assert_eq!(app.link_at(6, 3).as_deref(), Some("https://x"));
    assert_eq!(app.link_at(10, 3), None);
    assert_eq!(app.link_at(6, 4), None);
}

#[test]
fn attribution_is_the_last_keyboard_link_and_does_not_scroll() {
    let mut app = test_app(test_prefs());
    let body = RichDoc {
        blocks: vec![Block::Paragraph(vec![Inline::Link {
            href: "https://article.test/link".into(),
            content: vec![Inline::Text("body link".into())],
        }])],
    };
    app.reading_platform = Some(PublishingPlatform::Leaflet);
    app.rebuild_links(&body, false);
    app.attribution_visible = true;

    app.focus_link(1);
    assert_eq!(app.focused_link, Some(0), "body link comes first");
    assert!(app.scroll_to_focused);
    app.focus_link(1);
    assert_eq!(app.focused_link, app.attribution_link);
    assert!(!app.scroll_to_focused, "persistent chrome never scrolls");
    assert_eq!(app.links[1], PublishingPlatform::Leaflet.homepage());
}

#[test]
fn hidden_attribution_is_not_keyboard_navigable() {
    let mut app = test_app(test_prefs());
    app.reading_platform = Some(PublishingPlatform::GreenGale);
    app.rebuild_links(&empty_doc(), false);
    app.attribution_visible = false;

    app.focus_link(1);
    assert_eq!(app.focused_link, None);
    assert_eq!(app.status, "no links in this post");
}

#[test]
fn attribution_border_click_and_enter_open_the_platform_homepage() {
    let mut app = test_app(test_prefs());
    app.reading_platform = Some(PublishingPlatform::Offprint);
    app.rebuild_links(&empty_doc(), false);
    app.attribution_visible = true;
    app.rects.attribution = Rect::new(20, 9, 10, 1);

    app.on_mouse(click(24, 9));
    app.focused_link = app.attribution_link;
    app.open_focused_link();

    assert_eq!(
        app.take_urls(),
        [
            PublishingPlatform::Offprint.homepage(),
            PublishingPlatform::Offprint.homepage()
        ]
    );
}

#[test]
fn attribution_only_worker_update_preserves_body_and_scroll() {
    let mut app = test_app(test_prefs());
    app.reading_uri = Some("at://d/1".into());
    let body = RichDoc {
        blocks: vec![Block::Paragraph(vec![Inline::Text("body".into())])],
    };
    app.apply(FromWorker::Doc {
        uri: "at://d/1".into(),
        body: body.clone(),
        publishing_platform: None,
        from_cache: false,
    });
    app.scroll = 12;
    let version = app.reading_version;

    app.apply(FromWorker::Doc {
        uri: "at://d/1".into(),
        body,
        publishing_platform: Some(PublishingPlatform::Wordpress),
        from_cache: false,
    });

    assert_eq!(app.scroll, 12);
    assert_eq!(app.reading_version, version);
    assert_eq!(app.attribution_link, Some(0));
    assert_eq!(app.links, [PublishingPlatform::Wordpress.homepage()]);
}

// --- Matching ---------------------------------------------------------------------

#[test]
fn app_fuzzy_subsequence() {
    assert!(fuzzy("", "anything"));
    assert!(fuzzy("adf", "Add feed"));
    assert!(fuzzy("srch", "Search"));
    assert!(fuzzy("quit", "Quit"));
    assert!(!fuzzy("xyz", "Add feed"));
    assert!(!fuzzy("feedx", "Add feed"));
}

#[test]
fn fuzzy_subsequence() {
    assert!(fuzzy("", "anything"));
    assert!(fuzzy("adf", "Add feed"));
    assert!(fuzzy("srch", "Search"));
    assert!(fuzzy("quit", "Quit"));
    assert!(!fuzzy("xyz", "Add feed"));
    assert!(!fuzzy("feedx", "Add feed"));
    // Letter case and order.
    assert!(fuzzy("QUIT", "quit"));
    assert!(!fuzzy("tiuq", "Quit"));
}

#[test]
fn builds_post_urls() {
    assert_eq!(
        web_url("https://greengale.app/david.yapfest.club", "/3mmozgypkle2s"),
        "https://greengale.app/david.yapfest.club/3mmozgypkle2s"
    );
    assert_eq!(
        web_url(
            "https://chaospocket.offprint.app",
            "/a/3mi34zu4buc23-oh-hey"
        ),
        "https://chaospocket.offprint.app/a/3mi34zu4buc23-oh-hey"
    );
    assert_eq!(web_url("https://x.test/", "post"), "https://x.test/post");
}

// --- Appearance -------------------------------------------------------------------

#[test]
fn per_blog_override_beats_global() {
    let mut prefs = test_prefs();
    prefs.layout = LayoutKind::TwoPane;
    prefs.theme = "modern-dark".into();
    prefs.edit_blog("at://p/1", |o| {
        o.layout = Some(LayoutKind::ThreePane);
        o.theme = Some("light".into());
    });
    let mut app = test_app(prefs);

    app.open_pub = None;
    app.recompute_appearance();
    assert_eq!(app.layout, LayoutKind::TwoPane);
    let dark = Theme::modern_dark();
    assert_eq!(app.theme.bg, dark.bg, "global theme on home");

    app.open_pub = Some("at://p/1".into());
    app.recompute_appearance();
    assert_eq!(app.layout, LayoutKind::ThreePane);
    let light = Theme::from(&ThemeColors::light());
    assert_eq!(app.theme.bg, light.bg, "per-blog theme override applied");
}

#[test]
fn theme_editor_adjusts_and_commits_custom() {
    let mut app = test_app(test_prefs());
    app.open_theme_editor();
    let ed = app.theme_editor.as_mut().expect("editor open");
    ed.slot = 4; // accent
    ed.channel = 0; // R
    let before = ed.draft.slot_rgb(4)[0];
    app.adjust_channel(10);
    let after = app.theme_editor.as_ref().unwrap().draft.slot_rgb(4)[0];
    assert_eq!(after, (before as i32 + 10).clamp(0, 255) as u8);
    app.commit_theme_editor();
    assert_eq!(app.prefs.theme, "custom");
    assert!(app.theme_editor.is_none());
}

#[test]
fn layout_cycles_and_wraps() {
    assert_eq!(LayoutKind::OnePane.next(), LayoutKind::TwoPane);
    assert_eq!(LayoutKind::DrillDown.next(), LayoutKind::OnePane);
}

#[test]
fn empty_override_is_dropped() {
    let mut p = Prefs::default();
    p.edit_blog("at://p/1", |o| o.theme = Some("light".into()));
    assert!(p.blog("at://p/1").is_some());
    p.edit_blog("at://p/1", |o| o.theme = None);
    assert!(
        p.blog("at://p/1").is_none(),
        "empty override removed from the map"
    );
}

#[test]
fn hex_round_trips_and_tolerates_garbage() {
    assert_eq!(parse_hex("#1a1b26"), Some([0x1a, 0x1b, 0x26]));
    assert_eq!(parse_hex("1a1b26"), Some([0x1a, 0x1b, 0x26]));
    assert_eq!(to_hex([0x1a, 0x1b, 0x26]), "#1a1b26");
    assert_eq!(parse_hex("#zzzzzz"), None);
    assert_eq!(parse_hex("#fff"), None);
    assert_eq!(parse_hex("##1a1b26"), None);
    assert_eq!(parse_hex(""), None);
}

#[test]
fn colors_resolve_to_rgb_for_every_preset() {
    for name in PRESETS {
        let theme = Theme::from(&ThemeColors::preset(name).unwrap());
        for c in [theme.bg, theme.fg, theme.accent, theme.border] {
            assert!(
                matches!(c, Color::Rgb(..)),
                "{name}: non-RGB slot breaks blending"
            );
        }
    }
}

#[test]
fn bad_slot_falls_back_to_modern_dark() {
    let mut c = ThemeColors::modern_dark();
    c.accent = "not a colour".into();
    assert_eq!(c.slot_rgb(4), parse_hex("#7dcfff").unwrap());
}

// --- Focus and panes --------------------------------------------------------------

#[test]
fn focus_cycle_skips_posts_until_a_feed_is_open() {
    let mut prefs = test_prefs();
    prefs.layout = LayoutKind::ThreePane;
    let mut app = test_app(prefs);
    app.recompute_appearance();

    app.docs.clear();
    app.focus = Focus::Sidebar;
    app.cycle_focus();
    assert_eq!(app.focus, Focus::Reader, "Posts skipped when empty");
    app.cycle_focus();
    assert_eq!(app.focus, Focus::Sidebar);

    app.docs = vec![doc("at://d/1", "at://p/1")];
    app.focus = Focus::Sidebar;
    app.cycle_focus();
    assert_eq!(app.focus, Focus::Posts);
}

#[test]
fn escape_focus_steps_back_through_the_ring() {
    let mut prefs = test_prefs();
    prefs.layout = LayoutKind::ThreePane;
    let mut app = test_app(prefs);
    app.recompute_appearance();
    app.docs = vec![doc("at://d/1", "at://p/1")];
    app.focus = Focus::Reader;
    app.escape_focus();
    assert_eq!(app.focus, Focus::Posts);
    app.escape_focus();
    assert_eq!(app.focus, Focus::Sidebar);
    app.escape_focus();
    assert_eq!(app.focus, Focus::Sidebar);
}

#[test]
fn hit_rejects_zero_area_panes() {
    assert_eq!(
        hit(Rect::default(), 5, 5),
        None,
        "absent pane never matches"
    );
    let r = Rect {
        x: 0,
        y: 0,
        width: 10,
        height: 10,
    };
    assert_eq!(hit(r, 3, 3), Some(2), "row inside a present pane");
}

#[test]
fn click_selects_in_the_pane_under_the_cursor() {
    let mut prefs = test_prefs();
    prefs.layout = LayoutKind::ThreePane;
    let mut app = test_app(prefs);
    app.feeds = vec![feed("at://p/1")];
    app.docs = vec![doc("at://d/1", "at://p/1"), doc("at://d/2", "at://p/1")];
    app.rects.sidebar = Rect {
        x: 0,
        y: 0,
        width: 20,
        height: 10,
    };
    app.rects.posts = Rect {
        x: 20,
        y: 0,
        width: 20,
        height: 10,
    };
    app.rects.reader = Rect {
        x: 40,
        y: 0,
        width: 40,
        height: 10,
    };
    app.on_mouse(click(22, 2));
    assert_eq!(app.doc_sel, 1);
    assert_eq!(
        app.reading_uri.as_deref(),
        Some("at://d/2"),
        "opened the clicked post"
    );

    app.doc_sel = 0;
    app.mode = Mode::ThemePicker;
    app.on_mouse(click(22, 2));
    assert_eq!(app.doc_sel, 0);
    assert_eq!(app.mode, Mode::ThemePicker);

    app.mode = Mode::Browse;
    app.focus = Focus::Sidebar;
    app.on_mouse(mouse(MouseEventKind::ScrollDown, 22, 2));
    assert_eq!(app.focus, Focus::Posts, "wheel targets the hovered pane");
    assert_eq!(app.doc_sel, 1);

    app.scroll = 6;
    app.on_mouse(mouse(MouseEventKind::ScrollUp, 42, 2));
    assert_eq!(app.scroll, 3, "reader wheel moves three document rows");

    app.mode = Mode::ThemePicker;
    app.on_mouse(mouse(MouseEventKind::ScrollDown, 42, 2));
    assert_eq!(app.scroll, 3, "modal consumes wheel events");
}

#[test]
fn pane_resize_targets_only_the_focused_pane() {
    let mut prefs = test_prefs();
    prefs.layout = LayoutKind::ThreePane;
    prefs.sidebar_width = 30;
    prefs.posts_width = 36;
    let mut app = test_app(prefs);
    app.recompute_appearance();
    app.docs = vec![doc("at://d/1", "at://p/1")];

    app.focus = Focus::Sidebar;
    app.adjust_pane(2);
    assert_eq!(app.prefs.sidebar_width, 32);
    assert_eq!(app.prefs.posts_width, 36, "posts width untouched");

    app.focus = Focus::Posts;
    app.adjust_pane(-4);
    assert_eq!(app.prefs.posts_width, 32);
    assert_eq!(app.prefs.sidebar_width, 32, "sidebar width untouched");

    app.focus = Focus::Reader;
    app.adjust_pane(2);
    assert_eq!((app.prefs.sidebar_width, app.prefs.posts_width), (32, 32));
}

#[test]
fn footer_click_opens_then_dismisses_status_detail() {
    let mut app = test_app(test_prefs());
    app.status = "a long error message worth reading in full".into();
    app.rects.status = Rect {
        x: 0,
        y: 23,
        width: 20,
        height: 1,
    };
    app.on_mouse(click(60, 23));
    assert_eq!(
        app.mode,
        Mode::Browse,
        "clicking the hints doesn't open the status"
    );
    app.on_mouse(click(4, 23));
    assert_eq!(app.mode, Mode::StatusDetail);
    assert_eq!(
        app.status_detail,
        "a long error message worth reading in full"
    );
    app.on_mouse(click(4, 23));
    assert_eq!(app.mode, Mode::Browse);
}

// --- The publication picker -------------------------------------------------------

#[test]
fn publication_picker_toggles_select_all_and_none() {
    let mut app = test_app(test_prefs());
    app.publication_choices = vec![
        ("at://r/p/1".into(), "One".into(), true),
        ("at://r/p/2".into(), "Two".into(), true),
        ("at://r/p/3".into(), "Three".into(), true),
    ];
    app.menu_sel = 0;
    app.mode = Mode::PublicationPicker;

    app.publication_picker_key(key(KeyCode::Char(' ')));
    assert!(!app.publication_choices[0].2);
    assert!(app.publication_choices[1].2);

    app.publication_picker_key(key(KeyCode::Char('n')));
    assert!(app.publication_choices.iter().all(|c| !c.2));
    app.publication_picker_key(key(KeyCode::Char('a')));
    assert!(app.publication_choices.iter().all(|c| c.2));

    app.publication_picker_key(key(KeyCode::Down));
    assert_eq!(app.menu_sel, 1);
    app.menu_sel = 2;
    app.publication_picker_key(key(KeyCode::Down));
    assert_eq!(app.menu_sel, 2, "cursor clamps at the last choice");
}

#[test]
fn publication_picker_enter_follows_only_the_checked_subset() {
    let mut app = test_app(test_prefs());
    app.publication_choices = vec![
        ("at://r/p/1".into(), "One".into(), true),
        ("at://r/p/2".into(), "Two".into(), false),
        ("at://r/p/3".into(), "Three".into(), true),
    ];
    app.mode = Mode::PublicationPicker;
    app.take_commands(); // what the start sent
    app.publication_picker_key(key(KeyCode::Enter));

    let sent = app.take_commands();
    match &sent[0] {
        ToWorker::FollowPublications(uris) => assert_eq!(
            *uris,
            vec!["at://r/p/1".to_string(), "at://r/p/3".to_string()]
        ),
        _ => panic!("expected FollowPublications"),
    }
    assert_eq!(app.mode, Mode::Browse);
    assert!(app.publication_choices.is_empty());
}

// --- Results from the worker ------------------------------------------------------

#[test]
fn unread_counts_and_markers_fold_in_and_update_live() {
    let mut app = test_app(test_prefs());
    app.open_pub = Some("at://p/1".into());

    app.apply(FromWorker::Feeds {
        feeds: vec![feed("at://p/1")],
        unread: vec![("at://p/1".to_string(), 2)],
    });
    assert_eq!(app.unread_counts.get("at://p/1").copied(), Some(2));

    app.apply(FromWorker::Docs {
        publication: "at://p/1".into(),
        docs: vec![doc("at://d/1", "at://p/1"), doc("at://d/2", "at://p/1")],
        read_uris: vec!["at://d/1".to_string()],
        has_older: true,
    });
    assert!(app.read_uris.contains_key("at://d/1"));
    assert!(app.has_older);

    let opened = || FromWorker::Doc {
        uri: "at://d/2".into(),
        body: empty_doc(),
        publishing_platform: None,
        from_cache: false,
    };
    app.reading_uri = Some("at://d/2".into());
    app.apply(opened());
    assert!(app.read_uris.contains_key("at://d/2"));
    assert_eq!(app.unread_counts.get("at://p/1").copied(), Some(1));

    app.apply(opened());
    assert_eq!(app.unread_counts.get("at://p/1").copied(), Some(1));
}

#[test]
fn cached_open_schedules_one_background_freshen() {
    let mut app = test_app(test_prefs());
    app.take_commands(); // what the start sent

    let cached = |uri: &str| FromWorker::Doc {
        uri: uri.into(),
        body: empty_doc(),
        publishing_platform: None,
        from_cache: true,
    };

    app.reading_uri = Some("at://d/9".into());
    app.apply(cached("at://d/9"));
    let n = app
        .take_commands()
        .iter()
        .filter(|c| matches!(c, ToWorker::FreshenDoc(u) if u.as_str() == "at://d/9"))
        .count();
    assert_eq!(n, 1, "one freshen scheduled on a cached open");

    app.apply(cached("at://d/9"));
    assert!(
        !app.take_commands()
            .iter()
            .any(|c| matches!(c, ToWorker::FreshenDoc(_))),
        "no re-freshen on re-open"
    );

    app.reading_uri = Some("at://d/10".into());
    app.apply(FromWorker::Doc {
        uri: "at://d/10".into(),
        body: empty_doc(),
        publishing_platform: None,
        from_cache: false,
    });
    assert!(
        !app.take_commands()
            .iter()
            .any(|c| matches!(c, ToWorker::FreshenDoc(_))),
        "a fresh fetch isn't freshened again"
    );
}

#[test]
fn a_document_that_comes_late_is_dropped() {
    let mut app = test_app(test_prefs());
    app.reading_uri = Some("at://d/2".into());
    app.apply(FromWorker::Doc {
        uri: "at://d/1".into(),
        body: RichDoc {
            blocks: vec![Block::Rule],
        },
        publishing_platform: None,
        from_cache: false,
    });
    assert!(app.reading.is_none());
}

// --- Keys -------------------------------------------------------------------------

#[test]
fn keys_lead_through_the_modes() {
    let mut app = test_app(test_prefs());
    app.apply(FromWorker::Feeds {
        feeds: vec![feed("at://p/1"), feed("at://p/2")],
        unread: vec![],
    });
    assert_eq!(app.mode, Mode::Browse);
    app.on_key(key(KeyCode::Char('?')));
    assert_eq!(app.mode, Mode::Help);
    app.on_key(key(KeyCode::Esc));
    assert_eq!(app.mode, Mode::Browse);
    app.on_key(key(KeyCode::Down));
    assert_eq!(app.feed_sel, 1);
    app.on_key(key(KeyCode::Down));
    assert_eq!(app.feed_sel, 1, "the list ends");
    app.on_key(key(KeyCode::Char('/')));
    assert_eq!(app.mode, Mode::Search);
    for c in "zine".chars() {
        app.on_key(key(KeyCode::Char(c)));
    }
    app.on_key(key(KeyCode::Backspace));
    assert_eq!(app.input, "zin");
    app.take_commands();
    app.on_key(key(KeyCode::Enter));
    assert!(app
        .take_commands()
        .iter()
        .any(|c| matches!(c, ToWorker::Search(q) if q == "zin")));
    app.mode = Mode::Browse;
    app.on_key(key(KeyCode::Char('q')));
    assert!(app.should_quit);
}

#[test]
fn the_palette_offers_what_fits() {
    let mut app = test_app(test_prefs());
    app.on_key(KeyEvent::new(KeyCode::Char('p'), KeyModifiers::CONTROL));
    assert_eq!(app.mode, Mode::Palette);
    for c in "help".chars() {
        app.on_key(key(KeyCode::Char(c)));
    }
    let labels: Vec<_> = app.palette_matches().into_iter().map(|a| a.label()).collect();
    assert_eq!(labels, ["Help"]);
    app.on_key(key(KeyCode::Enter));
    assert_eq!(app.mode, Mode::Help);
}

#[test]
fn each_blog_has_a_palette_of_its_own() {
    let mut app = test_app(test_prefs());
    let global = app.prefs.custom.clone();
    app.open_blog_theme_editor("at://p/1".into());
    app.adjust_channel(10);
    let draft = app.theme_editor.as_ref().unwrap().draft.clone();
    app.commit_theme_editor();
    assert_eq!(app.status, "custom theme for this blog saved");
    let kept = app.prefs.blog("at://p/1").unwrap();
    assert_eq!(kept.theme.as_deref(), Some("custom"));
    assert_eq!(kept.custom.as_ref(), Some(&draft));
    assert_eq!(app.prefs.custom, global);
    assert_ne!(app.prefs.theme, "custom");
    app.open_pub = Some("at://p/1".into());
    app.recompute_appearance();
    assert_eq!(app.theme.bg, Theme::from(&draft).bg);
    app.open_pub = Some("at://p/2".into());
    app.recompute_appearance();
    assert_eq!(app.theme.bg, Theme::modern_dark().bg);
}
