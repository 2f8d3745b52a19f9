//! The laid-out document, and the texts around it.
use ratatui::buffer::Buffer;
use ratatui::style::{Color, Modifier, Style};
use ratatui::widgets::{Paragraph, Widget, Wrap};
use standard_reader::app::{App, Focus, Mode, Rect};
use standard_reader::model::{Block, Document, Image, ImageSource, Inline};
use standard_reader::prefs::{LayoutKind, Prefs, PANE_MAX, PANE_MIN};
use standard_reader::print::print_doc;
use standard_reader::ui::chrome::{
    account_label, blog_menu_entries, blog_menu_title, doc_line, editor_line, footer_line,
    help_lines, image_label, layout_line, preset_line, sync_lines, title_or_untitled,
};
use standard_reader::ui::doc::{blocks_to_text, truncate, Line, Span};
use standard_reader::ui::grid::{grid_cell_width, grid_cols, grid_layout};
use standard_reader::ui::links::{link_footprints, scan_text_links, DrawnCell};
use standard_reader::ui::panes::{attribution_place, centered, clamp_pane, split_screen};
use standard_reader::ui::reader::{build, wanted_images, Segment};
use standard_reader::ui::strip::{container_has_text, contains_image, strip_container_images};
use standard_reader::ui::theme::{TextStyle, Theme, ThemeColors};
use standard_reader::ui::viewport::{cell_row, image_offset, visible, ReaderKey};

fn text(s: &str) -> Inline {
    Inline::Text(s.into())
}

fn image(url: &str, alt: &str) -> Image {
    Image {
        alt: alt.into(),
        source: ImageSource::Url(url.into()),
    }
}

fn flat(lines: &[Line]) -> String {
    lines
        .iter()
        .map(|l| {
            l.spans
                .iter()
                .map(|s| s.content.as_str())
                .collect::<String>()
        })
        .collect::<Vec<_>>()
        .join("\n")
}

fn span(content: &str, style: TextStyle) -> Span {
    Span {
        content: content.into(),
        style,
    }
}

fn link_style(theme: &Theme) -> TextStyle {
    TextStyle {
        underlined: true,
        ..TextStyle::fg(theme.accent)
    }
}

// --- Documents as lines -----------------------------------------------------------

#[test]
fn heading_and_styled_paragraph() {
    let theme = Theme::modern_dark();
    let blocks = vec![
        Block::Heading {
            level: 2,
            content: vec![text("Title")],
        },
        Block::Paragraph(vec![
            text("a "),
            Inline::Strong(vec![text("bold")]),
            text(" word"),
        ]),
    ];
    let lines = blocks_to_text(&blocks, &theme);
    assert_eq!(flat(&lines), "## Title\n\na bold word");

    let para = &lines[2];
    let bold = para.spans.iter().find(|s| s.content == "bold").unwrap();
    assert!(bold.style.bold);
}

#[test]
fn quote_gets_an_accent_bar() {
    let theme = Theme::modern_dark();
    let blocks = vec![Block::Quote(vec![Block::Paragraph(vec![text("q")])])];
    let lines = blocks_to_text(&blocks, &theme);
    assert!(lines[0].spans[0].content.starts_with('▍'));
}

#[test]
fn linebreak_splits_a_paragraph() {
    let theme = Theme::modern_dark();
    let blocks = vec![Block::Paragraph(vec![
        text("one"),
        Inline::LineBreak,
        text("two"),
    ])];
    assert_eq!(flat(&blocks_to_text(&blocks, &theme)), "one\ntwo");
}

#[test]
fn table_renders_with_box_drawing() {
    let theme = Theme::modern_dark();
    let blocks = vec![Block::Table {
        head: vec![vec![text("Name")], vec![text("Qty")]],
        rows: vec![vec![vec![text("apples")], vec![text("3")]]],
    }];
    let out = flat(&blocks_to_text(&blocks, &theme));
    assert!(out.contains('┌') && out.contains('┼') && out.contains('└'));
    assert!(out.contains("Name") && out.contains("Qty") && out.contains("apples"));
    assert_eq!(
        out,
        "┌────────┬─────┐\n│ Name   │ Qty │\n├────────┼─────┤\n│ apples │ 3   │\n└────────┴─────┘"
    );
}

#[test]
fn every_block_has_its_lines() {
    let theme = Theme::modern_dark();
    let blocks = vec![
        Block::List {
            ordered: true,
            items: vec![
                vec![Block::Paragraph(vec![text("one")])],
                vec![
                    Block::Paragraph(vec![text("two")]),
                    Block::Paragraph(vec![text("more")]),
                ],
            ],
        },
        Block::Code {
            lang: Some("rust".into()),
            text: "a\r\nb\n".into(),
        },
        Block::Image(image("https://i.test/a.png", "")),
        Block::Callout {
            emoji: Some("💡".into()),
            tint: Some((1, 2, 3)),
            content: vec![text("note")],
        },
        Block::GalleryRef { uri: "at://x".into() },
    ];
    assert_eq!(
        flat(&blocks_to_text(&blocks, &theme)),
        "1. one\n2. two\n  more\n\n```rust\na\nb\n```\n\n🖼  (image)\n\n▌ 💡 note\n\n🖼  (gallery)"
    );
}

#[test]
fn long_cells_are_cut() {
    assert_eq!(truncate("abcdef", 4), "abc…");
    assert_eq!(truncate("abcd", 4), "abcd");
    assert_eq!(truncate("abc", 0), "");
}

// --- Links ------------------------------------------------------------------------

#[test]
fn scan_locates_and_highlights_a_link() {
    let theme = Theme::modern_dark();
    let mut lines = vec![Line::from(vec![
        span("see ", theme.body()),
        span("here", link_style(&theme)),
    ])];
    let mut idx = 0;
    let mut rects = Vec::new();
    scan_text_links(&mut lines, 0, 80, 0, &theme, Some(0), &mut idx, &mut rects);
    assert_eq!(rects.len(), 1);
    assert_eq!(rects[0].col, 4, "starts after 'see '");
    assert_eq!(rects[0].width, 4, "'here' is 4 cols");
    let here = lines[0].spans.iter().find(|s| s.content == "here").unwrap();
    assert!(here.style.reversed);
}

#[test]
fn scan_splits_a_wrapping_link_across_rows() {
    let theme = Theme::modern_dark();
    let mut lines = vec![Line::from(vec![span("abcdefghijkl", link_style(&theme))])];
    let mut idx = 0;
    let mut rects = Vec::new();
    scan_text_links(&mut lines, 5, 8, 0, &theme, None, &mut idx, &mut rects);
    assert_eq!(rects.len(), 2, "one rect per wrapped row");
    assert!(rects.iter().all(|r| r.idx == 0), "same link idx for both");
    assert_eq!((rects[0].row, rects[0].col, rects[0].width), (5, 0, 8));
    assert_eq!((rects[1].row, rects[1].col, rects[1].width), (6, 0, 4));
    assert_eq!(idx, 1, "still counts as one link");
}

#[test]
fn scan_pushes_an_unbreakable_link_to_the_next_row_on_word_wrap() {
    let theme = Theme::modern_dark();
    let mut lines = vec![Line::from(vec![
        span("▍ ", theme.body()),
        span("Visit ", theme.body()),
        span("davidlewis.xyz", link_style(&theme)),
    ])];
    let mut idx = 0;
    let mut rects = Vec::new();
    scan_text_links(&mut lines, 0, 20, 0, &theme, None, &mut idx, &mut rects);
    assert_eq!(
        rects.len(),
        1,
        "unbreakable link sits on one row after wrap"
    );
    assert_eq!(rects[0].row, 1, "pushed to the wrapped row");
    assert_eq!(rects[0].col, 0, "starts at column 0 on the wrapped row");
    assert_eq!(rects[0].width, 14, "covers the full link, not a sliver");
}

#[test]
fn every_link_cell_is_covered_by_a_rect_after_word_wrap() {
    let theme = Theme::modern_dark();
    let parts = [
        ("posted ", false),
        ("X", true),
        (" and ", false),
        ("on Threads here", true),
        (".", false),
    ];
    let mut lines = vec![Line::from(
        parts
            .iter()
            .map(|(s, link)| {
                span(
                    s,
                    if *link {
                        link_style(&theme)
                    } else {
                        theme.body()
                    },
                )
            })
            .collect(),
    )];
    let w: u16 = 12; // narrow enough that "here." wraps onto its own row
    let drawn = ratatui::text::Line::from(
        parts
            .iter()
            .map(|(s, link)| {
                let style = if *link {
                    Style::default()
                        .fg(Color::Red)
                        .add_modifier(Modifier::UNDERLINED)
                } else {
                    Style::default()
                };
                ratatui::text::Span::styled(*s, style)
            })
            .collect::<Vec<_>>(),
    );
    let paragraph = Paragraph::new(drawn).wrap(Wrap { trim: false });
    let rows = paragraph.line_count(w) as u16;
    let mut idx = 0;
    let mut rects = Vec::new();
    scan_text_links(&mut lines, 0, w, 0, &theme, None, &mut idx, &mut rects);

    let area = ratatui::layout::Rect::new(0, 0, w, rows);
    let mut buf = Buffer::empty(area);
    paragraph.render(area, &mut buf);
    for r in 0..rows {
        for c in 0..w {
            let link = buf[(c, r)].modifier.contains(Modifier::UNDERLINED);
            let covered = rects
                .iter()
                .any(|lr| lr.row == r && c >= lr.col && c < lr.col + lr.width);
            assert_eq!(link, covered, "cell at ({c}, {r})");
        }
    }
    assert_eq!(idx, 2, "two link occurrences (X and 'on Threads here')");
}

#[test]
fn pieces_of_one_link_share_its_number() {
    let theme = Theme::modern_dark();
    let link = DrawnCell {
        fg: Some(theme.accent),
        bg: None,
        underlined: true,
        reversed: false,
        plain: false,
    };
    let other = DrawnCell {
        fg: Some(theme.fg),
        bg: None,
        underlined: false,
        reversed: false,
        plain: true,
    };
    let none = DrawnCell {
        fg: None,
        bg: None,
        underlined: false,
        reversed: false,
        plain: true,
    };
    // A link that runs into the second row, one that ends before the row does, and one more.
    let grid = vec![
        vec![other, link, link, none],
        vec![link, other, link, other],
        vec![link, none, none, none],
    ];
    let (feet, links) = link_footprints(&grid, 4, &theme);
    let found: Vec<_> = feet.iter().map(|f| (f.occ, f.row, f.col, f.width)).collect();
    assert_eq!(
        found,
        [(0, 0, 1, 2), (0, 1, 0, 1), (1, 1, 2, 1), (2, 2, 0, 1)]
    );
    assert_eq!(links, 3);
}

// --- Layout -----------------------------------------------------------------------

#[test]
fn grid_columns_balance_rows() {
    assert_eq!(grid_cols(1, 100), 1);
    assert_eq!(grid_cols(2, 100), 2);
    assert_eq!(grid_cols(3, 100), 3);
    assert_eq!(grid_cols(4, 100), 2); // 2+2, not 3+1
    assert_eq!(grid_cols(5, 100), 3); // 3+2
    assert_eq!(grid_cols(6, 100), 3); // 3+3
    assert_eq!(grid_cols(4, 30), 1);
}

#[test]
fn a_grid_stands_in_the_middle() {
    assert_eq!(grid_cell_width(3, 100), 32);
    assert_eq!(grid_cell_width(4, 30), 30);
    let images = vec![
        image("https://i.test/a.png", ""),
        image("https://i.test/b.png", ""),
        image("https://i.test/c.png", ""),
    ];
    let (cells, height) = grid_layout(&images, &vec![(10, 4), (20, 6), (7, 3)], 0, 41);
    let placed: Vec<_> = cells.iter().map(|c| (c.dx, c.dy, c.w, c.h)).collect();
    // Two in the first row (10 + 1 + 20 columns), one in the second.
    assert_eq!(placed, [(5, 0, 10, 4), (16, 0, 20, 6), (17, 7, 7, 3)]);
    assert_eq!(height, 10);
    assert_eq!(cells[2].key, "https://i.test/c.png");
}

#[test]
fn segments_put_the_image_between_text() {
    let theme = Theme::modern_dark();
    let blocks = vec![
        Block::Paragraph(vec![text("intro")]),
        Block::Image(image("https://i.test/a.png", "pic")),
        Block::Paragraph(vec![text("outro")]),
    ];
    let wants = wanted_images(&None, Some(&blocks), true, 40);
    assert_eq!(wants.len(), 1);
    assert_eq!((wants[0].key.as_str(), wants[0].room), ("https://i.test/a.png", 40));
    let (segs, total) = build(&None, Some(&blocks), true, &theme, 40, &vec![(40, 20)]);
    assert_eq!(segs.len(), 3);
    assert!(matches!(segs[0], Segment::Text { .. }));
    assert!(matches!(segs[1], Segment::Image { .. }));
    assert!(matches!(segs[2], Segment::Text { .. }));
    assert!(segs[0].top() < segs[1].top() && segs[1].top() < segs[2].top());
    assert!(total >= segs[2].top() + segs[2].height());
    let rows: Vec<_> = segs.iter().map(|s| (s.top(), s.height())).collect();
    assert_eq!(rows, [(0, 1), (2, 20), (23, 1)]);
    assert_eq!(total, 24);
}

#[test]
fn quote_nested_image_renders_framed_in_place() {
    let theme = Theme::modern_dark();
    let blocks = vec![Block::Quote(vec![Block::Paragraph(vec![
        text("Quote"),
        Inline::Image(image("https://i.test/a.avif", "shot")),
    ])])];
    let wants = wanted_images(&None, Some(&blocks), true, 80);
    assert_eq!(wants[0].room, 78, "beside the bar");
    let (segs, _) = build(&None, Some(&blocks), true, &theme, 80, &vec![(40, 20)]);
    assert!(
        matches!(segs.first(), Some(Segment::Text { .. })),
        "the quote's text comes first"
    );
    let framed = segs.iter().find_map(|s| match s {
        Segment::Image { bar, indent, .. } => Some((*bar, *indent)),
        _ => None,
    });
    assert_eq!(
        framed,
        Some((true, 2)),
        "the quote's image renders framed (bar + indent), in place"
    );
}

#[test]
fn images_are_taken_out_of_their_containers() {
    let block = Block::List {
        ordered: false,
        items: vec![
            vec![Block::Image(image("https://i.test/a.png", "a"))],
            vec![Block::Paragraph(vec![
                text("  "),
                Inline::Image(image("https://i.test/b.png", "b")),
            ])],
        ],
    };
    assert!(contains_image(&block));
    let (rest, images) = strip_container_images(&block);
    assert!(!contains_image(&rest));
    assert!(!container_has_text(&rest), "only space is left");
    let alts: Vec<_> = images.iter().map(|i| i.alt.as_str()).collect();
    assert_eq!(alts, ["a", "b"]);
}

#[test]
fn reader_cache_key_hits_on_scroll_and_misses_on_change() {
    let base = || ReaderKey {
        width: 80,
        height: 24,
        show_images: true,
        reading_version: 3,
        images_version: 1,
        theme: Theme::modern_dark(),
        focused_link: None,
    };
    assert!(base() == base(), "identical inputs → cache hit");
    assert!(
        base()
            != ReaderKey {
                width: 100,
                ..base()
            },
        "pane resize is a miss"
    );
    assert!(
        base()
            != ReaderKey {
                reading_version: 4,
                ..base()
            },
        "a new post body is a miss"
    );
    assert!(
        base()
            != ReaderKey {
                images_version: 2,
                ..base()
            },
        "an arriving image reflows (miss)"
    );
    assert!(
        base()
            != ReaderKey {
                focused_link: Some(0),
                ..base()
            },
        "moving link focus is a miss"
    );
    assert!(
        base()
            != ReaderKey {
                theme: Theme::from(&ThemeColors::light()),
                ..base()
            },
        "a theme change is a miss"
    );
}

fn reading(blocks: Vec<Block>) -> App {
    let mut app = App::new(Prefs {
        onboarded: true,
        ..Prefs::default()
    });
    app.reading = Some(standard_reader::model::RichDoc { blocks });
    app
}

#[test]
fn reader_records_a_link_rect() {
    let mut app = reading(vec![Block::Paragraph(vec![
        text("go "),
        Inline::Link {
            href: "https://example.com".into(),
            content: vec![text("there")],
        },
    ])]);
    app.links = vec!["https://example.com".into()];
    app.loading = false;
    let theme = app.theme;
    let layout = app.lay_out_reader(&theme, 60, 30, &vec![]);
    assert_eq!(app.link_rects.len(), 1, "one link rect recorded");
    assert_eq!(app.link_rects[0].idx, 0);
    assert_eq!((app.link_rects[0].col, app.link_rects[0].width), (3, 5));
    assert!(app.layout_is_good(&layout, &theme, 60, 30));
    app.scroll = 9;
    assert!(app.layout_is_good(&layout, &theme, 60, 30));
    assert!(!app.layout_is_good(&layout, &theme, 61, 30));
    app.focused_link = Some(0);
    assert!(!app.layout_is_good(&layout, &theme, 60, 30));
}

#[test]
fn links_of_a_callout_are_inset() {
    let mut app = reading(vec![Block::Callout {
        emoji: None,
        tint: None,
        content: vec![Inline::Link {
            href: "https://example.com".into(),
            content: vec![text("there")],
        }],
    }]);
    let theme = app.theme;
    app.lay_out_reader(&theme, 60, 30, &vec![]);
    assert_eq!((app.link_rects[0].col, app.link_rects[0].row), (2, 0));
}

#[test]
fn a_focused_link_is_brought_into_view() {
    let link = |n: u32| {
        Block::Paragraph(vec![Inline::Link {
            href: format!("https://example.com/{n}"),
            content: vec![text("there")],
        }])
    };
    let mut app = reading((0..40).map(link).collect());
    let theme = app.theme;
    let layout = app.lay_out_reader(&theme, 60, 10, &vec![]);
    assert_eq!(layout.total, 79);
    app.focused_link = Some(20); // row 40
    app.scroll_to_focused = true;
    app.settle_scroll(layout.total, 10);
    assert_eq!(app.scroll, 35);
    assert!(!app.scroll_to_focused);
    app.scroll = 200;
    app.settle_scroll(layout.total, 10);
    assert_eq!(app.scroll, 69, "the end is not scrolled past");
}

#[test]
fn only_visible_rows_are_drawn() {
    let pane = Rect::new(5, 3, 40, 10);
    let v = visible(8, 6, 10, pane).unwrap();
    assert_eq!((v.rect.y, v.rect.height, v.skip), (3, 4, 2));
    let v = visible(15, 20, 10, pane).unwrap();
    assert_eq!((v.rect.y, v.rect.height, v.skip), (8, 5, 0));
    assert!(visible(20, 5, 10, pane).is_none());
    assert_eq!(image_offset(0, 20, 40, 8, 10), (10, -2));
    assert_eq!(image_offset(2, 20, 40, 8, 10), (2, -2));
    assert_eq!(cell_row(8, 3, 10), 1);
}

// --- Panes ------------------------------------------------------------------------

#[test]
fn pane_width_clamps_to_range_and_terminal() {
    assert_eq!(clamp_pane(30, 90), 30, "in-range width is kept");
    assert_eq!(clamp_pane(5, 90), PANE_MIN, "floored at the minimum");
    assert_eq!(clamp_pane(200, 90), PANE_MAX, "capped at the maximum");
    assert!(
        clamp_pane(50, 30) <= 30,
        "never wider than a narrow terminal"
    );
}

#[test]
fn each_layout_shows_its_panes() {
    let mut app = reading(vec![]);
    let (body, footer) = split_screen(Rect::new(0, 0, 90, 20));
    assert_eq!(body, Rect::new(0, 0, 90, 19));
    assert_eq!(footer, Rect::new(0, 19, 90, 1));
    app.prefs.sidebar_width = 30;
    app.prefs.posts_width = 20;

    app.layout = LayoutKind::TwoPane;
    app.place_panes(body);
    assert_eq!(app.rects.sidebar, Rect::new(0, 0, 30, 19));
    assert_eq!(app.rects.reader, Rect::new(30, 0, 60, 19));
    app.mode = Mode::DocList;
    app.place_panes(body);
    assert_eq!(app.rects.posts, Rect::new(0, 0, 30, 19));
    assert_eq!(app.rects.sidebar, Rect::default());

    app.layout = LayoutKind::ThreePane;
    app.place_panes(body);
    assert_eq!(app.rects.sidebar, Rect::new(0, 0, 30, 19));
    assert_eq!(app.rects.posts, Rect::new(30, 0, 20, 19));
    assert_eq!(app.rects.reader, Rect::new(50, 0, 40, 19));

    app.layout = LayoutKind::OnePane;
    app.focus = Focus::Posts;
    app.place_panes(body);
    assert_eq!(app.rects.posts, body);

    app.layout = LayoutKind::DrillDown;
    app.focus = Focus::Sidebar;
    app.place_panes(body);
    assert_eq!(app.rects.sidebar, body, "feed list visible when focused");
    app.focus = Focus::Posts;
    app.place_panes(body);
    assert_eq!(app.rects.sidebar, Rect::new(0, 0, 30, 19));
    assert_eq!(app.rects.posts, Rect::new(30, 0, 60, 19));
    app.focus = Focus::Reader;
    app.place_panes(body);
    assert_eq!(app.rects.reader, body);
}

#[test]
fn popups_are_centered_and_fit() {
    let area = Rect::new(0, 0, 90, 24);
    assert_eq!(centered(area, 64, 3), Rect::new(13, 10, 64, 3));
    assert_eq!(
        centered(Rect::new(2, 1, 24, 8), 52, 23),
        Rect::new(2, 1, 24, 8)
    );
}

// --- Texts ------------------------------------------------------------------------

#[test]
fn lists_show_titles_and_days() {
    let theme = Theme::modern_dark();
    let mut d = Document {
        uri: "at://d/1".into(),
        title: "".into(),
        description: None,
        publication: "at://p/1".into(),
        published_at: "2026-01-01T10:00:00Z".into(),
        updated_at: None,
        publishing_platform: None,
        cover_image: None,
        text_content: None,
        tags: vec![],
        path: None,
    };
    assert_eq!(flat(&[doc_line(&d, &theme)]), "(untitled)  2026-01-01");
    d.title = "a post".into();
    d.published_at = "2026".into();
    assert_eq!(flat(&[doc_line(&d, &theme)]), "a post  ");
    assert_eq!(title_or_untitled("x"), "x");
    assert_eq!(account_label(&None), " not logged in · L ");
    assert_eq!(image_label(true, "cat"), "🖼 cat");
    assert_eq!(image_label(false, ""), "🖼 loading…");
}

#[test]
fn the_footer_hints_at_the_modes_keys() {
    let mut app = reading(vec![]);
    app.status = "ready".into();
    let theme = app.theme;
    assert!(flat(&[footer_line(&app, &theme)]).starts_with(" ready · a add"));
    app.mode = Mode::Help;
    assert_eq!(flat(&[footer_line(&app, &theme)]), " ready · any key to close");
}

#[test]
fn dialogs_say_what_they_offer() {
    let mut app = reading(vec![]);
    let theme = app.theme;
    let help = flat(&help_lines(&theme));
    assert!(help.starts_with(" ↑↓ / j k    move selection / scroll\n"));
    assert!(help.ends_with(" q           quit"));
    let sync = flat(&sync_lines(&vec![("at://p/1".into(), "One".into())], &theme));
    assert!(sync.contains("\n  • One\n"));
    assert_eq!(
        flat(&[preset_line("light", &ThemeColors::light())]),
        " light          ████"[..].replacen("████", "██", 1) + "██"
    );
    assert_eq!(
        flat(&[layout_line(LayoutKind::TwoPane, &theme)]),
        " Two pane    feeds/posts + reader"
    );
    app.open_theme_editor();
    let ed = app.theme_editor.as_ref().unwrap();
    assert_eq!(
        flat(&[editor_line(ed, 0, &theme)]),
        "▸ ██ background #1a1b26   R 26 G 27 B 38"
    );
    assert_eq!(blog_menu_title(&vec![], "at://p/1"), " Customize this blog ");
    assert_eq!(blog_menu_entries(None).0, "Theme: global");
    app.prefs.edit_blog("at://p/1", |o| o.layout = Some(LayoutKind::OnePane));
    assert_eq!(
        blog_menu_entries(app.prefs.blog("at://p/1")).1,
        "Layout: One pane"
    );
}

#[test]
fn documents_print_with_their_marks() {
    let blocks = vec![
        Block::Heading {
            level: 2,
            content: vec![text("Hi")],
        },
        Block::Quote(vec![Block::Paragraph(vec![Inline::Strong(vec![text("q")])])]),
        Block::List {
            ordered: true,
            items: vec![vec![Block::Paragraph(vec![Inline::Code("x".into())])]],
        },
        Block::Image(image("https://i.test/\"a\".png", "pic")),
        Block::Table {
            head: vec![vec![text("a")], vec![text("b")]],
            rows: vec![vec![vec![text("c")], vec![text("d")]]],
        },
        Block::Rule,
    ];
    assert_eq!(
        print_doc(&blocks),
        "   ## Hi\n   │ **q**\n   1. `x`\n   🖼  pic (Url(\"https://i.test/\\\"a\\\".png\"))\n   a | b\n   c | d\n   ───\n"
    );
}

#[test]
fn odd_symbols_do_not_overrun_the_drawing() {
    let theme = Theme::modern_dark();
    let words = "\u{feff}\u{200b}aaaaaa";
    let mut lines = vec![Line::from(vec![span(words, link_style(&theme))])];
    let mut idx = 0;
    let mut rects = vec![];
    scan_text_links(&mut lines, 0, 4, 0, &theme, None, &mut idx, &mut rects);
    assert!(!rects.is_empty());
    assert!(rects.iter().all(|r| r.col + r.width <= 4));
    let mut wide = vec![Line::from(vec![span("a中b", link_style(&theme))])];
    scan_text_links(&mut wide, 0, 2, 0, &theme, None, &mut idx, &mut rects);
    assert!(rects.iter().all(|r| r.col + r.width <= 4));
}

#[test]
fn narrow_bodies_are_still_filled() {
    let mut app = App::new(Prefs::default());
    app.layout = LayoutKind::ThreePane;
    app.place_panes(Rect::new(3, 0, 20, 5));
    let r = &app.rects;
    assert_eq!(r.sidebar.width + r.posts.width + r.reader.width, 20);
    assert!(r.sidebar.width <= 16 && r.posts.width <= 16);
    assert_eq!(r.reader.width, 0);
    assert_eq!(split_screen(Rect::new(0, 0, 10, 0)).1.height, 0);
}

#[test]
fn the_address_stands_in_the_border() {
    let area = Rect::new(2, 3, 20, 10);
    assert_eq!(attribution_place(area, 8), Some(Rect::new(13, 12, 8, 1)));
    assert_eq!(attribution_place(area, 18), Some(Rect::new(3, 12, 18, 1)));
    assert_eq!(attribution_place(area, 19), None);
    assert_eq!(attribution_place(Rect::new(0, 0, 20, 0), 3), None);
}
