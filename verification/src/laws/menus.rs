//! Menus, the palette, the panes and the colour editor.
use vstd::prelude::*;

use crate::app::keys::Action;
use crate::app::state::{Focus, Mode, SpecApp, SpecEditor};
use crate::input::{KeyCode, KeyEvent};
use crate::laws::keys::{asks, asks_nothing, is_down, is_up};
use crate::prefs::{LayoutKind, SpecPrefs, PANE_MAX, PANE_MIN};
use crate::worker::SpecCommand;

verus! {

// --- Preferences ------------------------------------------------------------------

/// `b` has other preferences than `a`, and asks for them to be kept.
pub open spec fn keeps(a: SpecApp, b: SpecApp, prefs: SpecPrefs) -> bool {
    b.prefs == prefs && asks(a, b, SpecCommand::SavePrefs(prefs))
}

/// The global layouts, in the order of the menu and of the cycle.
pub open spec fn layout_at(i: int) -> LayoutKind {
    if i == 0 {
        LayoutKind::OnePane
    } else if i == 1 {
        LayoutKind::TwoPane
    } else if i == 2 {
        LayoutKind::ThreePane
    } else {
        LayoutKind::DrillDown
    }
}

/// The themes, in the order of the menu.
pub open spec fn theme_at(i: int) -> Seq<char> {
    if i == 0 {
        "modern-dark"@
    } else if i == 1 {
        "light"@
    } else {
        "high-contrast"@
    }
}

/// The layout key goes to the next layout and has it kept; what a blog has of its own stays.
pub proof fn law_the_layout_key_cycles(a: SpecApp, key: KeyEvent, i: int)
    requires
        a.mode == Mode::Browse,
        key.code == KeyCode::Char('\\'),
        0 <= i < 4,
        a.prefs.layout == layout_at(i),
    ensures
        keeps(
            a,
            a.key_pressed(key),
            SpecPrefs {
                layout: layout_at(
                    if i < 3 {
                        i + 1
                    } else {
                        0
                    },
                ),
                ..a.prefs
            },
        ),
{
    reveal(SpecApp::browse_key);
    reveal(SpecApp::layout_cycled);
    let all = LayoutKind::ALL@;
    assert(all[0] == LayoutKind::OnePane && all[1] == LayoutKind::TwoPane && all[2]
        == LayoutKind::ThreePane && all[3] == LayoutKind::DrillDown);
}

/// Choosing a layout in the menu sets that one and has it kept: for the blog that the menu is
/// about, and else for all.
pub proof fn law_a_layout_is_chosen(a: SpecApp, key: KeyEvent, i: int)
    requires
        a.mode == Mode::LayoutPicker,
        key.code == KeyCode::Enter,
        !a.onboarding,
        a.menu_sel == i,
        0 <= i < 4,
    ensures
        a.key_pressed(key).mode == Mode::Browse,
        a.key_pressed(key).menu_target is None,
        a.menu_target is None ==> keeps(
            a,
            a.key_pressed(key),
            SpecPrefs { layout: layout_at(i), ..a.prefs },
        ),
        a.menu_target matches Some(uri) ==> {
            let b = a.key_pressed(key);
            &&& keeps(a, b, b.prefs)
            &&& b.prefs.layout_for(Some(uri)) == layout_at(i)
            &&& b.prefs.layout == a.prefs.layout
            &&& b.prefs.theme_for(Some(uri)) == a.prefs.theme_for(Some(uri))
            &&& forall|other: Seq<char>|
                other != uri ==> #[trigger] b.prefs.layout_for(Some(other)) == a.prefs.layout_for(
                    Some(other),
                )
        },
{
    reveal(SpecApp::layout_picker_key);
    reveal(SpecApp::layout_chosen);
    reveal(SpecApp::layout_set);
    reveal(SpecApp::blog_layout_set);
    reveal(SpecApp::layout_done);
    reveal(SpecApp::untargeted);
    let all = LayoutKind::ALL@;
    assert(all[0] == LayoutKind::OnePane && all[1] == LayoutKind::TwoPane && all[2]
        == LayoutKind::ThreePane && all[3] == LayoutKind::DrillDown);
}

/// Choosing a theme in the menu sets that one and has it kept: for the blog that the menu is
/// about, and else for all. The last row opens the colour editor instead, and nothing is kept
/// yet.
pub proof fn law_a_theme_is_chosen(a: SpecApp, key: KeyEvent, i: int)
    requires
        a.mode == Mode::ThemePicker,
        key.code == KeyCode::Enter,
        !a.onboarding,
        a.menu_sel == i,
        0 <= i < 4,
    ensures
        i < 3 ==> a.key_pressed(key).mode == Mode::Browse,
        i < 3 && a.menu_target is None ==> keeps(
            a,
            a.key_pressed(key),
            SpecPrefs { theme: theme_at(i), ..a.prefs },
        ),
        i < 3 && a.menu_target is Some ==> {
            let uri = a.menu_target->0;
            let b = a.key_pressed(key);
            &&& keeps(a, b, b.prefs)
            &&& b.prefs.theme_for(Some(uri)) == theme_at(i)
            &&& b.prefs.theme == a.prefs.theme
            &&& b.prefs.layout_for(Some(uri)) == a.prefs.layout_for(Some(uri))
            &&& forall|other: Seq<char>|
                other != uri ==> #[trigger] b.prefs.theme_for(Some(other)) == a.prefs.theme_for(
                    Some(other),
                )
        },
        i == 3 ==> {
            let b = a.key_pressed(key);
            &&& b.mode == Mode::ThemeEditor
            &&& asks_nothing(a, b)
            &&& b.prefs == a.prefs
            &&& b.theme_editor matches Some(e) && e.target == a.menu_target && e.slot == 0
                && e.channel == 0
        },
{
    reveal(SpecApp::theme_picker_key);
    reveal(SpecApp::theme_chosen);
    reveal(SpecApp::theme_set);
    reveal(SpecApp::blog_theme_set);
    reveal(SpecApp::choice_made);
    reveal(SpecApp::editing_theme);
    reveal(SpecApp::editing_blog_theme);
    reveal(SpecApp::untargeted);
}

/// A blog's menu leads to its theme and its layout, and its last row drops what the blog has
/// of its own: it then looks like any other.
pub proof fn law_a_blog_is_customized(a: SpecApp, key: KeyEvent, uri: Seq<char>)
    requires
        a.mode == Mode::BlogMenu,
        key.code == KeyCode::Enter,
        a.menu_target == Some(uri),
    ensures
        a.menu_sel == 0 ==> a.key_pressed(key).mode == Mode::ThemePicker && a.key_pressed(
            key,
        ).menu_target == Some(uri) && a.key_pressed(key).prefs == a.prefs,
        a.menu_sel == 1 ==> a.key_pressed(key).mode == Mode::LayoutPicker && a.key_pressed(
            key,
        ).menu_target == Some(uri) && a.key_pressed(key).prefs == a.prefs,
        a.menu_sel >= 2 ==> {
            let b = a.key_pressed(key);
            &&& keeps(a, b, b.prefs)
            &&& b.mode == Mode::Browse
            &&& b.prefs.layout_for(Some(uri)) == a.prefs.layout
            &&& b.prefs.theme_for(Some(uri)) == a.prefs.theme
            &&& b.prefs.layout == a.prefs.layout && b.prefs.theme == a.prefs.theme
            &&& forall|other: Seq<char>|
                other != uri ==> #[trigger] b.prefs.layout_for(Some(other)) == a.prefs.layout_for(
                    Some(other),
                )
        },
{
    reveal(SpecApp::blog_menu_key);
    reveal(SpecApp::picking_theme);
    reveal(SpecApp::picking_layout);
    reveal(SpecApp::target_reset);
    reveal(SpecApp::blog_reset);
    reveal(SpecApp::untargeted);
    reveal(SpecApp::entering);
}

/// `b` opens the menu of the blog that is open, or else of the selected feed.
pub proof fn law_the_blog_menu_is_about_the_blog(a: SpecApp, key: KeyEvent)
    requires
        a.mode == Mode::Browse || a.mode == Mode::DocList,
        key.code == KeyCode::Char('b'),
    ensures
        a.open_pub is Some ==> a.key_pressed(key).mode == Mode::BlogMenu && a.key_pressed(
            key,
        ).menu_target == a.open_pub,
        a.open_pub is None && a.feed_sel < a.feeds.len() ==> a.key_pressed(key).mode
            == Mode::BlogMenu && a.key_pressed(key).menu_target == Some(
            a.feeds[a.feed_sel as int].uri,
        ),
        a.open_pub is None && a.feed_sel >= a.feeds.len() ==> a.key_pressed(key).mode == a.mode,
        asks_nothing(a, a.key_pressed(key)),
        a.key_pressed(key).menu_sel == 0 || a.key_pressed(key).mode == a.mode,
{
    reveal(SpecApp::browse_key);
    reveal(SpecApp::doclist_key);
    reveal(SpecApp::blog_menu_opened);
}

/// Leaving a menu with Escape changes nothing but what has the keys.
pub proof fn law_menus_are_left(a: SpecApp, key: KeyEvent)
    requires
        key.code == KeyCode::Esc,
        a.mode == Mode::BlogMenu || (a.mode == Mode::ThemePicker || a.mode == Mode::LayoutPicker)
            && !a.onboarding,
    ensures
        a.key_pressed(key).mode == Mode::Browse,
        a.key_pressed(key).prefs == a.prefs,
        asks_nothing(a, a.key_pressed(key)),
{
    reveal(SpecApp::blog_menu_key);
    reveal(SpecApp::theme_picker_key);
    reveal(SpecApp::layout_picker_key);
    reveal(SpecApp::choice_made);
    reveal(SpecApp::layout_done);
    reveal(SpecApp::untargeted);
    reveal(SpecApp::entering);
}

// --- The first start --------------------------------------------------------------

/// At the first start a layout is chosen, then a theme; then the reader is ready, and does
/// not ask again.
pub proof fn law_the_first_start(a: SpecApp, layout: KeyEvent, theme: KeyEvent)
    requires
        a.onboarding,
        a.mode == Mode::LayoutPicker,
        layout.code == KeyCode::Enter || layout.code == KeyCode::Esc,
        theme.code == KeyCode::Esc,
    ensures
        a.key_pressed(layout).mode == Mode::ThemePicker,
        a.key_pressed(layout).onboarding,
        a.key_pressed(layout).key_pressed(theme).mode == Mode::Browse,
        !a.key_pressed(layout).key_pressed(theme).onboarding,
        a.key_pressed(layout).key_pressed(theme).prefs.onboarded,
        ({
            let b = a.key_pressed(layout).key_pressed(theme);
            b.commands.last() == SpecCommand::SavePrefs(b.prefs)
        }),
{
    reveal(SpecApp::layout_picker_key);
    reveal(SpecApp::layout_chosen);
    reveal(SpecApp::layout_set);
    reveal(SpecApp::blog_layout_set);
    reveal(SpecApp::layout_done);
    reveal(SpecApp::picking_theme);
    reveal(SpecApp::theme_picker_key);
    reveal(SpecApp::choice_made);
    reveal(SpecApp::onboarding_over);
    reveal(SpecApp::untargeted);
}

// --- The colour editor ------------------------------------------------------------

/// In the colour editor the arrows choose a colour and a channel, and nothing is kept.
pub proof fn law_the_editor_moves(a: SpecApp, key: KeyEvent, e: SpecEditor)
    requires
        a.wf(),
        a.mode == Mode::ThemeEditor,
        a.theme_editor == Some(e),
    ensures
        is_up(key) ==> a.key_pressed(key) == (SpecApp {
            theme_editor: Some(
                SpecEditor {
                    slot: if e.slot > 0 {
                        (e.slot - 1) as usize
                    } else {
                        0
                    },
                    ..e
                },
            ),
            ..a
        }),
        is_down(key) ==> a.key_pressed(key) == (SpecApp {
            theme_editor: Some(
                SpecEditor {
                    slot: if e.slot < 6 {
                        (e.slot + 1) as usize
                    } else {
                        6
                    },
                    ..e
                },
            ),
            ..a
        }),
        key.code == KeyCode::Left || key.code == KeyCode::Char('h') ==> a.key_pressed(key) == (
        SpecApp {
            theme_editor: Some(
                SpecEditor {
                    channel: if e.channel > 0 {
                        (e.channel - 1) as usize
                    } else {
                        0
                    },
                    ..e
                },
            ),
            ..a
        }),
        key.code == KeyCode::Right || key.code == KeyCode::Char('l') ==> a.key_pressed(key) == (
        SpecApp {
            theme_editor: Some(
                SpecEditor {
                    channel: if e.channel < 2 {
                        (e.channel + 1) as usize
                    } else {
                        2
                    },
                    ..e
                },
            ),
            ..a
        }),
{
    reveal(SpecApp::theme_editor_key);
    reveal(SpecApp::with_editor);
}

/// What was edited is kept by Enter, as the blog's palette where the editor is about a blog,
/// and given up by Escape.
pub proof fn law_the_editor_keeps_or_gives_up(a: SpecApp, key: KeyEvent, e: SpecEditor)
    requires
        a.mode == Mode::ThemeEditor,
        a.theme_editor == Some(e),
        !a.onboarding,
    ensures
        key.code == KeyCode::Esc ==> {
            let b = a.key_pressed(key);
            b.prefs == a.prefs && asks_nothing(a, b) && b.theme_editor is None && b.mode
                == Mode::Browse
        },
        key.code == KeyCode::Enter ==> a.key_pressed(key).theme_editor is None && a.key_pressed(
            key,
        ).mode == Mode::Browse,
        key.code == KeyCode::Enter && e.target is None ==> keeps(
            a,
            a.key_pressed(key),
            SpecPrefs { theme: "custom"@, custom: e.draft, ..a.prefs },
        ),
        key.code == KeyCode::Enter && e.target is Some ==> {
            let uri = e.target->0;
            let b = a.key_pressed(key);
            &&& keeps(a, b, b.prefs)
            &&& b.prefs.theme_for(Some(uri)) == "custom"@
            &&& b.prefs.colors_for(Some(uri)) == e.draft
            &&& b.prefs.theme == a.prefs.theme && b.prefs.custom == a.prefs.custom
            &&& b.prefs.layout_for(Some(uri)) == a.prefs.layout_for(Some(uri))
            &&& forall|other: Seq<char>|
                other != uri ==> #[trigger] b.prefs.theme_for(Some(other)) == a.prefs.theme_for(
                    Some(other),
                )
        },
{
    reveal(SpecApp::theme_editor_key);
    reveal(SpecApp::edit_cancelled);
    reveal(SpecApp::theme_committed);
    reveal(SpecApp::custom_theme_set);
    reveal(SpecApp::blog_custom_set);
    reveal(SpecApp::choice_made);
}

// --- Panes ------------------------------------------------------------------------

/// The width of the pane that `<` and `>` change.
pub open spec fn width_at(a: SpecApp) -> u16 {
    if a.layout == LayoutKind::ThreePane && a.focus == Focus::Posts {
        a.prefs.posts_width
    } else {
        a.prefs.sidebar_width
    }
}

/// The focused pane has a width of its own.
pub open spec fn has_width(a: SpecApp) -> bool {
    &&& a.focus != Focus::Reader
    &&& a.layout != LayoutKind::OnePane
    &&& !(a.layout == LayoutKind::DrillDown && a.focus == Focus::Sidebar)
}

/// `>` widens the focused pane by two columns and `<` narrows it, within bounds, and the width
/// is kept; one undoes the other. A pane that fills what is left keeps its width.
pub proof fn law_panes_are_resized(a: SpecApp, wider: KeyEvent, narrower: KeyEvent)
    requires
        a.mode == Mode::Browse,
        wider.code == KeyCode::Char('>'),
        narrower.code == KeyCode::Char('<'),
    ensures
        has_width(a) && PANE_MIN <= width_at(a) && width_at(a) + 2 <= PANE_MAX ==> {
            let b = a.key_pressed(wider);
            &&& width_at(b) == width_at(a) + 2
            &&& keeps(a, b, b.prefs)
            &&& width_at(b.key_pressed(narrower)) == width_at(a)
            &&& b.prefs.layout == a.prefs.layout && b.prefs.theme == a.prefs.theme
        },
        has_width(a) && PANE_MIN + 2 <= width_at(a) <= PANE_MAX ==> {
            let b = a.key_pressed(narrower);
            &&& width_at(b) == width_at(a) - 2
            &&& keeps(a, b, b.prefs)
        },
        !has_width(a) ==> {
            &&& a.key_pressed(wider).prefs == a.prefs && asks_nothing(a, a.key_pressed(wider))
            &&& a.key_pressed(narrower).prefs == a.prefs && asks_nothing(a, a.key_pressed(narrower))
        },
{
    reveal(SpecApp::browse_key);
    reveal(SpecApp::pane_adjusted);
    reveal(SpecApp::width_set);
}

/// The panes that can have the focus, from the feeds to the reader.
pub open spec fn panes_in(a: SpecApp) -> Seq<Focus> {
    let posts = match a.layout {
        LayoutKind::TwoPane => false,
        LayoutKind::DrillDown => a.open_pub is Some,
        _ => a.docs.len() > 0,
    };
    let reader = a.layout != LayoutKind::DrillDown || a.reading is Some;
    (if posts {
        seq![Focus::Sidebar, Focus::Posts]
    } else {
        seq![Focus::Sidebar]
    }) + (if reader {
        seq![Focus::Reader]
    } else {
        Seq::empty()
    })
}

/// Tab goes to the next pane, from the last to the first; Escape goes to the one before, and
/// stays at the first. Nothing else happens.
pub proof fn law_focus_keys(a: SpecApp, key: KeyEvent, i: int)
    requires
        a.mode == Mode::Browse,
        0 <= i < panes_in(a).len(),
        a.focus == panes_in(a)[i],
    ensures
        key.code == KeyCode::Tab ==> a.key_pressed(key) == (SpecApp {
            focus: if i + 1 < panes_in(a).len() {
                panes_in(a)[i + 1]
            } else {
                panes_in(a)[0]
            },
            ..a
        }),
        key.code == KeyCode::Esc ==> a.key_pressed(key) == (SpecApp {
            focus: if i > 0 {
                panes_in(a)[i - 1]
            } else {
                panes_in(a)[0]
            },
            ..a
        }),
{
    reveal(SpecApp::browse_key);
    reveal(SpecApp::focused);
    let ring = panes_in(a);
    assert(a.focus_ring() =~= ring);
    let n = ring.len() as int;
    assert(crate::app::panes::place_in(ring, a.focus) == Some(i));
    assert(i + 1 < n ==> (i + 1) % n == i + 1) by (nonlinear_arith)
        requires
            0 <= i < n,
    ;
    assert(i + 1 == n ==> (i + 1) % n == 0) by (nonlinear_arith)
        requires
            0 <= i < n,
    ;
}

/// Escape in the post list leads back to the feeds, and nothing is open then.
pub proof fn law_back_to_the_feeds(a: SpecApp, key: KeyEvent)
    requires
        a.mode == Mode::DocList,
        key.code == KeyCode::Esc,
    ensures
        a.key_pressed(key) == (SpecApp {
            mode: Mode::Browse,
            focus: Focus::Sidebar,
            open_pub: None,
            ..a
        }),
{
    reveal(SpecApp::doclist_key);
    reveal(SpecApp::home);
}

// --- The palette ------------------------------------------------------------------

/// The key that does the same as an action.
pub open spec fn key_of(action: Action) -> Option<KeyCode> {
    match action {
        Action::AddFeed => Some(KeyCode::Char('a')),
        Action::Search => Some(KeyCode::Char('/')),
        Action::Refresh => Some(KeyCode::Char('r')),
        Action::MarkRead => Some(KeyCode::Char('m')),
        Action::Theme => Some(KeyCode::Char('t')),
        Action::Help => Some(KeyCode::Char('?')),
        Action::Quit => Some(KeyCode::Char('q')),
        _ => None,
    }
}

/// An action of the palette does what its key does while browsing; signing in or out is what
/// `L` does.
pub proof fn law_actions_are_keys(a: SpecApp, key: KeyEvent, action: Action)
    requires
        a.mode == Mode::Browse,
    ensures
        key_of(action) == Some(key.code) ==> a.running(action) == a.key_pressed(key),
        key.code == KeyCode::Char('L') && action == Action::SignIn && a.account is None
            ==> a.running(action) == a.key_pressed(key),
        key.code == KeyCode::Char('L') && action == Action::SignOut && a.account is Some
            ==> a.running(action) == a.key_pressed(key),
        action == Action::Layout ==> a.running(action).mode == Mode::LayoutPicker && a.running(
            action,
        ).menu_target is None && asks_nothing(a, a.running(action)),
{
    reveal(SpecApp::running);
    reveal(SpecApp::browse_key);
    reveal(SpecApp::account_toggled);
    reveal(SpecApp::picking_layout);
    reveal(SpecApp::untargeted);
}

/// In the palette, Enter runs the selected action of those that are offered, from the reader
/// as it is without the palette.
pub proof fn law_the_palette_runs_the_selected(a: SpecApp, key: KeyEvent)
    requires
        a.mode == Mode::Palette,
        key.code == KeyCode::Enter,
    ensures
        a.palette_sel < a.offered(10).len() ==> a.key_pressed(key) == (SpecApp {
            mode: Mode::Browse,
            input: Seq::empty(),
            ..a
        }).running(a.offered(10)[a.palette_sel as int]),
        a.palette_sel >= a.offered(10).len() ==> a.key_pressed(key) == a,
{
    reveal(SpecApp::palette_key);
    reveal(SpecApp::palette_ran);
    reveal(SpecApp::prompting);
}

/// The palette offers an action where the typed text stands in its name, and signing in or
/// out as the account has it; each once.
pub proof fn law_the_palette_offers_what_matches(a: SpecApp, action: Action)
    ensures
        a.offered(10).contains(action) <==> {
            &&& crate::app::matching::fuzzy_match(a.input, action.name())
            &&& action == Action::SignIn ==> a.account is None
            &&& action == Action::SignOut ==> a.account is Some
        },
{
    let all = Action::ALL@;
    assert(all[0] == Action::AddFeed && all[1] == Action::Search && all[2] == Action::Refresh
        && all[3] == Action::MarkRead && all[4] == Action::Theme && all[5] == Action::Layout
        && all[6] == Action::SignIn && all[7] == Action::SignOut && all[8] == Action::Help
        && all[9] == Action::Quit);
    lemma_offered(a, action, 10);
}

proof fn lemma_offered(a: SpecApp, action: Action, n: int)
    requires
        0 <= n <= 10,
    ensures
        a.offered(n).contains(action) <==> exists|i: int|
            0 <= i < n && #[trigger] Action::ALL@[i] == action && a.offers(action),
    decreases n,
{
    if n > 0 {
        lemma_offered(a, action, n - 1);
        let x = Action::ALL@[n - 1];
        let rest = a.offered(n - 1);
        assert(rest.push(x).contains(action) <==> rest.contains(action) || x == action) by {
            if rest.contains(action) {
                let k = choose|k: int| 0 <= k < rest.len() && rest[k] == action;
                assert(rest.push(x)[k] == action);
            }
            if x == action {
                assert(rest.push(x)[rest.len() as int] == action);
            }
        }
    }
}

} // verus!
