//! Per-blog menus, pane widths, and which pane has the focus.
use vstd::prelude::*;

use crate::app::appearance::{row_down, row_up};
use crate::app::state::{App, Focus, Mode, SpecApp};
use crate::input::{KeyCode, KeyEvent};
use crate::model::publications_view;
use crate::prefs::{overrides_map, LayoutKind, SpecPrefs, PANE_MAX, PANE_MIN};
use crate::text::{decimal, decimal_of, owned};
use crate::worker::SpecCommand;

verus! {

// --- Per-blog overrides -----------------------------------------------------------

impl SpecApp {
    /// The publication that a per-blog edit is about: the open feed, or the selected one.
    pub open spec fn target_pub(self) -> Option<Seq<char>> {
        match self.open_pub {
            Some(uri) => Some(uri),
            None => if self.feed_sel < self.feeds.len() {
                Some(self.feeds[self.feed_sel as int].uri)
            } else {
                None
            },
        }
    }

    /// The menu of one publication opens, if there is one.
    #[verifier::opaque]
    pub open spec fn blog_menu_opened(self) -> SpecApp {
        match self.target_pub() {
            Some(uri) => SpecApp {
                menu_target: Some(uri),
                menu_sel: 0,
                mode: Mode::BlogMenu,
                ..self
            },
            None => SpecApp { status: "select a feed first"@, ..self },
        }
    }

    /// A mode is entered.
    #[verifier::opaque]
    pub open spec fn entering(self, mode: Mode) -> SpecApp {
        SpecApp { mode, ..self }
    }

    /// A publication's override is dropped.
    #[verifier::opaque]
    pub open spec fn blog_reset(self, uri: Seq<char>) -> SpecApp {
        let prefs = SpecPrefs { per_blog: self.prefs.per_blog.remove(uri), ..self.prefs };
        SpecApp {
            prefs,
            commands: self.commands.push(SpecCommand::SavePrefs(prefs)),
            status: "this blog now uses the global appearance"@,
            ..self
        }
    }

    /// The target's override is dropped, and browsing goes on.
    #[verifier::opaque]
    pub open spec fn target_reset(self) -> SpecApp {
        match self.menu_target {
            Some(uri) => self.untargeted().blog_reset(uri).entering(Mode::Browse),
            None => self.untargeted().entering(Mode::Browse),
        }
    }

    /// A key in a publication's menu: theme, layout, or back to the global appearance.
    #[verifier::opaque]
    pub open spec fn blog_menu_key(self, key: KeyEvent) -> SpecApp {
        match key.code {
            KeyCode::Esc => self.untargeted().entering(Mode::Browse),
            KeyCode::Up => self.menu_at(row_up(self.menu_sel)),
            KeyCode::Char('k') => self.menu_at(row_up(self.menu_sel)),
            KeyCode::Down => self.menu_at(row_down(self.menu_sel, 2)),
            KeyCode::Char('j') => self.menu_at(row_down(self.menu_sel, 2)),
            KeyCode::Enter => if self.menu_sel == 0 {
                self.picking_theme()
            } else if self.menu_sel == 1 {
                self.picking_layout()
            } else {
                self.target_reset()
            },
            _ => self,
        }
    }
}

impl App {
    pub(crate) fn open_blog_menu(&mut self)
        ensures
            final(self)@ == old(self)@.blog_menu_opened(),
            old(self)@.wf() ==> final(self)@.wf(),
    {
        proof {
            reveal(SpecApp::blog_menu_opened);
        }
        let target = match &self.open_pub {
            Some(uri) => Some(uri.clone()),
            None => if self.feed_sel < self.feeds.len() {
                assert(publications_view(self.feeds@)[self.feed_sel as int]
                    == self.feeds@[self.feed_sel as int]@);
                Some(self.feeds[self.feed_sel].uri.clone())
            } else {
                None
            },
        };
        match target {
            Some(uri) => {
                self.menu_target = Some(uri);
                self.menu_sel = 0;
                self.mode = Mode::BlogMenu;
            },
            None => self.status = owned("select a feed first"),
        }
    }

    pub(crate) fn enter(&mut self, mode: Mode)
        ensures
            final(self)@ == old(self)@.entering(mode),
            old(self)@.wf() ==> final(self)@.wf(),
    {
        proof {
            reveal(SpecApp::entering);
        }
        self.mode = mode;
    }

    fn reset_blog(&mut self, uri: &str)
        ensures
            final(self)@ == old(self)@.blog_reset(uri@),
            old(self)@.wf() ==> final(self)@.wf(),
    {
        proof {
            reveal(SpecApp::blog_reset);
        }
        let ghost before = self.prefs.per_blog@;
        let _ = self.prefs.per_blog.remove(uri);
        assert(overrides_map(self.prefs.per_blog@) =~= overrides_map(before).remove(uri@));
        self.persist_prefs();
        self.status = owned("this blog now uses the global appearance");
    }

    fn reset_target(&mut self)
        ensures
            final(self)@ == old(self)@.target_reset(),
            old(self)@.wf() ==> final(self)@.wf(),
    {
        proof {
            reveal(SpecApp::target_reset);
        }
        let target = self.take_target();
        if let Some(uri) = target {
            self.reset_blog(uri.as_str());
        }
        self.enter(Mode::Browse);
    }

    pub(crate) fn blog_menu_key(&mut self, key: KeyEvent)
        ensures
            final(self)@ == old(self)@.blog_menu_key(key),
            old(self)@.wf() ==> final(self)@.wf(),
    {
        proof {
            reveal(SpecApp::blog_menu_key);
        }
        match key.code {
            KeyCode::Esc => {
                let _ = self.take_target();
                self.enter(Mode::Browse);
            },
            KeyCode::Up => self.menu_up(),
            KeyCode::Char('k') => self.menu_up(),
            KeyCode::Down => self.menu_down(2),
            KeyCode::Char('j') => self.menu_down(2),
            KeyCode::Enter => match self.menu_sel {
                0 => self.show_theme_picker(),
                1 => self.show_layout_picker(),
                _ => self.reset_target(),
            },
            _ => {},
        }
    }
}

// --- Pane widths ------------------------------------------------------------------

/// Which width a resize changes.
#[derive(Clone, Copy, PartialEq, Eq, Structural, Debug)]
pub enum PaneWidth {
    Sidebar,
    Posts,
}

/// The width that the focused pane has in a layout, and its name. The reader takes what
/// is left over, and a list on its own has no neighbour.
pub open spec fn resizable(layout: LayoutKind, focus: Focus) -> Option<(PaneWidth, Seq<char>)> {
    match (layout, focus) {
        (LayoutKind::OnePane, _) => None,
        (_, Focus::Reader) => None,
        (LayoutKind::TwoPane, _) => Some((PaneWidth::Sidebar, "sidebar"@)),
        (LayoutKind::ThreePane, Focus::Sidebar) => Some((PaneWidth::Sidebar, "feeds"@)),
        (LayoutKind::ThreePane, Focus::Posts) => Some((PaneWidth::Posts, "posts"@)),
        (LayoutKind::DrillDown, Focus::Posts) => Some((PaneWidth::Sidebar, "feeds"@)),
        (LayoutKind::DrillDown, Focus::Sidebar) => None,
    }
}

/// A kept width read as a signed number.
pub open spec fn signed_width(w: u16) -> int {
    if w < 32768 {
        w as int
    } else {
        w - 65536
    }
}

/// A width after a change, within the bounds of a pane.
pub open spec fn width_after(w: u16, delta: int) -> u16 {
    let x = signed_width(w) + delta;
    if x < PANE_MIN {
        PANE_MIN
    } else if x > PANE_MAX {
        PANE_MAX
    } else {
        x as u16
    }
}

fn resized(w: u16, delta: i16) -> (r: u16)
    ensures
        r == width_after(w, delta as int),
{
    let wide: i32 = if w < 32768 {
        w as i32
    } else {
        w as i32 - 65536
    };
    let x: i32 = wide + delta as i32;
    if x < PANE_MIN as i32 {
        PANE_MIN
    } else if x > PANE_MAX as i32 {
        PANE_MAX
    } else {
        x as u16
    }
}

/// A resized pane is within bounds, and a step that stays inside them is a whole step.
pub proof fn law_pane_widths_stay_in_bounds(w: u16, delta: int)
    ensures
        PANE_MIN <= width_after(w, delta) <= PANE_MAX,
        w < 32768 && PANE_MIN <= w + delta <= PANE_MAX ==> width_after(w, delta) == w + delta,
{
}

impl SpecApp {
    /// The width of a pane.
    pub open spec fn width_of(self, which: PaneWidth) -> u16 {
        match which {
            PaneWidth::Sidebar => self.prefs.sidebar_width,
            PaneWidth::Posts => self.prefs.posts_width,
        }
    }

    /// A pane has another width.
    #[verifier::opaque]
    pub open spec fn width_set(self, which: PaneWidth, label: Seq<char>, w: u16) -> SpecApp {
        let prefs = match which {
            PaneWidth::Sidebar => SpecPrefs { sidebar_width: w, ..self.prefs },
            PaneWidth::Posts => SpecPrefs { posts_width: w, ..self.prefs },
        };
        SpecApp {
            prefs,
            commands: self.commands.push(SpecCommand::SavePrefs(prefs)),
            status: label + " width: "@ + decimal(w as nat),
            ..self
        }
    }

    /// The focused pane becomes wider or narrower, and only that one.
    #[verifier::opaque]
    pub open spec fn pane_adjusted(self, delta: int) -> SpecApp {
        match resizable(self.layout, self.focus) {
            None => SpecApp { status: "this pane fills the available space"@, ..self },
            Some((which, label)) => {
                let w = width_after(self.width_of(which), delta);
                if w != self.width_of(which) {
                    self.width_set(which, label, w)
                } else {
                    self
                }
            },
        }
    }
}

impl App {
    fn focused_pane_width(&self) -> (r: Option<(PaneWidth, &'static str)>)
        ensures
            resizable(self@.layout, self@.focus) == (match r {
                Some(p) => Some((p.0, p.1@)),
                None => None,
            }),
    {
        match (self.layout, self.focus) {
            (LayoutKind::OnePane, _) => None,
            (_, Focus::Reader) => None,
            (LayoutKind::TwoPane, _) => Some((PaneWidth::Sidebar, "sidebar")),
            (LayoutKind::ThreePane, Focus::Sidebar) => Some((PaneWidth::Sidebar, "feeds")),
            (LayoutKind::ThreePane, Focus::Posts) => Some((PaneWidth::Posts, "posts")),
            (LayoutKind::DrillDown, Focus::Posts) => Some((PaneWidth::Sidebar, "feeds")),
            (LayoutKind::DrillDown, Focus::Sidebar) => None,
        }
    }

    fn set_width(&mut self, which: PaneWidth, label: &str, w: u16)
        ensures
            final(self)@ == old(self)@.width_set(which, label@, w),
            old(self)@.wf() ==> final(self)@.wf(),
    {
        proof {
            reveal(SpecApp::width_set);
        }
        match which {
            PaneWidth::Sidebar => self.prefs.sidebar_width = w,
            PaneWidth::Posts => self.prefs.posts_width = w,
        }
        self.persist_prefs();
        let mut status = owned(label);
        status.push_str(" width: ");
        let digits = decimal_of(w as u64);
        status.push_str(digits.as_str());
        self.status = status;
    }

    /// Widen or narrow the focused pane, within bounds, and keep the width.
    pub fn adjust_pane(&mut self, delta: i16)
        ensures
            final(self)@ == old(self)@.pane_adjusted(delta as int),
            old(self)@.wf() ==> final(self)@.wf(),
    {
        proof {
            reveal(SpecApp::pane_adjusted);
        }
        match self.focused_pane_width() {
            None => {
                self.status = owned("this pane fills the available space");
            },
            Some((which, label)) => {
                let cur = match which {
                    PaneWidth::Sidebar => self.prefs.sidebar_width,
                    PaneWidth::Posts => self.prefs.posts_width,
                };
                let new = resized(cur, delta);
                if new != cur {
                    self.set_width(which, label, new);
                }
            },
        }
    }
}

// --- Focus ------------------------------------------------------------------------

/// The place of a pane in a ring.
pub open spec fn place_in(ring: Seq<Focus>, f: Focus) -> Option<int> {
    if ring.len() > 0 && ring[0] == f {
        Some(0)
    } else if ring.len() > 1 && ring[1] == f {
        Some(1)
    } else if ring.len() > 2 && ring[2] == f {
        Some(2)
    } else {
        None
    }
}

impl SpecApp {
    /// The panes that can have the focus, in order. The post list needs posts (in the
    /// drill-down an open feed), and there the reader needs an open document.
    pub open spec fn focus_ring(self) -> Seq<Focus> {
        match self.layout {
            LayoutKind::TwoPane => seq![Focus::Sidebar, Focus::Reader],
            LayoutKind::DrillDown => if self.open_pub is Some {
                if self.reading is Some {
                    seq![Focus::Sidebar, Focus::Posts, Focus::Reader]
                } else {
                    seq![Focus::Sidebar, Focus::Posts]
                }
            } else if self.reading is Some {
                seq![Focus::Sidebar, Focus::Reader]
            } else {
                seq![Focus::Sidebar]
            },
            _ => if self.docs.len() > 0 {
                seq![Focus::Sidebar, Focus::Posts, Focus::Reader]
            } else {
                seq![Focus::Sidebar, Focus::Reader]
            },
        }
    }

    /// The pane after the focused one; after one that is not in the ring, the second.
    pub open spec fn next_focus(self) -> Focus {
        let ring = self.focus_ring();
        let i = match place_in(ring, self.focus) {
            Some(i) => i,
            None => 0,
        };
        ring[(i + 1) % (ring.len() as int)]
    }

    /// The pane before the focused one; at the first it stays.
    pub open spec fn previous_focus(self) -> Focus {
        let ring = self.focus_ring();
        match place_in(ring, self.focus) {
            Some(i) => if i > 0 {
                ring[i - 1]
            } else {
                self.focus
            },
            None => self.focus,
        }
    }

    /// A pane has the focus.
    #[verifier::opaque]
    pub open spec fn focused(self, f: Focus) -> SpecApp {
        SpecApp { focus: f, ..self }
    }
}

impl App {
    fn focus_ring(&self) -> (r: Vec<Focus>)
        ensures
            r@ == self@.focus_ring(),
            1 <= r@.len() <= 3,
    {
        assert(self@.docs.len() == self.docs@.len());
        let mut ring: Vec<Focus> = Vec::new();
        ring.push(Focus::Sidebar);
        match self.layout {
            LayoutKind::TwoPane => ring.push(Focus::Reader),
            LayoutKind::DrillDown => {
                if self.open_pub.is_some() {
                    ring.push(Focus::Posts);
                }
                if self.reading.is_some() {
                    ring.push(Focus::Reader);
                }
            },
            _ => {
                if self.docs.len() > 0 {
                    ring.push(Focus::Posts);
                }
                ring.push(Focus::Reader);
            },
        }
        assert(ring@ =~= self@.focus_ring());
        ring
    }

    pub(crate) fn set_focus(&mut self, f: Focus)
        ensures
            final(self)@ == old(self)@.focused(f),
            old(self)@.wf() ==> final(self)@.wf(),
    {
        proof {
            reveal(SpecApp::focused);
        }
        self.focus = f;
    }

    /// Move the focus to the next pane of the layout.
    pub fn cycle_focus(&mut self)
        ensures
            final(self)@ == old(self)@.focused(old(self)@.next_focus()),
            old(self)@.wf() ==> final(self)@.wf(),
    {
        let ring = self.focus_ring();
        let i: usize = match place_of(&ring, self.focus) {
            Some(i) => i,
            None => 0,
        };
        self.set_focus(ring[(i + 1) % ring.len()]);
    }

    /// Step the focus back towards the first pane.
    pub fn escape_focus(&mut self)
        ensures
            final(self)@ == old(self)@.focused(old(self)@.previous_focus()),
            old(self)@.wf() ==> final(self)@.wf(),
    {
        let ring = self.focus_ring();
        let mut f = self.focus;
        if let Some(i) = place_of(&ring, self.focus) {
            if i > 0 {
                f = ring[i - 1];
            }
        }
        self.set_focus(f);
    }
}

fn place_of(ring: &Vec<Focus>, f: Focus) -> (r: Option<usize>)
    ensures
        place_in(ring@, f) == (match r {
            Some(i) => Some(i as int),
            None => None,
        }),
        r matches Some(i) ==> i < ring@.len() && i < 3,
{
    if ring.len() > 0 && ring[0] == f {
        Some(0)
    } else if ring.len() > 1 && ring[1] == f {
        Some(1)
    } else if ring.len() > 2 && ring[2] == f {
        Some(2)
    } else {
        None
    }
}

/// The focus only ever moves to a pane that the layout shows.
pub proof fn law_focus_moves_within_the_ring(a: SpecApp)
    ensures
        a.focus_ring().contains(a.next_focus()),
        a.focus_ring().contains(a.focus) ==> a.focus_ring().contains(a.previous_focus()),
{
    let ring = a.focus_ring();
    let i = match place_in(ring, a.focus) {
        Some(i) => i,
        None => 0,
    };
    assert(ring[(i + 1) % (ring.len() as int)] == a.next_focus());
    if let Some(j) = place_in(ring, a.focus) {
        if j > 0 {
            assert(ring[j - 1] == a.previous_focus());
        }
    }
}

} // verus!
