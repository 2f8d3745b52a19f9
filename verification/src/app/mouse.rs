//! The mouse: wheel and clicks.
use vstd::prelude::*;

use crate::app::feeds::{scroll_down, scroll_up};
use crate::app::geometry::{hit, in_rect, row_at};
use crate::app::state::{App, Focus, Mode, SpecApp};
use crate::input::{MouseEvent, MouseEventKind};
use crate::model::{documents_view, publications_view};

verus! {

impl SpecApp {
    /// No dialog is open, so the mouse reaches the panes.
    pub open spec fn panes_reachable(self) -> bool {
        self.mode == Mode::Browse || self.mode == Mode::DocList
    }

    /// The wheel turns over a point: the reader scrolls by three rows, a list moves by
    /// one row and has the focus.
    #[verifier::opaque]
    pub open spec fn wheel_turned(self, down: bool, x: int, y: int) -> SpecApp {
        if !self.panes_reachable() {
            self
        } else if row_at(self.rects.reader, x, y) is Some {
            self.scrolled(
                if down {
                    scroll_down(self.scroll, 3)
                } else {
                    scroll_up(self.scroll, 3)
                },
            )
        } else if row_at(self.rects.posts, x, y) is Some {
            self.list_turned(down, Focus::Posts)
        } else if row_at(self.rects.sidebar, x, y) is Some {
            self.list_turned(down, Focus::Sidebar)
        } else {
            self
        }
    }

    /// The wheel turns over a list.
    #[verifier::opaque]
    pub open spec fn list_turned(self, down: bool, f: Focus) -> SpecApp {
        if down {
            self.focused(f).moved_down()
        } else {
            self.focused(f).moved_up()
        }
    }

    /// The whole status line is shown, if there is one.
    #[verifier::opaque]
    pub open spec fn status_expanded(self) -> SpecApp {
        if self.status.len() > 0 {
            SpecApp { status_detail: self.status, mode: Mode::StatusDetail, ..self }
        } else {
            self
        }
    }

    /// A post is clicked.
    #[verifier::opaque]
    pub open spec fn post_clicked(self, row: int) -> SpecApp {
        if row < self.docs.len() {
            self.post_at(row as usize).focused(Focus::Posts).doc_opened()
        } else {
            self
        }
    }

    /// A feed is clicked.
    #[verifier::opaque]
    pub open spec fn feed_clicked(self, row: int) -> SpecApp {
        if row < self.feeds.len() {
            self.feed_at(row as usize).focused(Focus::Sidebar).feed_opened()
        } else {
            self
        }
    }

    /// A click: it closes a popup, is lost on any other dialog, and else goes to the
    /// status line, the posts, the feeds or a link.
    #[verifier::opaque]
    pub open spec fn clicked(self, x: int, y: int) -> SpecApp {
        if self.mode == Mode::Help || self.mode == Mode::StatusDetail {
            self.entering(Mode::Browse)
        } else if !self.panes_reachable() {
            self
        } else if self.rects.status.covers(x, y) {
            self.status_expanded()
        } else {
            match row_at(self.rects.posts, x, y) {
                Some(i) => self.post_clicked(i),
                None => match row_at(self.rects.sidebar, x, y) {
                    Some(i) => self.feed_clicked(i),
                    None => match self.link_under(x, y) {
                        Some(href) => self.link_opened(href),
                        None => self,
                    },
                },
            }
        }
    }

    /// What the mouse does.
    pub open spec fn mouse_used(self, ev: MouseEvent) -> SpecApp {
        match ev.kind {
            MouseEventKind::ScrollDown => self.wheel_turned(
                true,
                ev.column as int,
                ev.row as int,
            ),
            MouseEventKind::ScrollUp => self.wheel_turned(false, ev.column as int, ev.row as int),
            MouseEventKind::Down(_) => self.clicked(ev.column as int, ev.row as int),
        }
    }
}

impl App {
    fn turn_list(&mut self, down: bool, f: Focus)
        ensures
            final(self)@ == old(self)@.list_turned(down, f),
            old(self)@.wf() ==> final(self)@.wf(),
    {
        proof {
            reveal(SpecApp::list_turned);
        }
        self.set_focus(f);
        if down {
            self.move_down();
        } else {
            self.move_up();
        }
    }

    fn turn_wheel(&mut self, down: bool, x: u16, y: u16)
        ensures
            final(self)@ == old(self)@.wheel_turned(down, x as int, y as int),
            old(self)@.wf() ==> final(self)@.wf(),
    {
        proof {
            reveal(SpecApp::wheel_turned);
        }
        if !(self.mode == Mode::Browse || self.mode == Mode::DocList) {
            return ;
        }
        if hit(self.rects.reader, x, y).is_some() {
            let row: u16 = if down {
                self.scroll.saturating_add(3)
            } else {
                self.scroll.saturating_sub(3)
            };
            self.scroll_to(row);
        } else if hit(self.rects.posts, x, y).is_some() {
            self.turn_list(down, Focus::Posts);
        } else if hit(self.rects.sidebar, x, y).is_some() {
            self.turn_list(down, Focus::Sidebar);
        }
    }

    fn expand_status(&mut self)
        ensures
            final(self)@ == old(self)@.status_expanded(),
            old(self)@.wf() ==> final(self)@.wf(),
    {
        proof {
            reveal(SpecApp::status_expanded);
        }
        if self.status.as_str().is_empty() {
            return ;
        }
        self.status_detail = self.status.clone();
        self.mode = Mode::StatusDetail;
    }

    fn click_post(&mut self, row: usize)
        ensures
            final(self)@ == old(self)@.post_clicked(row as int),
            old(self)@.wf() ==> final(self)@.wf(),
    {
        proof {
            reveal(SpecApp::post_clicked);
        }
        assert(documents_view(self.docs@).len() == self.docs@.len());
        if row < self.docs.len() {
            self.select_post(row);
            self.set_focus(Focus::Posts);
            self.open_doc();
        }
    }

    fn click_feed(&mut self, row: usize)
        ensures
            final(self)@ == old(self)@.feed_clicked(row as int),
            old(self)@.wf() ==> final(self)@.wf(),
    {
        proof {
            reveal(SpecApp::feed_clicked);
        }
        assert(publications_view(self.feeds@).len() == self.feeds@.len());
        if row < self.feeds.len() {
            self.select_feed(row);
            self.set_focus(Focus::Sidebar);
            self.open_feed();
        }
    }

    fn click(&mut self, x: u16, y: u16)
        ensures
            final(self)@ == old(self)@.clicked(x as int, y as int),
            old(self)@.wf() ==> final(self)@.wf(),
    {
        proof {
            reveal(SpecApp::clicked);
        }
        if self.mode == Mode::Help || self.mode == Mode::StatusDetail {
            self.enter(Mode::Browse);
        } else if !(self.mode == Mode::Browse || self.mode == Mode::DocList) {
        } else if in_rect(self.rects.status, x, y) {
            self.expand_status();
        } else {
            match hit(self.rects.posts, x, y) {
                Some(i) => self.click_post(i),
                None => match hit(self.rects.sidebar, x, y) {
                    Some(i) => self.click_feed(i),
                    None => if let Some(href) = self.link_at(x, y) {
                        self.open_link(href.as_str());
                    },
                },
            }
        }
    }

    /// Handle the mouse.
    pub fn on_mouse(&mut self, ev: MouseEvent)
        ensures
            final(self)@ == old(self)@.mouse_used(ev),
            old(self)@.wf() ==> final(self)@.wf(),
    {
        match ev.kind {
            MouseEventKind::ScrollDown => self.turn_wheel(true, ev.column, ev.row),
            MouseEventKind::ScrollUp => self.turn_wheel(false, ev.column, ev.row),
            MouseEventKind::Down(_) => self.click(ev.column, ev.row),
        }
    }
}

/// A dialog keeps the mouse from what lies behind it: nothing but a popup's own closing
/// ever happens.
pub proof fn law_dialogs_keep_the_mouse_out(a: SpecApp, ev: MouseEvent)
    requires
        !a.panes_reachable(),
    ensures
        a.mouse_used(ev) == a || a.mouse_used(ev) == (SpecApp { mode: Mode::Browse, ..a }),
{
    reveal(SpecApp::wheel_turned);
    reveal(SpecApp::clicked);
    reveal(SpecApp::entering);
}

} // verus!
